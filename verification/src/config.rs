//! Runtime configuration: which file to read, and how the file's values,
//! the environment and the defaults combine.
//!
//! Config file location (highest to lowest precedence):
//!   1. `--config <path>` CLI flag
//!   2. `TRAKT_CONFIG_FILE` env var
//!   3. `~/.config/trakt-letterboxd/config.toml`
//!
//! Individual env var overrides (take precedence over file values):
//!   `TRAKT_CLIENT_ID`, `TRAKT_CLIENT_SECRET`, `TMDB_API_KEY`, `DATA_DIR`
use vstd::prelude::*;
use crate::matching::copy_opt_string;
use crate::text::{join_path, joined_path, owned};

verus! {

/// The values a config file gave (each absent when the file has none, or
/// when there is no file).
pub struct RawConfig {
    pub trakt_client_id: Option<String>,
    pub trakt_client_secret: Option<String>,
    pub tmdb_api_key: Option<String>,
    pub data_dir: Option<String>,
}

/// Runtime configuration for the tool.
pub struct Config {
    pub trakt_client_id: String,
    pub trakt_client_secret: String,
    pub tmdb_api_key: Option<String>,
    pub data_dir: String,
}

/// The value of the first variable called `name`, if any.
pub open spec fn env_lookup(env: Seq<(String, String)>, name: Seq<char>) -> Option<String>
    decreases env.len(),
{
    if env.len() == 0 {
        None
    } else if env[0].0@ == name {
        Some(env[0].1)
    } else {
        env_lookup(env.drop_first(), name)
    }
}

/// Looks a variable up in the environment, given as (name, value) pairs.
pub fn env_value(env: &Vec<(String, String)>, name: &str) -> (res: Option<String>)
    ensures
        res == env_lookup(env@, name@),
{
    let wanted = owned(name);
    let mut k: usize = 0;
    proof {
        assert(env@.skip(0) =~= env@);
    }
    while k < env.len()
        invariant
            k <= env.len(),
            wanted@ == name@,
            env_lookup(env@, name@) == env_lookup(env@.skip(k as int), name@),
        decreases env.len() - k,
    {
        proof {
            assert(env@.skip(k as int)[0] == env@[k as int]);
            assert(env@.skip(k as int).drop_first() =~= env@.skip(k + 1));
        }
        if env[k].0 == wanted {
            return Some(env[k].1.clone());
        }
        k = k + 1;
    }
    None
}

/// `{home}/.config/trakt-letterboxd/config.toml`
pub open spec fn home_config_path(home: Seq<char>) -> Seq<char> {
    joined_path(joined_path(joined_path(home, ".config"@), "trakt-letterboxd"@), "config.toml"@)
}

/// `{home}/.local/share/trakt-letterboxd`
pub open spec fn home_data_dir(home: Seq<char>) -> Seq<char> {
    joined_path(joined_path(joined_path(home, ".local"@), "share"@), "trakt-letterboxd"@)
}

/// The config file to read: the `--config` path, else `TRAKT_CONFIG_FILE`,
/// else the one under `$HOME/.config`; none without any of them.
pub fn config_path(cli: Option<&str>, env: &Vec<(String, String)>) -> (res: Option<String>)
    ensures
        match cli {
            Some(p) => res matches Some(r) && r@ == p@,
            None => match env_lookup(env@, "TRAKT_CONFIG_FILE"@) {
                Some(f) => res == Some(f),
                None => match env_lookup(env@, "HOME"@) {
                    Some(h) => res matches Some(r) && r@ == home_config_path(h@),
                    None => res is None,
                },
            },
        },
{
    proof {
        reveal_strlit("TRAKT_CONFIG_FILE");
        reveal_strlit("HOME");
        reveal_strlit(".config");
        reveal_strlit("trakt-letterboxd");
        reveal_strlit("config.toml");
    }
    match cli {
        Some(p) => Some(owned(p)),
        None => match env_value(env, "TRAKT_CONFIG_FILE") {
            Some(f) => Some(f),
            None => match env_value(env, "HOME") {
                Some(h) => {
                    let a = join_path(h.as_str(), ".config");
                    let b = join_path(a.as_str(), "trakt-letterboxd");
                    Some(join_path(b.as_str(), "config.toml"))
                },
                None => None,
            },
        },
    }
}

/// The message for a missing client id.
pub open spec fn missing_id_text() -> Seq<char> {
    "missing required config: trakt_client_id\n  → set TRAKT_CLIENT_ID env var or add `trakt_client_id = \"...\"` to config file"@
}

/// The message for a missing client secret.
pub open spec fn missing_secret_text() -> Seq<char> {
    "missing required config: trakt_client_secret\n  → set TRAKT_CLIENT_SECRET env var or add `trakt_client_secret = \"...\"` to config file"@
}

/// A setting: the environment's value when it sets one, else the file's.
pub open spec fn setting(env: Seq<(String, String)>, name: Seq<char>, file: Option<String>) -> Option<
    String,
> {
    match env_lookup(env, name) {
        Some(v) => Some(v),
        None => file,
    }
}

fn override_with(env: &Vec<(String, String)>, name: &str, file: &Option<String>) -> (res: Option<
    String,
>)
    ensures
        res == setting(env@, name@, *file),
{
    match env_value(env, name) {
        Some(v) => Some(v),
        None => copy_opt_string(file),
    }
}

impl Config {
    /// Combines a config file's values with the environment: each variable
    /// that is set overrides the file; the client id and secret are
    /// required; the data directory defaults to
    /// `$HOME/.local/share/trakt-letterboxd`, else `data`.
    pub fn from_parts(raw: &RawConfig, env: &Vec<(String, String)>) -> (res: Result<Config, String>)
        ensures
            ({
                let id = setting(env@, "TRAKT_CLIENT_ID"@, raw.trakt_client_id);
                let secret = setting(env@, "TRAKT_CLIENT_SECRET"@, raw.trakt_client_secret);
                let tmdb = setting(env@, "TMDB_API_KEY"@, raw.tmdb_api_key);
                let dir = setting(env@, "DATA_DIR"@, raw.data_dir);
                match res {
                    Ok(c) => {
                        &&& id == Some(c.trakt_client_id)
                        &&& secret == Some(c.trakt_client_secret)
                        &&& c.tmdb_api_key == tmdb
                        &&& c.data_dir@ == match dir {
                            Some(d) => d@,
                            None => match env_lookup(env@, "HOME"@) {
                                Some(h) => home_data_dir(h@),
                                None => "data"@,
                            },
                        }
                    },
                    Err(m) => {
                        ||| id is None && m@ == missing_id_text()
                        ||| id is Some && secret is None && m@ == missing_secret_text()
                    },
                }
            }),
            res is Ok <==> (setting(env@, "TRAKT_CLIENT_ID"@, raw.trakt_client_id) is Some
                && setting(env@, "TRAKT_CLIENT_SECRET"@, raw.trakt_client_secret) is Some),
    {
        let id = override_with(env, "TRAKT_CLIENT_ID", &raw.trakt_client_id);
        let secret = override_with(env, "TRAKT_CLIENT_SECRET", &raw.trakt_client_secret);
        let tmdb = override_with(env, "TMDB_API_KEY", &raw.tmdb_api_key);
        let dir = override_with(env, "DATA_DIR", &raw.data_dir);
        let trakt_client_id = match id {
            Some(v) => v,
            None => {
                proof {
                    reveal_strlit("missing required config: trakt_client_id\n  → set TRAKT_CLIENT_ID env var or add `trakt_client_id = \"...\"` to config file");
                }
                return Err(owned("missing required config: trakt_client_id\n  → set TRAKT_CLIENT_ID env var or add `trakt_client_id = \"...\"` to config file"));
            },
        };
        let trakt_client_secret = match secret {
            Some(v) => v,
            None => {
                proof {
                    reveal_strlit("missing required config: trakt_client_secret\n  → set TRAKT_CLIENT_SECRET env var or add `trakt_client_secret = \"...\"` to config file");
                }
                return Err(owned("missing required config: trakt_client_secret\n  → set TRAKT_CLIENT_SECRET env var or add `trakt_client_secret = \"...\"` to config file"));
            },
        };
        let data_dir = match dir {
            Some(d) => d,
            None => match env_value(env, "HOME") {
                Some(h) => {
                    let a = join_path(h.as_str(), ".local");
                    let b = join_path(a.as_str(), "share");
                    join_path(b.as_str(), "trakt-letterboxd")
                },
                None => owned("data"),
            },
        };
        proof {
            reveal_strlit(".local");
            reveal_strlit("share");
            reveal_strlit("trakt-letterboxd");
            reveal_strlit("data");
            reveal_strlit("HOME");
        }
        Ok(Config { trakt_client_id, trakt_client_secret, tmdb_api_key: tmdb, data_dir })
    }
}

} // verus!
