use trakt_letterboxd::config::{config_path, Config, RawConfig};

fn env(pairs: &[(&str, &str)]) -> Vec<(String, String)> {
    pairs
        .iter()
        .map(|(k, v)| (k.to_string(), v.to_string()))
        .collect()
}

/// The values of a config file's TOML text.
fn file_values(content: &str) -> RawConfig {
    let table: toml::Table = content.parse().unwrap();
    let get = |k: &str| table.get(k).and_then(|v| v.as_str()).map(|s| s.to_string());
    RawConfig {
        trakt_client_id: get("trakt_client_id"),
        trakt_client_secret: get("trakt_client_secret"),
        tmdb_api_key: get("tmdb_api_key"),
        data_dir: get("data_dir"),
    }
}

fn no_file() -> RawConfig {
    RawConfig {
        trakt_client_id: None,
        trakt_client_secret: None,
        tmdb_api_key: None,
        data_dir: None,
    }
}

#[test]
fn valid_config_parses() {
    let raw = file_values(
        "trakt_client_id = \"abc123\"\n\
         trakt_client_secret = \"secret456\"\n\
         tmdb_api_key = \"tmdb789\"\n\
         data_dir = \"/tmp/sync-data\"\n",
    );
    let cfg = Config::from_parts(&raw, &env(&[])).ok().unwrap();
    assert_eq!(cfg.trakt_client_id, "abc123");
    assert_eq!(cfg.trakt_client_secret, "secret456");
    assert_eq!(cfg.tmdb_api_key, Some("tmdb789".to_string()));
    assert_eq!(cfg.data_dir, "/tmp/sync-data");
}

#[test]
fn optional_fields_use_defaults() {
    let raw = file_values(
        "trakt_client_id = \"abc\"\n\
         trakt_client_secret = \"xyz\"\n",
    );
    let cfg = Config::from_parts(&raw, &env(&[("HOME", "/home/user")]))
        .ok()
        .unwrap();
    assert_eq!(cfg.tmdb_api_key, None);
    assert_eq!(cfg.data_dir, "/home/user/.local/share/trakt-letterboxd");
}

#[test]
fn missing_client_id_yields_clear_error() {
    let raw = file_values("trakt_client_secret = \"xyz\"\n");
    let err = Config::from_parts(&raw, &env(&[])).err().unwrap();
    assert!(
        err.contains("trakt_client_id"),
        "expected error to name the missing field, got: {err}"
    );
}

#[test]
fn missing_client_secret_yields_clear_error() {
    let raw = file_values("trakt_client_id = \"abc\"\n");
    let err = Config::from_parts(&raw, &env(&[])).err().unwrap();
    assert!(
        err.contains("trakt_client_secret"),
        "expected error to name the missing field, got: {err}"
    );
}

#[test]
fn env_vars_override_file_values() {
    let raw = file_values(
        "trakt_client_id = \"file_id\"\n\
         trakt_client_secret = \"file_secret\"\n",
    );
    let cfg = Config::from_parts(
        &raw,
        &env(&[
            ("TRAKT_CLIENT_ID", "env_id"),
            ("TRAKT_CLIENT_SECRET", "env_secret"),
        ]),
    )
    .ok()
    .unwrap();
    assert_eq!(cfg.trakt_client_id, "env_id");
    assert_eq!(cfg.trakt_client_secret, "env_secret");
}

#[test]
fn env_vars_alone_are_sufficient() {
    let cfg = Config::from_parts(
        &no_file(),
        &env(&[
            ("TRAKT_CLIENT_ID", "env_id"),
            ("TRAKT_CLIENT_SECRET", "env_secret"),
        ]),
    )
    .ok()
    .unwrap();
    assert_eq!(cfg.trakt_client_id, "env_id");
    assert_eq!(cfg.trakt_client_secret, "env_secret");
    assert_eq!(cfg.data_dir, "data");
}

#[test]
fn config_file_location_precedence() {
    assert_eq!(
        config_path(Some("/etc/x.toml"), &env(&[("TRAKT_CONFIG_FILE", "/y.toml")])),
        Some("/etc/x.toml".to_string())
    );
    assert_eq!(
        config_path(None, &env(&[("TRAKT_CONFIG_FILE", "/y.toml"), ("HOME", "/h")])),
        Some("/y.toml".to_string())
    );
    assert_eq!(
        config_path(None, &env(&[("HOME", "/h")])),
        Some("/h/.config/trakt-letterboxd/config.toml".to_string())
    );
    assert_eq!(config_path(None, &env(&[])), None);
}

#[test]
fn env_data_dir_overrides_file() {
    let raw = file_values(
        "trakt_client_id = \"a\"\ntrakt_client_secret = \"b\"\ndata_dir = \"/file\"\n",
    );
    let cfg = Config::from_parts(&raw, &env(&[("DATA_DIR", "/env")])).ok().unwrap();
    assert_eq!(cfg.data_dir, "/env");
}
