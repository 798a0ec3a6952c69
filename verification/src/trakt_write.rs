//! Writes to a Trakt account: the request shapes, the rate-limit decision
//! after each POST, and the summary read back from Trakt's reply.
use vstd::prelude::*;
use crate::matching::copy_opt_string;
use crate::text::{decimal, decimal_string, parse_u64, parsed_u64};

verus! {

// --- Public input types ---

pub struct MovieId {
    pub tmdb_id: Option<u64>,
    pub imdb_id: Option<String>,
}

pub struct HistoryMovie {
    pub ids: MovieId,
    pub watched_at: Option<String>,
}

pub struct RatingMovie {
    pub ids: MovieId,
    pub rating: u8,
    pub rated_at: Option<String>,
}

pub struct WatchlistMovie {
    pub ids: MovieId,
}

// --- Public output type ---

#[derive(Debug, PartialEq, Eq, Structural)]
pub struct SyncSummary {
    /// Items added (or deleted for remove operations).
    pub added: u32,
    /// Items updated or already existing (0 for remove operations).
    pub updated: u32,
    /// Items Trakt could not find by the provided IDs.
    pub not_found: u32,
}

/// The ids sent for one film: the TMDB id alone when there is one, else the
/// IMDb id alone.
pub open spec fn sent_ids(id: MovieId) -> MovieId {
    if id.tmdb_id is Some {
        MovieId { tmdb_id: id.tmdb_id, imdb_id: None }
    } else {
        MovieId { tmdb_id: None, imdb_id: id.imdb_id }
    }
}

/// The ids put in a request body for `id`: Trakt is given one id per film,
/// preferring TMDB over IMDb.
pub fn build_ids(id: &MovieId) -> (res: MovieId)
    ensures
        res == sent_ids(*id),
{
    if id.tmdb_id.is_some() {
        MovieId { tmdb_id: id.tmdb_id, imdb_id: None }
    } else {
        MovieId { tmdb_id: None, imdb_id: copy_opt_string(&id.imdb_id) }
    }
}

// --- Rate limiting ---

/// Seconds to wait after a 429 that carries no usable `Retry-After`.
pub const DEFAULT_WRITE_RETRY_SECS: u64 = 1;

/// Seconds to pause after a successful write, so that successive POSTs are
/// at least this far apart.
pub const WRITE_PAUSE_SECS: u64 = 1;

/// What to do with the reply to one sync POST.
pub enum PostStep {
    /// 200 or 201: take the body, after pausing this many seconds so that
    /// successive POSTs stay apart.
    Done(u64),
    /// 429: wait this many seconds, then send the same request again.
    Retry(u64),
    /// Any other status: give up with this message.
    Fail(String),
}

/// `unexpected HTTP {status}`
pub open spec fn unexpected_status_text(status: u16) -> Seq<char> {
    "unexpected HTTP "@ + decimal(status as nat)
}

/// The wait for a 429: the `Retry-After` seconds when they parse, else one.
pub open spec fn write_retry_secs(retry_after: Option<Seq<char>>) -> u64 {
    match retry_after {
        Some(v) => match parsed_u64(v) {
            Some(n) => n,
            None => DEFAULT_WRITE_RETRY_SECS,
        },
        None => DEFAULT_WRITE_RETRY_SECS,
    }
}

/// Decides what follows a sync POST from its status and `Retry-After` header.
pub fn post_step(status: u16, retry_after: Option<&str>) -> (res: PostStep)
    ensures
        (status == 200 || status == 201) ==> res == PostStep::Done(WRITE_PAUSE_SECS),
        status == 429 ==> res == PostStep::Retry(write_retry_secs(
            match retry_after {
                Some(v) => Some(v@),
                None => None,
            },
        )),
        (status != 200 && status != 201 && status != 429) ==> (res matches PostStep::Fail(m) && m@
            == unexpected_status_text(status)),
{
    if status == 200 || status == 201 {
        PostStep::Done(WRITE_PAUSE_SECS)
    } else if status == 429 {
        let secs = match retry_after {
            Some(v) => match parse_u64(v) {
                Some(n) => n,
                None => DEFAULT_WRITE_RETRY_SECS,
            },
            None => DEFAULT_WRITE_RETRY_SECS,
        };
        PostStep::Retry(secs)
    } else {
        let mut m = String::new();
        m.append("unexpected HTTP ");
        m.append(decimal_string(status as u64).as_str());
        proof {
            reveal_strlit("unexpected HTTP ");
        }
        PostStep::Fail(m)
    }
}

// --- Endpoints ---

/// `{base_url}{path}`
pub fn endpoint(base_url: &str, path: &str) -> (res: String)
    ensures
        res@ == base_url@ + path@,
{
    let mut out = String::new();
    out.append(base_url);
    out.append(path);
    out
}

pub fn history_add_url(base_url: &str) -> (res: String)
    ensures
        res@ == base_url@ + "/sync/history"@,
{
    endpoint(base_url, "/sync/history")
}

pub fn history_remove_url(base_url: &str) -> (res: String)
    ensures
        res@ == base_url@ + "/sync/history/remove"@,
{
    endpoint(base_url, "/sync/history/remove")
}

pub fn ratings_add_url(base_url: &str) -> (res: String)
    ensures
        res@ == base_url@ + "/sync/ratings"@,
{
    endpoint(base_url, "/sync/ratings")
}

pub fn ratings_remove_url(base_url: &str) -> (res: String)
    ensures
        res@ == base_url@ + "/sync/ratings/remove"@,
{
    endpoint(base_url, "/sync/ratings/remove")
}

pub fn watchlist_add_url(base_url: &str) -> (res: String)
    ensures
        res@ == base_url@ + "/sync/watchlist"@,
{
    endpoint(base_url, "/sync/watchlist")
}

pub fn watchlist_remove_url(base_url: &str) -> (res: String)
    ensures
        res@ == base_url@ + "/sync/watchlist/remove"@,
{
    endpoint(base_url, "/sync/watchlist/remove")
}

// --- Reading the reply ---

/// The number of films in a reply's `not_found.movies` list (none: 0); a
/// count beyond `u32` keeps its low 32 bits.
pub open spec fn not_found_total(listed: Option<usize>) -> u32 {
    match listed {
        Some(n) => (n as u32),
        None => 0,
    }
}

pub fn not_found_count(listed: Option<usize>) -> (res: u32)
    ensures
        res == not_found_total(listed),
{
    match listed {
        Some(n) => {
            #[verifier::truncate]
            let c = n as u32;
            c
        },
        None => 0,
    }
}

/// The summary of an add request: `added.movies`, then the count that was
/// already there (`existing.movies` for history and watchlist,
/// `updated.movies` for ratings), then the films Trakt could not find. A
/// count missing from the reply is 0.
pub fn add_summary(added: Option<u32>, kept: Option<u32>, not_found: Option<usize>) -> (res:
    SyncSummary)
    ensures
        res.added == (match added {
            Some(n) => n,
            None => 0,
        }),
        res.updated == (match kept {
            Some(n) => n,
            None => 0,
        }),
        res.not_found == not_found_total(not_found),
{
    SyncSummary {
        added: match added {
            Some(n) => n,
            None => 0,
        },
        updated: match kept {
            Some(n) => n,
            None => 0,
        },
        not_found: not_found_count(not_found),
    }
}

/// The summary of a remove request: `deleted.movies` is reported as added,
/// nothing as updated.
pub fn remove_summary(deleted: Option<u32>, not_found: Option<usize>) -> (res: SyncSummary)
    ensures
        res.added == (match deleted {
            Some(n) => n,
            None => 0,
        }),
        res.updated == 0,
        res.not_found == not_found_total(not_found),
{
    SyncSummary {
        added: match deleted {
            Some(n) => n,
            None => 0,
        },
        updated: 0,
        not_found: not_found_count(not_found),
    }
}

} // verus!
