//! Reading the user's Trakt data: the records it yields, and the paging and
//! retry decisions of the read client.
use vstd::prelude::*;
use crate::matching::copy_opt_string;
use crate::text::{decimal, decimal_string, parse_u32, parse_u64, parsed_u32, parsed_u64};

verus! {

#[derive(Debug)]
pub struct MovieRecord {
    pub title: String,
    pub year: Option<u32>,
    pub trakt_id: Option<u64>,
    pub slug: Option<String>,
    pub imdb_id: Option<String>,
    pub tmdb_id: Option<u64>,
}

#[derive(Debug)]
pub struct WatchedMovie {
    pub watched_at: String,
    pub movie: MovieRecord,
}

#[derive(Debug)]
pub struct RatedMovie {
    pub rated_at: String,
    pub rating: u8,
    pub movie: MovieRecord,
}

#[derive(Debug)]
pub struct WatchlistMovie {
    pub listed_at: String,
    pub movie: MovieRecord,
}

impl MovieRecord {
    /// A field-for-field copy.
    pub fn duplicate(&self) -> (res: Self)
        ensures
            res == *self,
    {
        MovieRecord {
            title: self.title.clone(),
            year: self.year,
            trakt_id: self.trakt_id,
            slug: copy_opt_string(&self.slug),
            imdb_id: copy_opt_string(&self.imdb_id),
            tmdb_id: self.tmdb_id,
        }
    }
}

impl WatchlistMovie {
    /// A field-for-field copy.
    pub fn duplicate(&self) -> (res: Self)
        ensures
            res == *self,
    {
        WatchlistMovie { listed_at: self.listed_at.clone(), movie: self.movie.duplicate() }
    }
}

/// Movies per page requested from the sync endpoints.
pub const PAGE_LIMIT: u32 = 100;

/// Seconds to wait after a 429 when the response names no `Retry-After`.
pub const DEFAULT_READ_RETRY_SECS: u64 = 5;

/// The number of pages a paginated response announces in its
/// `X-Pagination-Page-Count` header; 1 when the header is absent or not a number.
pub open spec fn page_count_of(header: Option<Seq<char>>) -> u32 {
    match header {
        Some(h) => match parsed_u32(h) {
            Some(n) => n,
            None => 1,
        },
        None => 1,
    }
}

pub fn page_count_from(header: Option<&str>) -> (res: u32)
    ensures
        res == page_count_of(match header {
            Some(h) => Some(h@),
            None => None,
        }),
{
    match header {
        Some(h) => match parse_u32(h) {
            Some(n) => n,
            None => 1,
        },
        None => 1,
    }
}

/// What to do with the response to one GET.
pub enum ReadStep {
    /// Rate-limited: wait this many seconds and ask again.
    Retry(u64),
    /// Anything else: hand the response on.
    Accept,
}

/// The delay a 429 asks for: its `Retry-After` seconds, or `default`.
pub open spec fn retry_secs(retry_after: Option<Seq<char>>, default: u64) -> u64 {
    match retry_after {
        Some(h) => match parsed_u64(h) {
            Some(n) => n,
            None => default,
        },
        None => default,
    }
}

pub fn retry_after_secs(retry_after: Option<&str>, default: u64) -> (res: u64)
    ensures
        res == retry_secs(
            match retry_after {
                Some(h) => Some(h@),
                None => None,
            },
            default,
        ),
{
    match retry_after {
        Some(h) => match parse_u64(h) {
            Some(n) => n,
            None => default,
        },
        None => default,
    }
}

/// A GET answered 429 is retried after its `Retry-After` delay (5 s when
/// absent); any other status is accepted.
pub fn read_step(status: u16, retry_after: Option<&str>) -> (res: ReadStep)
    ensures
        match res {
            ReadStep::Retry(secs) => status == 429 && secs == retry_secs(
                match retry_after {
                    Some(h) => Some(h@),
                    None => None,
                },
                DEFAULT_READ_RETRY_SECS,
            ),
            ReadStep::Accept => status != 429,
        },
{
    if status == 429 {
        ReadStep::Retry(retry_after_secs(retry_after, DEFAULT_READ_RETRY_SECS))
    } else {
        ReadStep::Accept
    }
}

/// The page after `page`, or `None` when `page` was the last one.
/// The page read after `page` when the server reports `page_count` pages.
pub open spec fn following_page(page: u32, page_count: u32) -> Option<u32> {
    if page >= page_count {
        None
    } else {
        Some((page + 1) as u32)
    }
}

/// The pages a read asks for, from `page` on, each followed by
/// [`following_page`] until none is left.
pub open spec fn pages_read(page: u32, page_count: u32) -> Seq<u32>
    decreases page_count - page,
{
    match following_page(page, page_count) {
        None => seq![page],
        Some(n) => seq![page] + pages_read(n, page_count),
    }
}

proof fn lemma_pages_read(page: u32, page_count: u32)
    ensures
        pages_read(page, page_count) == Seq::new(
            if page < page_count {
                (page_count - page + 1) as nat
            } else {
                1nat
            },
            |i: int| (page + i) as u32,
        ),
    decreases page_count - page,
{
    if page < page_count {
        lemma_pages_read((page + 1) as u32, page_count);
        assert(pages_read(page, page_count) =~= Seq::new(
            (page_count - page + 1) as nat,
            |i: int| (page + i) as u32,
        ));
    } else {
        assert(pages_read(page, page_count) =~= Seq::new(1nat, |i: int| (page + i) as u32));
    }
}

/// A paged read starting at page 1 asks for each page once, in order:
/// pages 1 to the reported count (just page 1 when the count is 0 or 1).
pub proof fn law_pages_read_once_in_order(page_count: u32)
    ensures
        pages_read(1, page_count) == Seq::new(
            if page_count >= 1 {
                page_count as nat
            } else {
                1nat
            },
            |i: int| (1 + i) as u32,
        ),
{
    lemma_pages_read(1, page_count);
    if page_count >= 1 {
        assert((page_count - 1 + 1) as nat == page_count as nat);
    }
}

pub fn next_page(page: u32, page_count: u32) -> (res: Option<u32>)
    ensures
        res == following_page(page, page_count),
        match res {
            Some(n) => page < page_count && n == page + 1,
            None => page >= page_count,
        },
{
    if page >= page_count {
        None
    } else {
        Some(page + 1)
    }
}

/// `{base_url}{path}?page={page}&limit=100`
pub open spec fn page_url_text(base_url: Seq<char>, path: Seq<char>, page: u32) -> Seq<char> {
    base_url + path + "?page="@ + decimal(page as nat) + "&limit="@ + decimal(PAGE_LIMIT as nat)
}

pub fn page_url(base_url: &str, path: &str, page: u32) -> (res: String)
    ensures
        res@ == page_url_text(base_url@, path@, page),
{
    let mut out = String::new();
    out.append(base_url);
    out.append(path);
    out.append("?page=");
    out.append(decimal_string(page as u64).as_str());
    out.append("&limit=");
    out.append(decimal_string(PAGE_LIMIT as u64).as_str());
    proof {
        assert(out@ =~= page_url_text(base_url@, path@, page));
    }
    out
}

/// The page of watched history.
pub fn history_page_url(base_url: &str, page: u32) -> (res: String)
    ensures
        res@ == page_url_text(base_url@, "/sync/history/movies"@, page),
{
    page_url(base_url, "/sync/history/movies", page)
}

/// The page of ratings.
pub fn ratings_page_url(base_url: &str, page: u32) -> (res: String)
    ensures
        res@ == page_url_text(base_url@, "/sync/ratings/movies"@, page),
{
    page_url(base_url, "/sync/ratings/movies", page)
}

/// The page of the watchlist.
pub fn watchlist_page_url(base_url: &str, page: u32) -> (res: String)
    ensures
        res@ == page_url_text(base_url@, "/sync/watchlist/movies"@, page),
{
    page_url(base_url, "/sync/watchlist/movies", page)
}

/// `{what} fetch failed: HTTP {status}`
pub open spec fn fetch_failed_text(what: Seq<char>, status: u16) -> Seq<char> {
    what + " fetch failed: HTTP "@ + decimal(status as nat)
}

/// Whether a page can be read (HTTP 200), else the error naming what was
/// being read (`history`, `ratings`, `watchlist`).
pub fn read_status_check(what: &str, status: u16) -> (res: Result<(), String>)
    ensures
        status == 200 ==> res is Ok,
        status != 200 ==> (res matches Err(m) && m@ == fetch_failed_text(what@, status)),
{
    if status == 200 {
        Ok(())
    } else {
        let mut m = String::new();
        m.append(what);
        m.append(" fetch failed: HTTP ");
        m.append(decimal_string(status as u64).as_str());
        proof {
            reveal_strlit(" fetch failed: HTTP ");
        }
        Err(m)
    }
}

/// `{base_url}/users/settings`
pub fn settings_url(base_url: &str) -> (res: String)
    ensures
        res@ == base_url@ + "/users/settings"@,
{
    let mut out = String::new();
    out.append(base_url);
    out.append("/users/settings");
    out
}

/// `failed to fetch user settings: HTTP {status}`
pub open spec fn settings_failed_text(status: u16) -> Seq<char> {
    "failed to fetch user settings: HTTP "@ + decimal(status as nat)
}

/// Whether the settings reply can be read (HTTP 200), else the error.
pub fn settings_status_check(status: u16) -> (res: Result<(), String>)
    ensures
        status == 200 ==> res is Ok,
        status != 200 ==> (res matches Err(m) && m@ == settings_failed_text(status)),
{
    if status == 200 {
        Ok(())
    } else {
        let mut m = String::new();
        m.append("failed to fetch user settings: HTTP ");
        m.append(decimal_string(status as u64).as_str());
        proof {
            reveal_strlit("failed to fetch user settings: HTTP ");
        }
        Err(m)
    }
}

} // verus!
