//! Cross-platform film matching.
//!
//! Match strategy order (preferred → fallback):
//! 1. TmdbId  — Trakt's /search/tmdb/{id} lookup (exact, fastest)
//! 2. ImdbId  — Trakt's /search/imdb/{id} lookup (exact, no TMDB needed)
//! 3. TitleYear — title+year search via /search/movie (Letterboxd exports: no ids)
//!
//! Letterboxd exports contain no TMDB or IMDb ids, so they always fall through
//! to TitleYear. Title+year resolution runs in two passes: an exact-year pass
//! for every film, then a ±1-year pass for the films the first pass missed.
use vstd::prelude::*;
use vstd::utf8::encode_utf8;
use crate::text::{decimal, decimal_string, lowercase, push_char, to_lowercase};

verus! {

pub enum MatchStrategy {
    TmdbId(u64),
    ImdbId(String),
    TitleYear { title: String, year: u32 },
}

#[derive(Debug)]
pub struct ResolvedIds {
    pub trakt_id: Option<u64>,
    pub tmdb_id: Option<u64>,
    pub imdb_id: Option<String>,
    pub slug: Option<String>,
}

#[derive(Debug)]
pub struct ResolvedFilm {
    pub title: String,
    pub year: u32,
    pub ids: ResolvedIds,
    /// Set when the film was matched by ±1 year tolerance rather than exact year.
    pub year_tolerance_warning: Option<String>,
}

#[derive(Debug)]
pub struct UnmatchedFilm {
    pub title: String,
    pub year: u32,
    pub reason: String,
}

/// A copy of an optional string.
pub fn copy_opt_string(o: &Option<String>) -> (res: Option<String>)
    ensures
        res == *o,
{
    match o {
        Some(s) => Some(s.clone()),
        None => None,
    }
}

impl ResolvedIds {
    /// A field-for-field copy.
    pub fn duplicate(&self) -> (res: Self)
        ensures
            res == *self,
    {
        ResolvedIds {
            trakt_id: self.trakt_id,
            tmdb_id: self.tmdb_id,
            imdb_id: copy_opt_string(&self.imdb_id),
            slug: copy_opt_string(&self.slug),
        }
    }
}


// ---------------------------------------------------------------------------
// Query encoding
// ---------------------------------------------------------------------------

/// Bytes left as they are in a query value: `A-Z a-z 0-9 - _ . ~`.
pub open spec fn is_unreserved(b: u8) -> bool {
    (65 <= b <= 90) || (97 <= b <= 122) || (48 <= b <= 57) || b == 45 || b == 95 || b == 46
        || b == 126
}

/// An upper-case hexadecimal digit.
pub open spec fn hex_digit(d: nat) -> char {
    if d < 10 {
        (d + 48) as char
    } else {
        (d + 55) as char
    }
}

/// The encoding of one byte: itself if unreserved, else `%XX`.
pub open spec fn encode_byte(b: u8) -> Seq<char> {
    if is_unreserved(b) {
        seq![b as char]
    } else {
        seq!['%', hex_digit((b / 16) as nat), hex_digit((b % 16) as nat)]
    }
}

/// Percent-encoding of a byte string, byte by byte.
pub open spec fn percent_encoded(bytes: Seq<u8>) -> Seq<char>
    decreases bytes.len(),
{
    if bytes.len() == 0 {
        Seq::empty()
    } else {
        percent_encoded(bytes.drop_last()) + encode_byte(bytes.last())
    }
}

fn hex_char(d: u8) -> (res: char)
    requires
        d < 16,
    ensures
        res == hex_digit(d as nat),
{
    if d < 10 {
        (d + 48) as char
    } else {
        (d + 55) as char
    }
}

/// Percent-encodes a string for use as a URL query parameter value.
/// Leaves unreserved characters (A-Z a-z 0-9 - _ . ~) unencoded;
/// encodes every other byte of its UTF-8 form as %XX (upper-case hex).
pub fn percent_encode_query(s: &str) -> (res: String)
    ensures
        res@ == percent_encoded(encode_utf8(s@)),
{
    let bytes = s.as_bytes();
    let mut out = String::new();
    let mut i: usize = 0;
    while i < bytes.len()
        invariant
            i <= bytes@.len(),
            bytes@ == encode_utf8(s@),
            out@ == percent_encoded(bytes@.take(i as int)),
        decreases bytes.len() - i,
    {
        let b = bytes[i];
        let ghost before = out@;
        if (65 <= b && b <= 90) || (97 <= b && b <= 122) || (48 <= b && b <= 57) || b == 45 || b
            == 95 || b == 46 || b == 126 {
            push_char(&mut out, b as char);
        } else {
            push_char(&mut out, '%');
            push_char(&mut out, hex_char(b / 16));
            push_char(&mut out, hex_char(b % 16));
        }
        proof {
            assert(bytes@.take(i + 1).drop_last() =~= bytes@.take(i as int));
            assert(out@ =~= before + encode_byte(b));
        }
        i = i + 1;
    }
    proof {
        assert(bytes@.take(bytes@.len() as int) =~= bytes@);
    }
    out
}

/// `{base_url}/search/movie?query={encoded title}&years={year}`
pub open spec fn search_url_text(base_url: Seq<char>, title: Seq<char>, year: u32) -> Seq<char> {
    base_url + "/search/movie?query="@ + percent_encoded(encode_utf8(title)) + "&years="@
        + decimal(year as nat)
}

/// The Trakt search URL for a title restricted to one year.
pub fn search_url(base_url: &str, title: &str, year: u32) -> (res: String)
    ensures
        res@ == search_url_text(base_url@, title@, year),
{
    let mut out = String::new();
    out.append(base_url);
    out.append("/search/movie?query=");
    out.append(percent_encode_query(title).as_str());
    out.append("&years=");
    out.append(decimal_string(year as u64).as_str());
    proof {
        assert(out@ =~= search_url_text(base_url@, title@, year));
    }
    out
}

/// `Trakt search failed: HTTP {status}`
pub open spec fn search_failed_text(status: u16) -> Seq<char> {
    "Trakt search failed: HTTP "@ + decimal(status as nat)
}

/// Whether a search reply can be read (HTTP 200), else the error.
pub fn search_reply_check(status: u16) -> (res: Result<(), String>)
    ensures
        status == 200 ==> res is Ok,
        status != 200 ==> (res matches Err(m) && m@ == search_failed_text(status)),
{
    if status == 200 {
        Ok(())
    } else {
        let mut m = String::new();
        m.append("Trakt search failed: HTTP ");
        m.append(decimal_string(status as u64).as_str());
        proof {
            reveal_strlit("Trakt search failed: HTTP ");
        }
        Err(m)
    }
}

// ---------------------------------------------------------------------------
// Choosing among search results
// ---------------------------------------------------------------------------

/// One movie as a Trakt search returns it.
pub struct SearchCandidate {
    pub title: String,
    pub year: Option<u32>,
    pub ids: ResolvedIds,
}

/// Whether a candidate is the film asked for: same title ignoring case, and
/// exactly the asked year.
pub open spec fn is_exact_hit(c: SearchCandidate, title: Seq<char>, year: u32) -> bool {
    lowercase(c.title@) == lowercase(title) && c.year == Some(year)
}

/// The ids of the first exact hit, if any.
pub open spec fn first_exact_hit(cs: Seq<SearchCandidate>, title: Seq<char>, year: u32) -> Option<
    ResolvedIds,
>
    decreases cs.len(),
{
    if cs.len() == 0 {
        None
    } else if is_exact_hit(cs[0], title, year) {
        Some(cs[0].ids)
    } else {
        first_exact_hit(cs.drop_first(), title, year)
    }
}

/// A search result is accepted when its title equals the asked title once
/// both are lowercased and its year is the asked year, whatever the case of
/// either title: the first such result wins, and none is accepted when no
/// result is such.
pub proof fn law_search_match_ignores_case(
    cs: Seq<SearchCandidate>,
    title: Seq<char>,
    year: u32,
    j: int,
)
    ensures
        (0 <= j < cs.len() && lowercase(cs[j].title@) == lowercase(title) && cs[j].year == Some(
            year,
        ) && (forall|k: int|
            0 <= k < j ==> !(lowercase((#[trigger] cs[k]).title@) == lowercase(title)
                && cs[k].year == Some(year)))) ==> first_exact_hit(cs, title, year) == Some(
            cs[j].ids,
        ),
        (forall|k: int|
            0 <= k < cs.len() ==> !(lowercase((#[trigger] cs[k]).title@) == lowercase(title)
                && cs[k].year == Some(year))) ==> first_exact_hit(cs, title, year) is None,
    decreases cs.len(),
{
    if cs.len() > 0 {
        let rest = cs.drop_first();
        assert forall|k: int| 0 <= k < rest.len() implies rest[k] == cs[k + 1] by {}
        law_search_match_ignores_case(rest, title, year, j - 1);
        if 0 < j < cs.len() && lowercase(cs[j].title@) == lowercase(title) && cs[j].year == Some(
            year,
        ) && (forall|k: int|
            0 <= k < j ==> !(lowercase((#[trigger] cs[k]).title@) == lowercase(title)
                && cs[k].year == Some(year))) {
            assert(rest[j - 1] == cs[j]);
            assert forall|k: int| 0 <= k < j - 1 implies !(lowercase((#[trigger] rest[k]).title@)
                == lowercase(title) && rest[k].year == Some(year)) by {
                assert(rest[k] == cs[k + 1]);
            }
            let z = 0int;
            assert(!(lowercase(cs[z].title@) == lowercase(title) && cs[z].year == Some(year)));
        }
        if forall|k: int|
            0 <= k < cs.len() ==> !(lowercase((#[trigger] cs[k]).title@) == lowercase(title)
                && cs[k].year == Some(year)) {
            assert forall|k: int| 0 <= k < rest.len() implies !(lowercase((#[trigger] rest[k]).title@)
                == lowercase(title) && rest[k].year == Some(year)) by {
                assert(rest[k] == cs[k + 1]);
            }
            let z = 0int;
            assert(!(lowercase(cs[z].title@) == lowercase(title) && cs[z].year == Some(year)));
        }
    }
}

/// Among search results (ordered by relevance), the first whose title matches
/// exactly (case-insensitive) at the given year. Trakt orders results by
/// relevance/popularity, so the first exact match is the best candidate.
pub fn select_search_match(candidates: &Vec<SearchCandidate>, title: &str, year: u32) -> (res:
    Option<ResolvedIds>)
    ensures
        res == first_exact_hit(candidates@, title@, year),
{
    let title_lower = to_lowercase(title);
    let mut i: usize = 0;
    proof {
        assert(candidates@.skip(0) =~= candidates@);
    }
    while i < candidates.len()
        invariant
            i <= candidates@.len(),
            title_lower@ == lowercase(title@),
            first_exact_hit(candidates@, title@, year) == first_exact_hit(
                candidates@.skip(i as int),
                title@,
                year,
            ),
        decreases candidates.len() - i,
    {
        let c = &candidates[i];
        let cand_lower = to_lowercase(c.title.as_str());
        proof {
            assert(candidates@.skip(i as int)[0] == candidates@[i as int]);
            assert(candidates@.skip(i as int).drop_first() =~= candidates@.skip(i + 1));
        }
        if cand_lower == title_lower && c.year == Some(year) {
            return Some(c.ids.duplicate());
        }
        i = i + 1;
    }
    None
}

// ---------------------------------------------------------------------------
// Two-pass resolution
// ---------------------------------------------------------------------------

/// The reason recorded for a film that no pass could match.
pub open spec fn unmatched_reason() -> Seq<char> {
    "no exact title+year match in Trakt search"@
}

/// `'{title}' (year {year}) matched Trakt year {matched} — verify this is the same film`
pub open spec fn near_year_warning(title: Seq<char>, year: u32, matched: u32) -> Seq<char> {
    "'"@ + title + "' (year "@ + decimal(year as nat) + ") matched Trakt year "@ + decimal(
        matched as nat,
    ) + " \u{2014} verify this is the same film"@
}

/// The indices of the films that the exact-year pass did not match.
pub open spec fn misses_of(exact: Seq<Option<ResolvedIds>>) -> Seq<int>
    decreases exact.len(),
{
    if exact.len() == 0 {
        Seq::empty()
    } else if exact.last() is None {
        misses_of(exact.drop_last()).push(exact.len() - 1)
    } else {
        misses_of(exact.drop_last())
    }
}

/// A matched film as (title, asked year, ids, warning text).
pub open spec fn matched_view(f: ResolvedFilm) -> (String, u32, ResolvedIds, Option<Seq<char>>) {
    (
        f.title,
        f.year,
        f.ids,
        match f.year_tolerance_warning {
            Some(w) => Some(w@),
            None => None,
        },
    )
}

/// An unmatched film as (title, year, reason text).
pub open spec fn unmatched_view(f: UnmatchedFilm) -> (String, u32, Seq<char>) {
    (f.title, f.year, f.reason@)
}

/// The films the exact pass matched, in input order, without warnings.
pub open spec fn exact_matches(films: Seq<(String, u32)>, exact: Seq<Option<ResolvedIds>>) -> Seq<
    (String, u32, ResolvedIds, Option<Seq<char>>),
>
    decreases exact.len(),
{
    if exact.len() == 0 {
        Seq::empty()
    } else {
        let rest = exact_matches(films, exact.drop_last());
        let i = exact.len() - 1;
        match exact.last() {
            Some(ids) => rest.push((films[i].0, films[i].1, ids, None)),
            None => rest,
        }
    }
}

/// The exact-pass misses that the ±1-year pass matched, in input order, each
/// with its warning.
pub open spec fn near_matches(
    films: Seq<(String, u32)>,
    misses: Seq<int>,
    near: Seq<Option<(ResolvedIds, u32)>>,
) -> Seq<(String, u32, ResolvedIds, Option<Seq<char>>)>
    decreases near.len(),
{
    if near.len() == 0 {
        Seq::empty()
    } else {
        let rest = near_matches(films, misses, near.drop_last());
        let f = films[misses[near.len() - 1]];
        match near.last() {
            Some((ids, y)) => rest.push((f.0, f.1, ids, Some(near_year_warning(f.0@, f.1, y)))),
            None => rest,
        }
    }
}

/// The films neither pass matched, in input order.
pub open spec fn unmatched_films(
    films: Seq<(String, u32)>,
    misses: Seq<int>,
    near: Seq<Option<(ResolvedIds, u32)>>,
) -> Seq<(String, u32, Seq<char>)>
    decreases near.len(),
{
    if near.len() == 0 {
        Seq::empty()
    } else {
        let rest = unmatched_films(films, misses, near.drop_last());
        let f = films[misses[near.len() - 1]];
        match near.last() {
            Some(_) => rest,
            None => rest.push((f.0, f.1, unmatched_reason())),
        }
    }
}

/// Resolves a batch of (title, year) pairs in two passes, one Trakt search at
/// a time: the caller asks [`FilmResolver::next_query`] which search to run
/// next and hands each result back through [`FilmResolver::record`].
///
/// 1. Exact title+year match for every film (authoritative).
/// 2. For each film with no exact match, year−1 (when the year is above 0),
///    then year+1; a hit there is kept with a warning for the summary.
pub struct FilmResolver {
    films: Vec<(String, u32)>,
    exact: Vec<Option<ResolvedIds>>,
    misses: Vec<usize>,
    near: Vec<Option<(ResolvedIds, u32)>>,
    /// Within the current miss: the year−1 search ran and found nothing.
    tried_below: bool,
}

/// Whether `near[j]`, for the `j`-th miss of `films`, is a hit one year away.
pub open spec fn near_years_adjacent(
    films: Seq<(String, u32)>,
    misses: Seq<int>,
    near: Seq<Option<(ResolvedIds, u32)>>,
) -> bool {
    forall|j: int|
        0 <= j < near.len() ==> match #[trigger] near[j] {
            Some((_, y)) => y == films[misses[j]].1 - 1 || y == films[misses[j]].1 + 1,
            None => true,
        }
}

proof fn lemma_misses_bounds(exact: Seq<Option<ResolvedIds>>)
    ensures
        forall|j: int|
            0 <= j < misses_of(exact).len() ==> 0 <= #[trigger] misses_of(exact)[j] < exact.len()
                && exact[misses_of(exact)[j]] is None,
        forall|a: int, b: int|
            0 <= a < b < misses_of(exact).len() ==> misses_of(exact)[a] < misses_of(exact)[b],
    decreases exact.len(),
{
    if exact.len() > 0 {
        lemma_misses_bounds(exact.drop_last());
        let m = misses_of(exact.drop_last());
        assert forall|j: int| 0 <= j < m.len() implies exact[m[j]] == exact.drop_last()[m[j]] by {}
    }
}

/// The search asked after these answers, as (title, year): the exact-year
/// search of the next film while the exact pass is unfinished; then, for the
/// next exact-pass miss, year−1 (when the year is above 0 and `below` says it
/// has not run yet) or else year+1; none once every search is answered.
pub open spec fn query_after(
    films: Seq<(String, u32)>,
    exact: Seq<Option<ResolvedIds>>,
    near: Seq<Option<(ResolvedIds, u32)>>,
    below: bool,
) -> Option<(String, u32)> {
    if exact.len() < films.len() {
        Some(films[exact.len() as int])
    } else if near.len() < misses_of(exact).len() {
        let f = films[misses_of(exact)[near.len() as int]];
        if !below && f.1 > 0 {
            Some((f.0, (f.1 - 1) as u32))
        } else {
            Some((f.0, (f.1 + 1) as u32))
        }
    } else {
        None
    }
}

impl FilmResolver {
    /// The films being resolved.
    pub closed spec fn films(&self) -> Seq<(String, u32)> {
        self.films@
    }

    /// The exact-year answers recorded so far, one per film in order.
    pub closed spec fn exact_answers(&self) -> Seq<Option<ResolvedIds>> {
        self.exact@
    }

    /// The ±1-year outcomes recorded so far, one per exact-pass miss in order.
    pub closed spec fn near_answers(&self) -> Seq<Option<(ResolvedIds, u32)>> {
        self.near@
    }

    /// Whether the year−1 search of the current miss already ran and missed.
    pub closed spec fn below_tried(&self) -> bool {
        self.tried_below
    }

    pub closed spec fn wf(&self) -> bool {
        &&& self.exact@.len() <= self.films@.len()
        &&& forall|i: int| 0 <= i < self.films@.len() ==> #[trigger] self.films@[i].1 < u32::MAX
        &&& self.exact@.len() < self.films@.len() ==> self.misses@.len() == 0 && self.near@.len()
            == 0 && !self.tried_below
        &&& self.exact@.len() == self.films@.len() ==> self.misses@.map_values(|m: usize| m as int)
            == misses_of(self.exact@)
        &&& self.near@.len() <= self.misses@.len()
        &&& self.tried_below ==> self.near@.len() < self.misses@.len() && self.films@[self.misses@[self.near@.len() as int] as int].1 > 0
        &&& near_years_adjacent(
            self.films@,
            self.misses@.map_values(|m: usize| m as int),
            self.near@,
        )
    }

    /// Whether every search has been answered.
    pub open spec fn done(&self) -> bool {
        self.exact_answers().len() == self.films().len() && self.near_answers().len()
            == misses_of(self.exact_answers()).len()
    }

    /// The search the resolver needs next, as (title, year), in the order the
    /// two passes ask them.
    pub open spec fn pending_query(&self) -> Option<(String, u32)> {
        query_after(self.films(), self.exact_answers(), self.near_answers(), self.below_tried())
    }

    /// Starts resolving `films`. Years must leave room for the year+1 search.
    pub fn new(films: Vec<(String, u32)>) -> (res: Self)
        requires
            forall|i: int| 0 <= i < films@.len() ==> #[trigger] films@[i].1 < u32::MAX,
        ensures
            res.wf(),
            res.films() == films@,
            res.exact_answers().len() == 0,
            res.near_answers().len() == 0,
            !res.below_tried(),
    {
        let mut r = FilmResolver {
            films,
            exact: Vec::new(),
            misses: Vec::new(),
            near: Vec::new(),
            tried_below: false,
        };
        if r.films.len() == 0 {
            proof {
                assert(r.misses@.map_values(|m: usize| m as int) =~= misses_of(r.exact@));
            }
        }
        r
    }

    /// The next search to run, or `None` when both passes are complete.
    pub fn next_query(&self) -> (res: Option<(String, u32)>)
        requires
            self.wf(),
        ensures
            match (res, self.pending_query()) {
                (Some((t, y)), Some((pt, py))) => t == pt && y == py,
                (None, None) => true,
                _ => false,
            },
            res is None <==> self.done(),
    {
        if self.exact.len() < self.films.len() {
            let f = &self.films[self.exact.len()];
            Some((f.0.clone(), f.1))
        } else if self.near.len() < self.misses.len() {
            proof {
                lemma_misses_bounds(self.exact@);
                assert(self.misses@[self.near@.len() as int] as int == misses_of(
                    self.exact@,
                )[self.near@.len() as int]);
            }
            let f = &self.films[self.misses[self.near.len()]];
            if !self.tried_below && f.1 > 0 {
                Some((f.0.clone(), f.1 - 1))
            } else {
                Some((f.0.clone(), f.1 + 1))
            }
        } else {
            None
        }
    }

    /// Hands back the result of the search that [`Self::next_query`] asked for.
    pub fn record(&mut self, hit: Option<ResolvedIds>)
        requires
            old(self).wf(),
            !old(self).done(),
        ensures
            final(self).wf(),
            final(self).films() == old(self).films(),
            ({
                let films = old(self).films();
                let exact = old(self).exact_answers();
                let near = old(self).near_answers();
                if exact.len() < films.len() {
                    &&& final(self).exact_answers() == exact.push(hit)
                    &&& final(self).near_answers() == near
                    &&& !final(self).below_tried()
                } else {
                    let f = films[misses_of(exact)[near.len() as int]];
                    let asked_below = !old(self).below_tried() && f.1 > 0;
                    &&& final(self).exact_answers() == exact
                    &&& if asked_below && hit is None {
                        final(self).near_answers() == near && final(self).below_tried()
                    } else {
                        &&& final(self).near_answers() == near.push(
                            match hit {
                                Some(ids) => Some(
                                    (
                                        ids,
                                        if asked_below {
                                            (f.1 - 1) as u32
                                        } else {
                                            (f.1 + 1) as u32
                                        },
                                    ),
                                ),
                                None => None,
                            },
                        )
                        &&& !final(self).below_tried()
                    }
                }
            }),
    {
        proof {
            lemma_misses_bounds(self.exact@);
        }
        if self.exact.len() < self.films.len() {
            self.exact.push(hit);
            if self.exact.len() == self.films.len() {
                self.misses = Self::collect_misses(&self.exact);
            }
        } else {
            let m = self.misses[self.near.len()];
            let year = self.films[m].1;
            proof {
                assert(self.misses@[self.near@.len() as int] as int == misses_of(
                    self.exact@,
                )[self.near@.len() as int]);
            }
            let asked_below = !self.tried_below && year > 0;
            let ghost films = self.films@;
            let ghost ms = self.misses@.map_values(|m: usize| m as int);
            let ghost near0 = self.near@;
            if asked_below && hit.is_none() {
                self.tried_below = true;
            } else {
                let entry = match hit {
                    Some(ids) => Some(
                        (
                            ids,
                            if asked_below {
                                year - 1
                            } else {
                                year + 1
                            },
                        ),
                    ),
                    None => None,
                };
                self.near.push(entry);
                self.tried_below = false;
                proof {
                    assert forall|j: int| 0 <= j < self.near@.len() implies match #[trigger] self.near@[j] {
                        Some((_, y)) => y == films[ms[j]].1 - 1 || y == films[ms[j]].1 + 1,
                        None => true,
                    } by {
                        if j < near0.len() {
                            assert(self.near@[j] == near0[j]);
                        }
                    }
                }
            }
        }
    }

    fn collect_misses(exact: &Vec<Option<ResolvedIds>>) -> (res: Vec<usize>)
        ensures
            res@.map_values(|m: usize| m as int) == misses_of(exact@),
    {
        let mut out: Vec<usize> = Vec::new();
        let mut i: usize = 0;
        while i < exact.len()
            invariant
                i <= exact.len(),
                out@.map_values(|m: usize| m as int) == misses_of(exact@.take(i as int)),
            decreases exact.len() - i,
        {
            proof {
                assert(exact@.take(i + 1).drop_last() =~= exact@.take(i as int));
            }
            if exact[i].is_none() {
                let ghost before = out@;
                out.push(i);
                proof {
                    assert(out@.map_values(|m: usize| m as int) =~= before.map_values(
                        |m: usize| m as int,
                    ).push(i as int));
                }
            }
            i = i + 1;
        }
        proof {
            assert(exact@.take(exact@.len() as int) =~= exact@);
        }
        out
    }

    /// The outcome once every search is answered: matched films (exact
    /// matches first, in input order, then near-year matches with warnings)
    /// and unmatched films with their reason.
    pub fn finish(self) -> (res: (Vec<ResolvedFilm>, Vec<UnmatchedFilm>))
        requires
            self.wf(),
            self.done(),
        ensures
            res.0@.map_values(|f: ResolvedFilm| matched_view(f)) == exact_matches(
                self.films(),
                self.exact_answers(),
            ) + near_matches(self.films(), misses_of(self.exact_answers()), self.near_answers()),
            res.1@.map_values(|f: UnmatchedFilm| unmatched_view(f)) == unmatched_films(
                self.films(),
                misses_of(self.exact_answers()),
                self.near_answers(),
            ),
            near_years_adjacent(self.films(), misses_of(self.exact_answers()), self.near_answers()),
    {
        proof {
            lemma_misses_bounds(self.exact@);
        }
        let ghost films = self.films@;
        let ghost exact = self.exact@;
        let ghost ms = misses_of(exact);
        let ghost near = self.near@;
        let mut matched: Vec<ResolvedFilm> = Vec::new();
        let mut i: usize = 0;
        while i < self.exact.len()
            invariant
                i <= self.exact@.len() == self.films@.len(),
                films == self.films@,
                exact == self.exact@,
                matched@.map_values(|f: ResolvedFilm| matched_view(f)) == exact_matches(
                    films,
                    exact.take(i as int),
                ),
            decreases self.exact.len() - i,
        {
            proof {
                assert(exact.take(i + 1).drop_last() =~= exact.take(i as int));
            }
            match &self.exact[i] {
                Some(ids) => {
                    let ghost before = matched@;
                    matched.push(
                        ResolvedFilm {
                            title: self.films[i].0.clone(),
                            year: self.films[i].1,
                            ids: ids.duplicate(),
                            year_tolerance_warning: None,
                        },
                    );
                    proof {
                        assert(matched@.map_values(|f: ResolvedFilm| matched_view(f))
                            =~= before.map_values(|f: ResolvedFilm| matched_view(f)).push(
                            matched_view(matched@.last()),
                        ));
                    }
                },
                None => {},
            }
            i = i + 1;
        }
        proof {
            assert(exact.take(exact.len() as int) =~= exact);
        }
        let ghost exact_part = matched@.map_values(|f: ResolvedFilm| matched_view(f));
        let mut unmatched: Vec<UnmatchedFilm> = Vec::new();
        let mut j: usize = 0;
        while j < self.near.len()
            invariant
                j <= self.near@.len() == self.misses@.len(),
                films == self.films@,
                near == self.near@,
                self.misses@.map_values(|m: usize| m as int) == ms,
                forall|k: int| 0 <= k < ms.len() ==> 0 <= #[trigger] ms[k] < films.len(),
                matched@.map_values(|f: ResolvedFilm| matched_view(f)) == exact_part
                    + near_matches(films, ms, near.take(j as int)),
                unmatched@.map_values(|f: UnmatchedFilm| unmatched_view(f)) == unmatched_films(
                    films,
                    ms,
                    near.take(j as int),
                ),
            decreases self.near.len() - j,
        {
            proof {
                assert(near.take(j + 1).drop_last() =~= near.take(j as int));
                assert(self.misses@[j as int] as int == ms[j as int]);
            }
            let m = self.misses[j];
            let f = &self.films[m];
            match &self.near[j] {
                Some((ids, y)) => {
                    let ghost before = matched@;
                    let w = Self::warning_text(f.0.as_str(), f.1, *y);
                    matched.push(
                        ResolvedFilm {
                            title: f.0.clone(),
                            year: f.1,
                            ids: ids.duplicate(),
                            year_tolerance_warning: Some(w),
                        },
                    );
                    proof {
                        assert(matched@.map_values(|f: ResolvedFilm| matched_view(f))
                            =~= before.map_values(|f: ResolvedFilm| matched_view(f)).push(
                            matched_view(matched@.last()),
                        ));
                    }
                },
                None => {
                    let ghost before = unmatched@;
                    let mut reason = String::new();
                    reason.append("no exact title+year match in Trakt search");
                    unmatched.push(UnmatchedFilm { title: f.0.clone(), year: f.1, reason });
                    proof {
                        assert(unmatched@.map_values(|f: UnmatchedFilm| unmatched_view(f))
                            =~= before.map_values(|f: UnmatchedFilm| unmatched_view(f)).push(
                            unmatched_view(unmatched@.last()),
                        ));
                    }
                },
            }
            j = j + 1;
        }
        proof {
            assert(near.take(near.len() as int) =~= near);
        }
        (matched, unmatched)
    }

    fn warning_text(title: &str, year: u32, matched: u32) -> (res: String)
        ensures
            res@ == near_year_warning(title@, year, matched),
    {
        let mut w = String::new();
        w.append("'");
        w.append(title);
        w.append("' (year ");
        w.append(decimal_string(year as u64).as_str());
        w.append(") matched Trakt year ");
        w.append(decimal_string(matched as u64).as_str());
        w.append(" \u{2014} verify this is the same film");
        proof {
            assert(w@ =~= near_year_warning(title@, year, matched));
        }
        w
    }
}

// ---------------------------------------------------------------------------
// Laws
// ---------------------------------------------------------------------------

proof fn lemma_exact_count(films: Seq<(String, u32)>, exact: Seq<Option<ResolvedIds>>)
    ensures
        exact_matches(films, exact).len() + misses_of(exact).len() == exact.len(),
    decreases exact.len(),
{
    if exact.len() > 0 {
        lemma_exact_count(films, exact.drop_last());
    }
}

proof fn lemma_near_count(
    films: Seq<(String, u32)>,
    misses: Seq<int>,
    near: Seq<Option<(ResolvedIds, u32)>>,
)
    ensures
        near_matches(films, misses, near).len() + unmatched_films(films, misses, near).len()
            == near.len(),
    decreases near.len(),
{
    if near.len() > 0 {
        lemma_near_count(films, misses, near.drop_last());
    }
}

/// No film is lost or duplicated: once every search is answered, matched and
/// unmatched films together are exactly as many as the films asked about.
pub proof fn law_resolution_preserves_count(
    films: Seq<(String, u32)>,
    exact: Seq<Option<ResolvedIds>>,
    near: Seq<Option<(ResolvedIds, u32)>>,
)
    requires
        exact.len() == films.len(),
        near.len() == misses_of(exact).len(),
    ensures
        (exact_matches(films, exact) + near_matches(films, misses_of(exact), near)).len()
            + unmatched_films(films, misses_of(exact), near).len() == films.len(),
{
    lemma_exact_count(films, exact);
    lemma_near_count(films, misses_of(exact), near);
}

/// An exact-year match never carries a near-year warning, and a near-year
/// match always does.
pub proof fn law_only_near_matches_warn(
    films: Seq<(String, u32)>,
    exact: Seq<Option<ResolvedIds>>,
    misses: Seq<int>,
    near: Seq<Option<(ResolvedIds, u32)>>,
)
    ensures
        forall|i: int|
            0 <= i < exact_matches(films, exact).len() ==> (#[trigger] exact_matches(
                films,
                exact,
            )[i]).3 is None,
        forall|i: int|
            0 <= i < near_matches(films, misses, near).len() ==> (#[trigger] near_matches(
                films,
                misses,
                near,
            )[i]).3 is Some,
    decreases exact.len() + near.len(),
{
    if exact.len() > 0 {
        law_only_near_matches_warn(films, exact.drop_last(), misses, near);
    }
    if near.len() > 0 {
        law_only_near_matches_warn(films, exact, misses, near.drop_last());
    }
}

/// The exact pass comes first: while some film has not had its exact-year
/// search, the next search is that of the first such film, so no ±1-year
/// search runs before every film had its exact one.
pub proof fn law_exact_pass_comes_first(r: FilmResolver)
    requires
        r.wf(),
        r.exact_answers().len() < r.films().len(),
    ensures
        r.pending_query() == Some(r.films()[r.exact_answers().len() as int]),
{
}


/// `search` answered the query (title, year) with `answer`.
pub open spec fn said<F: Fn(String, u32) -> Result<Option<ResolvedIds>, String>>(
    search: F,
    title: String,
    year: u32,
    answer: Option<ResolvedIds>,
) -> bool {
    call_ensures(search, (title, year), Ok::<Option<ResolvedIds>, String>(answer))
}

/// The ±1-year outcome `near` of the film (title, year) is what `search`
/// answered: a hit at year−1 (asked only when the year is above 0); else a
/// hit at year+1 once year−1 (if asked) found nothing; else nothing found at
/// either.
pub open spec fn near_answered<F: Fn(String, u32) -> Result<Option<ResolvedIds>, String>>(
    search: F,
    title: String,
    year: u32,
    near: Option<(ResolvedIds, u32)>,
) -> bool {
    let below_missed = year == 0 || said(search, title, (year - 1) as u32, None);
    match near {
        Some((ids, y)) => (year > 0 && y == year - 1 && said(search, title, y, Some(ids))) || (
        y == year + 1 && below_missed && said(search, title, y, Some(ids))),
        None => below_missed && said(search, title, (year + 1) as u32, None),
    }
}

/// Every answer the resolver holds is what `search` gave for the query that
/// asked for it: each exact answer for (title, year), each ±1-year outcome
/// as [`near_answered`] says, and, when `below` is set, the empty year−1
/// answer of the miss in progress.
pub open spec fn answered_by<F: Fn(String, u32) -> Result<Option<ResolvedIds>, String>>(
    search: F,
    films: Seq<(String, u32)>,
    exact: Seq<Option<ResolvedIds>>,
    near: Seq<Option<(ResolvedIds, u32)>>,
    below: bool,
) -> bool {
    &&& forall|k: int|
        0 <= k < exact.len() ==> said(search, films[k].0, films[k].1, #[trigger] exact[k])
    &&& forall|j: int|
        0 <= j < near.len() ==> near_answered(
            search,
            films[misses_of(exact)[j]].0,
            films[misses_of(exact)[j]].1,
            #[trigger] near[j],
        )
    &&& below ==> {
        let f = films[misses_of(exact)[near.len() as int]];
        f.1 > 0 && said(search, f.0, (f.1 - 1) as u32, None)
    }
}

/// Answers that the two passes can have reached: the exact pass first, in
/// order; then one ±1-year outcome per miss, in order; `below` only within
/// a miss whose year is above 0.
pub open spec fn answers_in_order(
    films: Seq<(String, u32)>,
    exact: Seq<Option<ResolvedIds>>,
    near: Seq<Option<(ResolvedIds, u32)>>,
    below: bool,
) -> bool {
    &&& exact.len() <= films.len()
    &&& exact.len() < films.len() ==> near.len() == 0 && !below
    &&& near.len() <= misses_of(exact).len()
    &&& below ==> near.len() < misses_of(exact).len() && films[misses_of(
        exact,
    )[near.len() as int]].1 > 0
}

/// `search` failed with `e` on the search asked after answers it gave.
pub open spec fn failed_in_order<F: Fn(String, u32) -> Result<Option<ResolvedIds>, String>>(
    search: F,
    films: Seq<(String, u32)>,
    e: String,
) -> bool {
    exists|
        exact: Seq<Option<ResolvedIds>>,
        near: Seq<Option<(ResolvedIds, u32)>>,
        below: bool,
    |
        {
            &&& answers_in_order(films, exact, near, below)
            &&& answered_by(search, films, exact, near, below)
            &&& #[trigger] query_after(films, exact, near, below) matches Some((t, y))
                && call_ensures(search, (t, y), Err::<Option<ResolvedIds>, String>(e))
        }
}

/// What is left to ask, weighted so that every answer lowers it.
pub open spec fn searches_left(r: FilmResolver) -> int {
    3 * (r.films().len() - r.exact_answers().len()) + 2 * (misses_of(r.exact_answers()).len()
        - r.near_answers().len()) + (if r.below_tried() {
        0int
    } else {
        1int
    })
}

proof fn lemma_misses_grow_by_one(exact: Seq<Option<ResolvedIds>>, hit: Option<ResolvedIds>)
    ensures
        misses_of(exact.push(hit)).len() <= misses_of(exact).len() + 1,
        misses_of(exact).len() <= misses_of(exact.push(hit)).len(),
        misses_of(exact).len() <= exact.len(),
    decreases exact.len(),
{
    assert(exact.push(hit).drop_last() =~= exact);
    if exact.len() > 0 {
        lemma_misses_grow_by_one(exact.drop_last(), exact.last());
        assert(exact.drop_last().push(exact.last()) =~= exact);
    }
}

/// Resolves a batch of (title, year) pairs to Trakt ids in two passes,
/// asking `search` (Trakt's title+year search, which yields the matching
/// film's ids, if any) one query at a time, in the order [`query_after`]
/// gives: an exact-year pass for every film, then year−1 (when above 0) and,
/// if that finds nothing, year+1 for the films the first pass missed.
///
/// The first error `search` returns ends the run with that error; with no
/// films there is no search and the result is two empty lists.
#[verifier::spinoff_prover]
pub fn resolve_films<F: Fn(String, u32) -> Result<Option<ResolvedIds>, String>>(
    search: F,
    films: Vec<(String, u32)>,
) -> (res: Result<(Vec<ResolvedFilm>, Vec<UnmatchedFilm>), String>)
    requires
        forall|t: String, y: u32| #[trigger] search.requires((t, y)),
        forall|i: int| 0 <= i < films@.len() ==> #[trigger] films@[i].1 < u32::MAX,
    ensures
        res matches Ok((m, u)) ==> exists|
            exact: Seq<Option<ResolvedIds>>,
            near: Seq<Option<(ResolvedIds, u32)>>,
        |
            {
                &&& exact.len() == films@.len()
                &&& near.len() == misses_of(exact).len()
                &&& answered_by(search, films@, exact, near, false)
                &&& m@.map_values(|f: ResolvedFilm| matched_view(f)) == exact_matches(films@, exact)
                    + near_matches(films@, misses_of(exact), near)
                &&& u@.map_values(|f: UnmatchedFilm| unmatched_view(f)) == unmatched_films(
                    films@,
                    misses_of(exact),
                    near,
                )
            },
        res matches Err(e) ==> failed_in_order(search, films@, e),
        films@.len() == 0 ==> (res matches Ok((m, u)) && m@.len() == 0 && u@.len() == 0),
{
    let ghost all = films@;
    let mut r = FilmResolver::new(films);
    let mut failure: Option<String> = None;
    proof {
        lemma_misses_bounds(r.exact_answers());
    }
    loop
        invariant_except_break
            failure is None,
        invariant
            r.wf(),
            r.films() == all,
            forall|t: String, y: u32| #[trigger] search.requires((t, y)),
            answered_by(search, all, r.exact_answers(), r.near_answers(), r.below_tried()),
            answers_in_order(all, r.exact_answers(), r.near_answers(), r.below_tried()),
            misses_of(r.exact_answers()).len() <= r.exact_answers().len(),
        ensures
            r.wf(),
            r.films() == all,
            failure matches Some(e) ==> failed_in_order(search, all, e),
            failure is None ==> r.done() && !r.below_tried() && answered_by(
                search,
                all,
                r.exact_answers(),
                r.near_answers(),
                r.below_tried(),
            ),
        decreases searches_left(r),
    {
        let q = r.next_query();
        match q {
            None => {
                break;
            },
            Some((t, y)) => {
                let ghost before = r;
                let ghost tt = t;
                let answer = search(t, y);
                match answer {
                    Err(e) => {
                        proof {
                            assert(query_after(
                                all,
                                before.exact_answers(),
                                before.near_answers(),
                                before.below_tried(),
                            ) == Some((tt, y)));
                            assert(failed_in_order(search, all, e));
                        }
                        failure = Some(e);
                        break;
                    },
                    Ok(hit) => {
                        proof {
                            lemma_misses_grow_by_one(before.exact_answers(), hit);
                            assert(said(search, tt, y, hit));
                        }
                        r.record(hit);
                        proof {
                            lemma_resolver_step(search, all, before, r, tt, y, hit);
                        }
                    },
                }
            },
        }
    }
    if let Some(e) = failure {
        proof {
            if all.len() == 0 {
                let w = choose|
                    exact: Seq<Option<ResolvedIds>>,
                    near: Seq<Option<(ResolvedIds, u32)>>,
                    below: bool,
                |
                    {
                        &&& answers_in_order(all, exact, near, below)
                        &&& answered_by(search, all, exact, near, below)
                        &&& #[trigger] query_after(all, exact, near, below) matches Some((t, y))
                            && call_ensures(search, (t, y), Err::<Option<ResolvedIds>, String>(e))
                    };
                assert(w.0.len() == 0);
                assert(misses_of(w.0).len() == 0);
            }
        }
        return Err(e);
    }
    let ghost exact = r.exact_answers();
    let ghost near = r.near_answers();
    let out = r.finish();
    proof {
        assert(exact.len() == all.len() && near.len() == misses_of(exact).len());
        assert(answered_by(search, all, exact, near, false));
        if all.len() == 0 {
            assert(exact_matches(all, exact).len() == 0);
            assert(misses_of(exact).len() == 0);
            assert(near_matches(all, misses_of(exact), near).len() == 0);
            assert(unmatched_films(all, misses_of(exact), near).len() == 0);
            assert(out.0@.map_values(|f: ResolvedFilm| matched_view(f)).len() == 0);
            assert(out.1@.map_values(|f: UnmatchedFilm| unmatched_view(f)).len() == 0);
        }
    }
    Ok(out)
}

/// One answered search keeps the answers in order and tied to `search`.
proof fn lemma_resolver_step<F: Fn(String, u32) -> Result<Option<ResolvedIds>, String>>(
    search: F,
    all: Seq<(String, u32)>,
    before: FilmResolver,
    after: FilmResolver,
    t: String,
    y: u32,
    hit: Option<ResolvedIds>,
)
    requires
        before.wf(),
        !before.done(),
        before.films() == all,
        answered_by(search, all, before.exact_answers(), before.near_answers(), before.below_tried()),
        answers_in_order(all, before.exact_answers(), before.near_answers(), before.below_tried()),
        before.pending_query() == Some((t, y)),
        said(search, t, y, hit),
        misses_of(before.exact_answers().push(hit)).len() <= misses_of(before.exact_answers()).len()
            + 1,
        misses_of(before.exact_answers()).len() <= before.exact_answers().len(),
        after.wf(),
        after.films() == all,
        ({
            let films = before.films();
            let exact = before.exact_answers();
            let near = before.near_answers();
            if exact.len() < films.len() {
                &&& after.exact_answers() == exact.push(hit)
                &&& after.near_answers() == near
                &&& !after.below_tried()
            } else {
                let f = films[misses_of(exact)[near.len() as int]];
                let asked_below = !before.below_tried() && f.1 > 0;
                &&& after.exact_answers() == exact
                &&& if asked_below && hit is None {
                    after.near_answers() == near && after.below_tried()
                } else {
                    &&& after.near_answers() == near.push(
                        match hit {
                            Some(ids) => Some(
                                (
                                    ids,
                                    if asked_below {
                                        (f.1 - 1) as u32
                                    } else {
                                        (f.1 + 1) as u32
                                    },
                                ),
                            ),
                            None => None,
                        },
                    )
                    &&& !after.below_tried()
                }
            }
        }),
    ensures
        answered_by(search, all, after.exact_answers(), after.near_answers(), after.below_tried()),
        answers_in_order(all, after.exact_answers(), after.near_answers(), after.below_tried()),
        misses_of(after.exact_answers()).len() <= after.exact_answers().len(),
{
    let exact0 = before.exact_answers();
    let near0 = before.near_answers();
    let exact1 = after.exact_answers();
    let near1 = after.near_answers();
    lemma_misses_bounds(exact0);
    lemma_misses_bounds(exact1);
    if exact0.len() < all.len() {
        assert forall|k: int| 0 <= k < exact1.len() implies said(
            search,
            all[k].0,
            all[k].1,
            #[trigger] exact1[k],
        ) by {
            if k < exact0.len() {
                assert(exact1[k] == exact0[k]);
            }
        }
        if exact1.len() < all.len() {
        } else {
            lemma_misses_grow_by_one(exact0, hit);
        }
    } else {
        let f = all[misses_of(exact0)[near0.len() as int]];
        assert forall|j: int| 0 <= j < near1.len() implies near_answered(
            search,
            all[misses_of(exact1)[j]].0,
            all[misses_of(exact1)[j]].1,
            #[trigger] near1[j],
        ) by {
            if j < near0.len() {
                assert(near1[j] == near0[j]);
            }
        }
    }
}

} // verus!
