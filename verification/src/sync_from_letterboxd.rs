//! Letterboxd → Trakt: deciding what to write from a parsed export.
//!
//! A run resolves every film of the export against Trakt, reads the account's
//! watched history, then plans three writes (history, ratings, watchlist) and
//! one note per review. The planning is here; the requests are made by the
//! caller, which hands the replies back.
use std::collections::HashSet;
use vstd::prelude::*;
use crate::constants::BULK_DATE_THRESHOLD;
use crate::letterboxd_export::{
    opt_view, DiaryEntry, LetterboxdExport, RatingEntry, ReviewEntry, WatchedEntry, WatchlistEntry,
};
use crate::matching::{copy_opt_string, ResolvedFilm, UnmatchedFilm};
use crate::sync_state::{Direction, ItemRef, ItemType, SyncKey, SyncState};
use crate::text::{chars_of, lowercase, owned, to_lowercase};
use crate::trakt_notes::CreateNoteResult;
use crate::trakt_read::WatchedMovie as TraktPlay;
use crate::trakt_write::{HistoryMovie, MovieId, RatingMovie, WatchlistMovie};
use crate::trakt_write::SyncSummary as WriteSummary;

verus! {

pub struct ErroredItem {
    pub title: String,
    pub year: u32,
    pub reason: String,
}

pub struct SyncSummary {
    pub watched_added: u32,
    pub watched_on_trakt: u32,
    pub watched_skipped: u32,
    /// watched.csv films whose logged Date fell on a bulk-import day (skipped, not written to Trakt).
    pub watched_bulk_date_skipped: u32,
    pub ratings_added: u32,
    pub ratings_skipped: u32,
    pub watchlist_added: u32,
    pub watchlist_skipped: u32,
    pub unmatched: Vec<UnmatchedFilm>,
    pub errored: Vec<ErroredItem>,
    pub dry_run: bool,
    pub reviews_transferred: u32,
    pub reviews_skipped_over_limit: u32,
    pub reviews_skipped_unmatched: u32,
    /// Films matched via ±1 year tolerance rather than exact year.
    /// Each entry is a human-readable warning for the sync summary.
    pub year_tolerance_warnings: Vec<String>,
}

// ---------------------------------------------------------------------------
// The films of an export, each once, in order
// ---------------------------------------------------------------------------

/// Text order: the order of `String`, character by character, a proper
/// prefix first.
pub open spec fn text_before(a: Seq<char>, b: Seq<char>) -> bool
    decreases a.len(),
{
    if a.len() == 0 {
        b.len() > 0
    } else if b.len() == 0 {
        false
    } else if a[0] != b[0] {
        (a[0] as u32) < (b[0] as u32)
    } else {
        text_before(a.drop_first(), b.drop_first())
    }
}

/// The order of `(String, u32)` pairs: by title, then by year.
pub open spec fn film_before(a: (Seq<char>, u32), b: (Seq<char>, u32)) -> bool {
    text_before(a.0, b.0) || (a.0 == b.0 && a.1 < b.1)
}

/// Strictly increasing: every film comes before each later one.
pub open spec fn strictly_sorted(s: Seq<(Seq<char>, u32)>) -> bool {
    forall|i: int, j: int| 0 <= i < j < s.len() ==> film_before(#[trigger] s[i], #[trigger] s[j])
}

proof fn lemma_text_irreflexive(a: Seq<char>)
    ensures
        !text_before(a, a),
    decreases a.len(),
{
    if a.len() > 0 {
        lemma_text_irreflexive(a.drop_first());
    }
}

proof fn lemma_text_trichotomy(a: Seq<char>, b: Seq<char>)
    ensures
        a == b || text_before(a, b) || text_before(b, a),
        !(text_before(a, b) && text_before(b, a)),
    decreases a.len(),
{
    if a.len() > 0 && b.len() > 0 {
        vstd::utf8::char_u32_cast(a[0], a[0] as u32);
        vstd::utf8::char_u32_cast(b[0], b[0] as u32);
        if a[0] == b[0] {
            lemma_text_trichotomy(a.drop_first(), b.drop_first());
            if a.drop_first() == b.drop_first() {
                assert forall|k: int| 0 <= k < a.len() implies a[k] == b[k] by {
                    if k > 0 {
                        assert(a[k] == a.drop_first()[k - 1]);
                        assert(b[k] == b.drop_first()[k - 1]);
                    }
                }
                assert(a =~= b);
            }
        }
    } else if a.len() == 0 && b.len() == 0 {
        assert(a =~= b);
    }
}

proof fn lemma_text_transitive(a: Seq<char>, b: Seq<char>, c: Seq<char>)
    requires
        text_before(a, b),
        text_before(b, c),
    ensures
        text_before(a, c),
    decreases a.len(),
{
    if a.len() > 0 && b.len() > 0 && c.len() > 0 {
        if a[0] == b[0] && b[0] == c[0] {
            lemma_text_transitive(a.drop_first(), b.drop_first(), c.drop_first());
        }
    }
}

proof fn lemma_film_trichotomy(a: (Seq<char>, u32), b: (Seq<char>, u32))
    ensures
        a == b || film_before(a, b) || film_before(b, a),
        !(film_before(a, b) && film_before(b, a)),
{
    lemma_text_trichotomy(a.0, b.0);
    lemma_text_irreflexive(a.0);
}

proof fn lemma_film_transitive(a: (Seq<char>, u32), b: (Seq<char>, u32), c: (Seq<char>, u32))
    requires
        film_before(a, b),
        film_before(b, c),
    ensures
        film_before(a, c),
{
    if text_before(a.0, b.0) && text_before(b.0, c.0) {
        lemma_text_transitive(a.0, b.0, c.0);
    }
}

/// How two texts are ordered.
pub enum Rank {
    Before,
    Same,
    After,
}

/// Compares two texts in `String` order.
#[verifier::spinoff_prover]
pub fn rank_text(a: &str, b: &str) -> (res: Rank)
    ensures
        res is Before <==> text_before(a@, b@),
        res is Same <==> a@ == b@,
        res is After <==> text_before(b@, a@),
{
    let ac = chars_of(a);
    let bc = chars_of(b);
    let mut i: usize = 0;
    proof {
        assert(a@.skip(0) =~= a@);
        assert(b@.skip(0) =~= b@);
        lemma_text_trichotomy(a@, b@);
        lemma_text_irreflexive(a@);
    }
    while i < ac.len() && i < bc.len() && ac[i] == bc[i]
        invariant
            ac@ == a@,
            bc@ == b@,
            i <= ac.len(),
            i <= bc.len(),
            a@.take(i as int) == b@.take(i as int),
            text_before(a@, b@) == text_before(a@.skip(i as int), b@.skip(i as int)),
            text_before(b@, a@) == text_before(b@.skip(i as int), a@.skip(i as int)),
        decreases ac.len() - i,
    {
        proof {
            assert(a@.skip(i as int).drop_first() =~= a@.skip(i + 1));
            assert(b@.skip(i as int).drop_first() =~= b@.skip(i + 1));
            assert(a@.take(i + 1) =~= a@.take(i as int).push(a@[i as int]));
            assert(b@.take(i + 1) =~= b@.take(i as int).push(b@[i as int]));
        }
        i = i + 1;
    }
    proof {
        lemma_text_trichotomy(a@, b@);
        lemma_text_irreflexive(a@);
    }
    if i == ac.len() && i == bc.len() {
        proof {
            assert(a@ =~= a@.take(i as int));
            assert(b@ =~= b@.take(i as int));
        }
        Rank::Same
    } else if i == ac.len() {
        proof {
            assert(a@.skip(i as int).len() == 0);
            assert(a@ != b@);
        }
        Rank::Before
    } else if i == bc.len() {
        proof {
            assert(b@.skip(i as int).len() == 0);
            assert(a@ != b@);
        }
        Rank::After
    } else {
        proof {
            assert(a@.skip(i as int)[0] == a@[i as int]);
            assert(b@.skip(i as int)[0] == b@[i as int]);
            assert(a@[i as int] != b@[i as int]);
            assert(a@ != b@);
        }
        let ca = ac[i] as u32;
        let cb = bc[i] as u32;
        if ca < cb {
            Rank::Before
        } else {
            Rank::After
        }
    }
}

/// A film's key as plain values.
pub open spec fn film_view(f: (String, u32)) -> (Seq<char>, u32) {
    (f.0@, f.1)
}

pub open spec fn films_view(v: Seq<(String, u32)>) -> Seq<(Seq<char>, u32)> {
    v.map_values(|f: (String, u32)| film_view(f))
}

/// Puts `film` into a strictly sorted list at its place, unless it is there.
#[verifier::spinoff_prover]
fn insert_film(list: &mut Vec<(String, u32)>, film: (String, u32))
    requires
        strictly_sorted(films_view(old(list)@)),
    ensures
        strictly_sorted(films_view(final(list)@)),
        films_view(final(list)@).to_set() == films_view(old(list)@).to_set().insert(
            film_view(film),
        ),
{
    let ghost x = film_view(film);
    let ghost before = films_view(list@);
    let mut i: usize = 0;
    let mut found = false;
    while i < list.len()
        invariant_except_break
            !found,
        invariant
            i <= list.len(),
            list@ == old(list)@,
            x == film_view(film),
            before == films_view(list@),
            strictly_sorted(before),
            forall|j: int| 0 <= j < i ==> film_before(#[trigger] before[j], x),
        ensures
            found ==> i < list.len() && before[i as int] == x,
            !found ==> i == list.len() || (!film_before(before[i as int], x) && before[i as int]
                != x),
        decreases list.len() - i,
    {
        proof {
            assert(before[i as int] == film_view(list@[i as int]));
        }
        let r = rank_text(list[i].0.as_str(), film.0.as_str());
        let goes_before = match r {
            Rank::Before => true,
            Rank::Same => list[i].1 < film.1,
            Rank::After => false,
        };
        proof {
            let y = before[i as int];
            assert(y.0 == list@[i as int].0@);
            assert(y.1 == list@[i as int].1);
            assert(x.0 == film.0@);
            assert(x.1 == film.1);
            lemma_text_trichotomy(y.0, x.0);
            assert(goes_before == film_before(y, x));
        }
        if goes_before {
            i = i + 1;
        } else {
            let same = match r {
                Rank::Same => list[i].1 == film.1,
                _ => false,
            };
            if same {
                found = true;
            }
            break;
        }
    }
    if found {
        proof {
            assert(films_view(list@).to_set() =~= before.to_set().insert(x)) by {
                assert(before.to_set().contains(before[i as int]));
            }
        }
        return ;
    }
    proof {
        if i < list.len() {
            lemma_film_trichotomy(before[i as int], x);
        }
    }
    list.insert(i, film);
    proof {
        let after = films_view(list@);
        assert(after =~= before.insert(i as int, x));
        assert forall|a: int, b: int| 0 <= a < b < after.len() implies film_before(
            #[trigger] after[a],
            #[trigger] after[b],
        ) by {
            if b == i {
                assert(after[a] == before[a]);
            } else if a == i {
                assert(after[b] == before[b - 1]);
                if b - 1 > i {
                    lemma_film_transitive(x, before[i as int], before[b - 1]);
                }
            } else if a < i && b > i {
                assert(after[a] == before[a]);
                assert(after[b] == before[b - 1]);
            } else if a > i {
                assert(after[a] == before[a - 1]);
                assert(after[b] == before[b - 1]);
            } else {
                assert(after[a] == before[a]);
                assert(after[b] == before[b]);
            }
        }
        assert(after.to_set() =~= before.to_set().insert(x)) by {
            assert forall|y| after.to_set().contains(y) implies before.to_set().insert(x).contains(
                y,
            ) by {
                let k = choose|k: int| 0 <= k < after.len() && after[k] == y;
                if k < i {
                    assert(before[k] == y);
                } else if k > i {
                    assert(before[k - 1] == y);
                }
            }
            assert forall|y| before.to_set().insert(x).contains(y) implies after.to_set().contains(
                y,
            ) by {
                if y == x {
                    assert(after[i as int] == x);
                } else {
                    let k = choose|k: int| 0 <= k < before.len() && before[k] == y;
                    if k < i {
                        assert(after[k] == y);
                    } else {
                        assert(after[k + 1] == y);
                    }
                }
            }
        }
    }
}


/// Every (title, year) that an export names, source by source: diary,
/// watched, ratings, watchlist, reviews.
pub open spec fn export_films(e: LetterboxdExport) -> Seq<(Seq<char>, u32)> {
    e.diary@.map_values(|d: DiaryEntry| (d.name@, d.year)) + e.watched@.map_values(
        |w: WatchedEntry| (w.name@, w.year),
    ) + e.ratings@.map_values(|r: RatingEntry| (r.name@, r.year)) + e.watchlist@.map_values(
        |w: WatchlistEntry| (w.name@, w.year),
    ) + e.reviews@.map_values(|r: ReviewEntry| (r.name@, r.year))
}

/// Every film an export names, in any of its files (diary, watched,
/// ratings, watchlist, reviews), is among the films the run resolves.
pub proof fn law_every_named_film_is_resolved(e: LetterboxdExport)
    ensures
        forall|k: int|
            0 <= k < e.diary@.len() ==> export_films(e).contains(
                ((#[trigger] e.diary@[k]).name@, e.diary@[k].year),
            ),
        forall|k: int|
            0 <= k < e.watched@.len() ==> export_films(e).contains(
                ((#[trigger] e.watched@[k]).name@, e.watched@[k].year),
            ),
        forall|k: int|
            0 <= k < e.ratings@.len() ==> export_films(e).contains(
                ((#[trigger] e.ratings@[k]).name@, e.ratings@[k].year),
            ),
        forall|k: int|
            0 <= k < e.watchlist@.len() ==> export_films(e).contains(
                ((#[trigger] e.watchlist@[k]).name@, e.watchlist@[k].year),
            ),
        forall|k: int|
            0 <= k < e.reviews@.len() ==> export_films(e).contains(
                ((#[trigger] e.reviews@[k]).name@, e.reviews@[k].year),
            ),
{
    let f = export_films(e);
    let a = e.diary@.len() as int;
    let b = a + e.watched@.len();
    let c = b + e.ratings@.len();
    let d = c + e.watchlist@.len();
    assert forall|k: int| 0 <= k < e.diary@.len() implies f.contains(
        ((#[trigger] e.diary@[k]).name@, e.diary@[k].year),
    ) by {
        assert(f[k] == (e.diary@[k].name@, e.diary@[k].year));
    }
    assert forall|k: int| 0 <= k < e.watched@.len() implies f.contains(
        ((#[trigger] e.watched@[k]).name@, e.watched@[k].year),
    ) by {
        assert(f[a + k] == (e.watched@[k].name@, e.watched@[k].year));
    }
    assert forall|k: int| 0 <= k < e.ratings@.len() implies f.contains(
        ((#[trigger] e.ratings@[k]).name@, e.ratings@[k].year),
    ) by {
        assert(f[b + k] == (e.ratings@[k].name@, e.ratings@[k].year));
    }
    assert forall|k: int| 0 <= k < e.watchlist@.len() implies f.contains(
        ((#[trigger] e.watchlist@[k]).name@, e.watchlist@[k].year),
    ) by {
        assert(f[c + k] == (e.watchlist@[k].name@, e.watchlist@[k].year));
    }
    assert forall|k: int| 0 <= k < e.reviews@.len() implies f.contains(
        ((#[trigger] e.reviews@[k]).name@, e.reviews@[k].year),
    ) by {
        assert(f[d + k] == (e.reviews@[k].name@, e.reviews@[k].year));
    }
}

fn push_film(all: &mut Vec<(String, u32)>, name: &String, year: u32)
    ensures
        films_view(final(all)@) == films_view(old(all)@).push((name@, year)),
{
    all.push((name.clone(), year));
    proof {
        assert(films_view(all@) =~= films_view(old(all)@).push((name@, year)));
    }
}

/// The films an export names, each once, sorted by title and then year, so
/// that a run searches Trakt in the same order every time.
#[verifier::spinoff_prover]
pub fn unique_films(export: &LetterboxdExport) -> (res: Vec<(String, u32)>)
    ensures
        strictly_sorted(films_view(res@)),
        films_view(res@).to_set() == export_films(*export).to_set(),
        forall|k: int|
            0 <= k < export.watchlist@.len() ==> films_view(res@).contains(
                ((#[trigger] export.watchlist@[k]).name@, export.watchlist@[k].year),
            ),
        forall|k: int|
            0 <= k < export.diary@.len() ==> films_view(res@).contains(
                ((#[trigger] export.diary@[k]).name@, export.diary@[k].year),
            ),
        forall|k: int|
            0 <= k < export.watched@.len() ==> films_view(res@).contains(
                ((#[trigger] export.watched@[k]).name@, export.watched@[k].year),
            ),
        forall|k: int|
            0 <= k < export.ratings@.len() ==> films_view(res@).contains(
                ((#[trigger] export.ratings@[k]).name@, export.ratings@[k].year),
            ),
        forall|k: int|
            0 <= k < export.reviews@.len() ==> films_view(res@).contains(
                ((#[trigger] export.reviews@[k]).name@, export.reviews@[k].year),
            ),
{
    let mut all: Vec<(String, u32)> = Vec::new();
    let ghost d = export.diary@.map_values(|d: DiaryEntry| (d.name@, d.year));
    let ghost w = export.watched@.map_values(|w: WatchedEntry| (w.name@, w.year));
    let ghost r = export.ratings@.map_values(|r: RatingEntry| (r.name@, r.year));
    let ghost l = export.watchlist@.map_values(|w: WatchlistEntry| (w.name@, w.year));
    let ghost v = export.reviews@.map_values(|r: ReviewEntry| (r.name@, r.year));
    for k in 0..export.diary.len()
        invariant
            films_view(all@) == d.take(k as int),
            d == export.diary@.map_values(|d: DiaryEntry| (d.name@, d.year)),
    {
        push_film(&mut all, &export.diary[k].name, export.diary[k].year);
        proof {
            assert(d.take(k as int).push(d[k as int]) =~= d.take(k + 1));
        }
    }
    proof {
        assert(d.take(d.len() as int) =~= d);
    }
    for k in 0..export.watched.len()
        invariant
            films_view(all@) == d + w.take(k as int),
            d == export.diary@.map_values(|d: DiaryEntry| (d.name@, d.year)),
            w == export.watched@.map_values(|w: WatchedEntry| (w.name@, w.year)),
    {
        push_film(&mut all, &export.watched[k].name, export.watched[k].year);
        proof {
            assert((d + w.take(k as int)).push(w[k as int]) =~= d + w.take(k + 1));
        }
    }
    proof {
        assert(w.take(w.len() as int) =~= w);
    }
    for k in 0..export.ratings.len()
        invariant
            films_view(all@) == d + w + r.take(k as int),
            r == export.ratings@.map_values(|r: RatingEntry| (r.name@, r.year)),
    {
        push_film(&mut all, &export.ratings[k].name, export.ratings[k].year);
        proof {
            assert((d + w + r.take(k as int)).push(r[k as int]) =~= d + w + r.take(k + 1));
        }
    }
    proof {
        assert(r.take(r.len() as int) =~= r);
    }
    for k in 0..export.watchlist.len()
        invariant
            films_view(all@) == d + w + r + l.take(k as int),
            l == export.watchlist@.map_values(|w: WatchlistEntry| (w.name@, w.year)),
    {
        push_film(&mut all, &export.watchlist[k].name, export.watchlist[k].year);
        proof {
            assert((d + w + r + l.take(k as int)).push(l[k as int]) =~= d + w + r + l.take(
                k + 1,
            ));
        }
    }
    proof {
        assert(l.take(l.len() as int) =~= l);
    }
    for k in 0..export.reviews.len()
        invariant
            films_view(all@) == d + w + r + l + v.take(k as int),
            v == export.reviews@.map_values(|r: ReviewEntry| (r.name@, r.year)),
    {
        push_film(&mut all, &export.reviews[k].name, export.reviews[k].year);
        proof {
            assert((d + w + r + l + v.take(k as int)).push(v[k as int]) =~= d + w + r + l
                + v.take(k + 1));
        }
    }
    proof {
        assert(v.take(v.len() as int) =~= v);
        assert(films_view(all@) == export_films(*export));
    }
    let ghost everything = films_view(all@);
    let mut out: Vec<(String, u32)> = Vec::new();
    let mut k: usize = 0;
    while k < all.len()
        invariant
            k <= all.len(),
            everything == films_view(all@),
            strictly_sorted(films_view(out@)),
            films_view(out@).to_set() == everything.take(k as int).to_set(),
        decreases all.len() - k,
    {
        let film = (all[k].0.clone(), all[k].1);
        insert_film(&mut out, film);
        proof {
            assert(everything.take(k + 1) =~= everything.take(k as int).push(everything[k as int]));
            everything.take(k as int).lemma_push_to_set_commute(everything[k as int]);
        }
        k = k + 1;
    }
    proof {
        assert(everything.take(all.len() as int) =~= everything);
        law_every_named_film_is_resolved(*export);
        let got = films_view(out@);
        let named = export_films(*export);
        assert forall|x: (Seq<char>, u32)| named.contains(x) implies got.contains(x) by {
            assert(named.to_set().contains(x));
            assert(got.to_set().contains(x));
        }
    }
    out
}

// ---------------------------------------------------------------------------
// Trakt ids by title and year
// ---------------------------------------------------------------------------

/// The ids a resolved film contributes to a write.
pub open spec fn film_ids(f: ResolvedFilm) -> MovieId {
    MovieId { tmdb_id: f.ids.tmdb_id, imdb_id: f.ids.imdb_id }
}

/// The ids of the last resolved film whose title equals `title` ignoring
/// case and whose year is `year`; none when no film does.
pub open spec fn ids_for(films: Seq<ResolvedFilm>, title: Seq<char>, year: u32) -> Option<MovieId>
    decreases films.len(),
{
    if films.len() == 0 {
        None
    } else if lowercase(films.last().title@) == lowercase(title) && films.last().year == year {
        Some(film_ids(films.last()))
    } else {
        ids_for(films.drop_last(), title, year)
    }
}

/// A copy of a film's ids.
pub fn copy_ids(ids: &MovieId) -> (res: MovieId)
    ensures
        res == *ids,
{
    MovieId { tmdb_id: ids.tmdb_id, imdb_id: copy_opt_string(&ids.imdb_id) }
}

/// Resolved films, looked up by title (ignoring case) and year.
pub struct IdIndex {
    titles: Vec<String>,
    years: Vec<u32>,
    ids: Vec<MovieId>,
    films: Ghost<Seq<ResolvedFilm>>,
}

impl IdIndex {
    /// The films the index was built from.
    pub closed spec fn resolved(&self) -> Seq<ResolvedFilm> {
        self.films@
    }

    pub closed spec fn wf(&self) -> bool {
        &&& self.titles.len() == self.films@.len()
        &&& self.years.len() == self.films@.len()
        &&& self.ids.len() == self.films@.len()
        &&& forall|i: int|
            #![trigger self.films@[i]]
            0 <= i < self.films@.len() ==> {
                &&& self.titles@[i]@ == lowercase(self.films@[i].title@)
                &&& self.years@[i] == self.films@[i].year
                &&& self.ids@[i] == film_ids(self.films@[i])
            }
    }

    pub fn new(films: &Vec<ResolvedFilm>) -> (res: Self)
        ensures
            res.wf(),
            res.resolved() == films@,
    {
        let mut titles: Vec<String> = Vec::new();
        let mut years: Vec<u32> = Vec::new();
        let mut ids: Vec<MovieId> = Vec::new();
        let mut k: usize = 0;
        while k < films.len()
            invariant
                k <= films.len(),
                titles.len() == k,
                years.len() == k,
                ids.len() == k,
                forall|i: int|
                    #![trigger films@[i]]
                    0 <= i < k ==> {
                        &&& titles@[i]@ == lowercase(films@[i].title@)
                        &&& years@[i] == films@[i].year
                        &&& ids@[i] == film_ids(films@[i])
                    },
            decreases films.len() - k,
        {
            let f = &films[k];
            titles.push(to_lowercase(f.title.as_str()));
            years.push(f.year);
            ids.push(MovieId { tmdb_id: f.ids.tmdb_id, imdb_id: copy_opt_string(&f.ids.imdb_id) });
            k = k + 1;
        }
        IdIndex { titles, years, ids, films: Ghost(films@) }
    }

    /// The ids for `title` (any case) and `year`.
    pub fn lookup(&self, title: &str, year: u32) -> (res: Option<MovieId>)
        requires
            self.wf(),
        ensures
            res == ids_for(self.resolved(), title@, year),
    {
        let wanted = to_lowercase(title);
        let ghost films = self.films@;
        let mut j: usize = self.titles.len();
        proof {
            assert(films.take(j as int) =~= films);
        }
        while j > 0
            invariant
                j <= films.len(),
                self.wf(),
                films == self.films@,
                wanted@ == lowercase(title@),
                ids_for(films, title@, year) == ids_for(films.take(j as int), title@, year),
            decreases j,
        {
            proof {
                assert(films.take(j as int).drop_last() =~= films.take(j - 1));
                assert(films.take(j as int).last() == films[j - 1]);
                assert(self.titles@[j - 1]@ == lowercase(films[j - 1].title@));
            }
            if self.titles[j - 1] == wanted && self.years[j - 1] == year {
                return Some(copy_ids(&self.ids[j - 1]));
            }
            j = j - 1;
        }
        proof {
            assert(films.take(0) =~= Seq::<ResolvedFilm>::empty());
        }
        None
    }
}


// ---------------------------------------------------------------------------
// Keys of what this direction has written
// ---------------------------------------------------------------------------

/// How a film is named in a key: by its TMDB id when it has one, else by
/// its title and its year cut to `u16`.
pub open spec fn ref_for(tmdb_id: Option<u64>, title: String, year: u32) -> ItemRef {
    match tmdb_id {
        Some(id) => ItemRef::Tmdb(id),
        None => ItemRef::TitleYear(title, year as u16),
    }
}

/// The text of the key recording that one item went from Letterboxd to Trakt.
pub open spec fn l2t_key_text(
    item_type: ItemType,
    tmdb_id: Option<u64>,
    title: String,
    year: u32,
    date: Seq<char>,
) -> Seq<char> {
    Direction::LetterboxdToTrakt.tag() + "|"@ + item_type.tag() + "|"@ + ref_for(
        tmdb_id,
        title,
        year,
    ).segment() + "|"@ + date
}

pub fn item_ref_for(tmdb_id: Option<u64>, title: &String, year: u32) -> (res: ItemRef)
    ensures
        res == ref_for(tmdb_id, *title, year),
{
    match tmdb_id {
        Some(id) => ItemRef::Tmdb(id),
        None => {
            #[verifier::truncate]
            let y = year as u16;
            ItemRef::TitleYear(title.clone(), y)
        },
    }
}

/// The key for one Letterboxd → Trakt item.
pub fn l2t_key(item_type: ItemType, tmdb_id: Option<u64>, title: &String, year: u32, date: &str)
    -> (res: SyncKey)
    ensures
        res.key_view() == l2t_key_text(item_type, tmdb_id, *title, year, date@),
{
    SyncKey::new(Direction::LetterboxdToTrakt, item_type, item_ref_for(tmdb_id, title, year), date)
}

/// A Letterboxd date as a Trakt timestamp: midnight UTC of that day.
pub open spec fn stamp_text(date: Seq<char>) -> Seq<char> {
    date + "T00:00:00.000Z"@
}

pub fn stamp(date: &str) -> (res: String)
    ensures
        res@ == stamp_text(date@),
{
    let mut out = owned(date);
    out.append("T00:00:00.000Z");
    out
}

// ---------------------------------------------------------------------------
// What happens to each entry
// ---------------------------------------------------------------------------

/// The fate of one export entry in a run.
pub enum Verdict {
    /// No resolved film has its title and year.
    Unmatched,
    /// A watched.csv film that the diary already covers.
    InDiary,
    /// Trakt's watched history already holds the film's TMDB id.
    OnTrakt,
    /// A watched.csv film logged on a bulk-import day.
    BulkDay,
    /// Its key is already recorded (and the run is not forced).
    AlreadySynced,
    /// Written with these ids, this date and this key.
    Write(MovieId, Seq<char>, Seq<char>),
}

/// Whether Trakt's watched history holds the film.
pub open spec fn watched_on_trakt(ids: MovieId, watched_ids: Set<u64>) -> bool {
    match ids.tmdb_id {
        Some(t) => watched_ids.contains(t),
        None => false,
    }
}

/// A diary entry's date: the day it was watched, else the day it was logged.
pub open spec fn diary_date(d: DiaryEntry) -> Seq<char> {
    if d.watched_date@.len() > 0 {
        d.watched_date@
    } else {
        d.logged_date@
    }
}

/// How many watched.csv entries were logged on `day`.
pub open spec fn day_count(ws: Seq<WatchedEntry>, day: Seq<char>) -> nat
    decreases ws.len(),
{
    if ws.len() == 0 {
        0
    } else {
        day_count(ws.drop_last(), day) + (if ws.last().logged_date@ == day {
            1nat
        } else {
            0nat
        })
    }
}

/// A day on which at least `BULK_DATE_THRESHOLD` films were logged: a bulk
/// import, whose dates say nothing about when the films were seen.
pub open spec fn bulk_day(ws: Seq<WatchedEntry>, day: Seq<char>) -> bool {
    day_count(ws, day) >= BULK_DATE_THRESHOLD
}

/// Whether a diary entry has this slug.
pub open spec fn in_diary(diary: Seq<DiaryEntry>, slug: Seq<char>) -> bool {
    exists|k: int| 0 <= k < diary.len() && (#[trigger] diary[k]).slug@ == slug
}

/// What becomes of a diary entry: ids looked up, then the Trakt history,
/// then the record of earlier runs.
pub open spec fn diary_verdict(
    d: DiaryEntry,
    films: Seq<ResolvedFilm>,
    watched_ids: Set<u64>,
    state: Set<Seq<char>>,
    force: bool,
) -> Verdict {
    match ids_for(films, d.name@, d.year) {
        None => Verdict::Unmatched,
        Some(ids) => if watched_on_trakt(ids, watched_ids) {
            Verdict::OnTrakt
        } else {
            let date = diary_date(d);
            let key = l2t_key_text(ItemType::Watched, ids.tmdb_id, d.name, d.year, date);
            if !force && state.contains(key) {
                Verdict::AlreadySynced
            } else {
                Verdict::Write(ids, date, key)
            }
        },
    }
}

/// What becomes of a watched.csv entry: dropped when the diary has it, then
/// as a diary entry, with bulk-import days skipped before the record is read.
pub open spec fn watched_verdict(
    w: WatchedEntry,
    diary: Seq<DiaryEntry>,
    watched: Seq<WatchedEntry>,
    films: Seq<ResolvedFilm>,
    watched_ids: Set<u64>,
    state: Set<Seq<char>>,
    force: bool,
) -> Verdict {
    if in_diary(diary, w.slug@) {
        Verdict::InDiary
    } else {
        match ids_for(films, w.name@, w.year) {
            None => Verdict::Unmatched,
            Some(ids) => if watched_on_trakt(ids, watched_ids) {
                Verdict::OnTrakt
            } else if bulk_day(watched, w.logged_date@) {
                Verdict::BulkDay
            } else {
                let key = l2t_key_text(ItemType::Watched, ids.tmdb_id, w.name, w.year, w.logged_date@);
                if !force && state.contains(key) {
                    Verdict::AlreadySynced
                } else {
                    Verdict::Write(ids, w.logged_date@, key)
                }
            },
        }
    }
}

pub open spec fn diary_verdicts(
    ds: Seq<DiaryEntry>,
    films: Seq<ResolvedFilm>,
    watched_ids: Set<u64>,
    state: Set<Seq<char>>,
    force: bool,
) -> Seq<Verdict>
    decreases ds.len(),
{
    if ds.len() == 0 {
        Seq::empty()
    } else {
        diary_verdicts(ds.drop_last(), films, watched_ids, state, force).push(
            diary_verdict(ds.last(), films, watched_ids, state, force),
        )
    }
}

pub open spec fn watched_verdicts(
    ws: Seq<WatchedEntry>,
    diary: Seq<DiaryEntry>,
    watched: Seq<WatchedEntry>,
    films: Seq<ResolvedFilm>,
    watched_ids: Set<u64>,
    state: Set<Seq<char>>,
    force: bool,
) -> Seq<Verdict>
    decreases ws.len(),
{
    if ws.len() == 0 {
        Seq::empty()
    } else {
        watched_verdicts(ws.drop_last(), diary, watched, films, watched_ids, state, force).push(
            watched_verdict(ws.last(), diary, watched, films, watched_ids, state, force),
        )
    }
}

/// Every history verdict of a run: the diary's, then watched.csv's.
pub open spec fn history_verdicts(
    e: LetterboxdExport,
    films: Seq<ResolvedFilm>,
    watched_ids: Set<u64>,
    state: Set<Seq<char>>,
    force: bool,
) -> Seq<Verdict> {
    diary_verdicts(e.diary@, films, watched_ids, state, force) + watched_verdicts(
        e.watched@,
        e.diary@,
        e.watched@,
        films,
        watched_ids,
        state,
        force,
    )
}

/// The writes among verdicts, in order: (ids, date, key).
pub open spec fn planned(vs: Seq<Verdict>) -> Seq<(MovieId, Seq<char>, Seq<char>)>
    decreases vs.len(),
{
    if vs.len() == 0 {
        Seq::empty()
    } else {
        match vs.last() {
            Verdict::Write(ids, date, key) => planned(vs.drop_last()).push((ids, date, key)),
            _ => planned(vs.drop_last()),
        }
    }
}

/// How many verdicts satisfy `p`.
pub open spec fn tally(vs: Seq<Verdict>, p: spec_fn(Verdict) -> bool) -> nat
    decreases vs.len(),
{
    if vs.len() == 0 {
        0
    } else {
        tally(vs.drop_last(), p) + (if p(vs.last()) {
            1nat
        } else {
            0nat
        })
    }
}

proof fn lemma_tally_bound(vs: Seq<Verdict>, p: spec_fn(Verdict) -> bool)
    ensures
        tally(vs, p) <= vs.len(),
    decreases vs.len(),
{
    if vs.len() > 0 {
        lemma_tally_bound(vs.drop_last(), p);
    }
}

proof fn lemma_push_unfolds(vs: Seq<Verdict>, v: Verdict)
    ensures
        vs.push(v).drop_last() == vs,
        vs.push(v).last() == v,
{
    assert(vs.push(v).drop_last() =~= vs);
}


// ---------------------------------------------------------------------------
// Judging entries
// ---------------------------------------------------------------------------

/// A verdict as computed, carrying what a write needs.
pub enum Outcome {
    Unmatched,
    InDiary,
    OnTrakt,
    BulkDay,
    AlreadySynced,
    Write(MovieId, String, SyncKey),
}

impl Outcome {
    pub open spec fn verdict(&self) -> Verdict {
        match self {
            Outcome::Unmatched => Verdict::Unmatched,
            Outcome::InDiary => Verdict::InDiary,
            Outcome::OnTrakt => Verdict::OnTrakt,
            Outcome::BulkDay => Verdict::BulkDay,
            Outcome::AlreadySynced => Verdict::AlreadySynced,
            Outcome::Write(ids, date, key) => Verdict::Write(*ids, date@, key.key_view()),
        }
    }
}

/// Whether Trakt's watched history holds the film.
pub fn is_on_trakt(ids: &MovieId, watched_ids: &HashSet<u64>) -> (res: bool)
    ensures
        res == watched_on_trakt(*ids, watched_ids@),
{
    match ids.tmdb_id {
        Some(t) => watched_ids.contains(&t),
        None => false,
    }
}

/// Whether a diary entry has this slug.
pub fn slug_in_diary(diary: &Vec<DiaryEntry>, slug: &String) -> (res: bool)
    ensures
        res == in_diary(diary@, slug@),
{
    let mut k: usize = 0;
    while k < diary.len()
        invariant
            k <= diary.len(),
            forall|j: int| 0 <= j < k ==> (#[trigger] diary@[j]).slug@ != slug@,
        decreases diary.len() - k,
    {
        if diary[k].slug == *slug {
            return true;
        }
        k = k + 1;
    }
    false
}

/// How many watched.csv entries were logged on `day`.
pub fn logged_on(watched: &Vec<WatchedEntry>, day: &String) -> (res: usize)
    ensures
        res == day_count(watched@, day@),
{
    let mut n: usize = 0;
    let mut k: usize = 0;
    while k < watched.len()
        invariant
            k <= watched.len(),
            n == day_count(watched@.take(k as int), day@),
            n <= k,
        decreases watched.len() - k,
    {
        proof {
            assert(watched@.take(k + 1).drop_last() =~= watched@.take(k as int));
        }
        if watched[k].logged_date == *day {
            n = n + 1;
        }
        k = k + 1;
    }
    proof {
        assert(watched@.take(watched.len() as int) =~= watched@);
    }
    n
}

fn judge_diary(
    d: &DiaryEntry,
    index: &IdIndex,
    watched_ids: &HashSet<u64>,
    state: &SyncState,
    force: bool,
) -> (res: Outcome)
    requires
        index.wf(),
        state.wf(),
    ensures
        res.verdict() == diary_verdict(*d, index.resolved(), watched_ids@, state.view(), force),
{
    match index.lookup(d.name.as_str(), d.year) {
        None => Outcome::Unmatched,
        Some(ids) => {
            if is_on_trakt(&ids, watched_ids) {
                Outcome::OnTrakt
            } else {
                let date = if d.watched_date.as_str().is_empty() {
                    d.logged_date.clone()
                } else {
                    d.watched_date.clone()
                };
                let key = l2t_key(ItemType::Watched, ids.tmdb_id, &d.name, d.year, date.as_str());
                if !force && state.contains(&key) {
                    Outcome::AlreadySynced
                } else {
                    Outcome::Write(ids, date, key)
                }
            }
        },
    }
}

fn judge_watched(
    w: &WatchedEntry,
    export: &LetterboxdExport,
    index: &IdIndex,
    watched_ids: &HashSet<u64>,
    state: &SyncState,
    force: bool,
) -> (res: Outcome)
    requires
        index.wf(),
        state.wf(),
    ensures
        res.verdict() == watched_verdict(
            *w,
            export.diary@,
            export.watched@,
            index.resolved(),
            watched_ids@,
            state.view(),
            force,
        ),
{
    if slug_in_diary(&export.diary, &w.slug) {
        return Outcome::InDiary;
    }
    match index.lookup(w.name.as_str(), w.year) {
        None => Outcome::Unmatched,
        Some(ids) => {
            if is_on_trakt(&ids, watched_ids) {
                Outcome::OnTrakt
            } else if logged_on(&export.watched, &w.logged_date) >= BULK_DATE_THRESHOLD {
                Outcome::BulkDay
            } else {
                let date = w.logged_date.clone();
                let key = l2t_key(ItemType::Watched, ids.tmdb_id, &w.name, w.year, date.as_str());
                if !force && state.contains(&key) {
                    Outcome::AlreadySynced
                } else {
                    Outcome::Write(ids, date, key)
                }
            }
        },
    }
}

// ---------------------------------------------------------------------------
// The history write
// ---------------------------------------------------------------------------

/// The history write of a run, with the keys to record once it succeeds and
/// the counts of entries left out.
pub struct HistoryPlan {
    pub movies: Vec<HistoryMovie>,
    pub keys: Vec<SyncKey>,
    /// Films already in Trakt's watched history.
    pub on_trakt: u32,
    /// Entries an earlier run already wrote.
    pub skipped: u32,
    /// watched.csv entries logged on a bulk-import day.
    pub bulk_skipped: u32,
}

/// `p` is the plan that the verdicts `vs` call for.
pub open spec fn history_plan_is(p: HistoryPlan, vs: Seq<Verdict>) -> bool {
    let w = planned(vs);
    &&& p.movies.len() == w.len()
    &&& p.keys.len() == w.len()
    &&& forall|k: int|
        0 <= k < w.len() ==> {
            &&& (#[trigger] p.movies@[k]).ids == w[k].0
            &&& opt_view(p.movies@[k].watched_at) == Some(stamp_text(w[k].1))
            &&& p.keys@[k].key_view() == w[k].2
        }
    &&& p.on_trakt == tally(vs, |v: Verdict| v is OnTrakt)
    &&& p.skipped == tally(vs, |v: Verdict| v is AlreadySynced)
    &&& p.bulk_skipped == tally(vs, |v: Verdict| v is BulkDay)
}

fn absorb_history(plan: &mut HistoryPlan, o: Outcome, Ghost(vs): Ghost<Seq<Verdict>>)
    requires
        history_plan_is(*old(plan), vs),
        vs.len() < u32::MAX,
    ensures
        history_plan_is(*final(plan), vs.push(o.verdict())),
{
    let ghost v = o.verdict();
    proof {
        lemma_push_unfolds(vs, v);
        lemma_tally_bound(vs, |v: Verdict| v is OnTrakt);
        lemma_tally_bound(vs, |v: Verdict| v is AlreadySynced);
        lemma_tally_bound(vs, |v: Verdict| v is BulkDay);
    }
    match o {
        Outcome::OnTrakt => {
            plan.on_trakt = plan.on_trakt + 1;
        },
        Outcome::AlreadySynced => {
            plan.skipped = plan.skipped + 1;
        },
        Outcome::BulkDay => {
            plan.bulk_skipped = plan.bulk_skipped + 1;
        },
        Outcome::Write(ids, date, key) => {
            let watched_at = stamp(date.as_str());
            plan.movies.push(HistoryMovie { ids, watched_at: Some(watched_at) });
            plan.keys.push(key);
        },
        _ => {},
    }
    proof {
        let w = planned(vs.push(v));
        assert forall|k: int| 0 <= k < w.len() implies {
            &&& (#[trigger] plan.movies@[k]).ids == w[k].0
            &&& opt_view(plan.movies@[k].watched_at) == Some(stamp_text(w[k].1))
            &&& plan.keys@[k].key_view() == w[k].2
        } by {
            if k < planned(vs).len() {
                assert(old(plan).movies@[k] == plan.movies@[k]);
                assert(old(plan).keys@[k] == plan.keys@[k]);
            }
        }
    }
}

/// The history write: diary entries first, then watched.csv entries, each
/// as its verdict decides, with every entry that is left out counted by why.
#[verifier::spinoff_prover]
pub fn plan_history(
    export: &LetterboxdExport,
    index: &IdIndex,
    watched_ids: &HashSet<u64>,
    state: &SyncState,
    force: bool,
) -> (res: HistoryPlan)
    requires
        index.wf(),
        state.wf(),
        export.diary.len() + export.watched.len() < u32::MAX,
    ensures
        history_plan_is(
            res,
            history_verdicts(*export, index.resolved(), watched_ids@, state.view(), force),
        ),
{
    let ghost films = index.resolved();
    let ghost seen = state.view();
    let mut plan = HistoryPlan {
        movies: Vec::new(),
        keys: Vec::new(),
        on_trakt: 0,
        skipped: 0,
        bulk_skipped: 0,
    };
    let mut i: usize = 0;
    while i < export.diary.len()
        invariant
            i <= export.diary.len(),
            index.wf(),
            state.wf(),
            films == index.resolved(),
            seen == state.view(),
            export.diary.len() + export.watched.len() < u32::MAX,
            history_plan_is(
                plan,
                diary_verdicts(export.diary@.take(i as int), films, watched_ids@, seen, force),
            ),
        decreases export.diary.len() - i,
    {
        let ghost vs = diary_verdicts(export.diary@.take(i as int), films, watched_ids@, seen, force);
        let o = judge_diary(&export.diary[i], index, watched_ids, state, force);
        proof {
            assert(export.diary@.take(i + 1).drop_last() =~= export.diary@.take(i as int));
            assert(vs.len() == i) by {
                lemma_diary_verdicts_len(export.diary@.take(i as int), films, watched_ids@, seen, force);
            }
        }
        absorb_history(&mut plan, o, Ghost(vs));
        i = i + 1;
    }
    let ghost dv = diary_verdicts(export.diary@, films, watched_ids@, seen, force);
    proof {
        assert(export.diary@.take(i as int) =~= export.diary@);
        lemma_diary_verdicts_len(export.diary@, films, watched_ids@, seen, force);
        assert(dv + watched_verdicts(export.watched@.take(0), export.diary@, export.watched@, films, watched_ids@, seen, force) =~= dv);
    }
    let mut j: usize = 0;
    while j < export.watched.len()
        invariant
            j <= export.watched.len(),
            index.wf(),
            state.wf(),
            films == index.resolved(),
            seen == state.view(),
            dv.len() == export.diary.len(),
            export.diary.len() + export.watched.len() < u32::MAX,
            history_plan_is(
                plan,
                dv + watched_verdicts(
                    export.watched@.take(j as int),
                    export.diary@,
                    export.watched@,
                    films,
                    watched_ids@,
                    seen,
                    force,
                ),
            ),
        decreases export.watched.len() - j,
    {
        let ghost wv = watched_verdicts(
            export.watched@.take(j as int),
            export.diary@,
            export.watched@,
            films,
            watched_ids@,
            seen,
            force,
        );
        let o = judge_watched(&export.watched[j], export, index, watched_ids, state, force);
        proof {
            assert(export.watched@.take(j + 1).drop_last() =~= export.watched@.take(j as int));
            lemma_watched_verdicts_len(
                export.watched@.take(j as int),
                export.diary@,
                export.watched@,
                films,
                watched_ids@,
                seen,
                force,
            );
            assert((dv + wv).push(o.verdict()) =~= dv + wv.push(o.verdict()));
        }
        absorb_history(&mut plan, o, Ghost(dv + wv));
        j = j + 1;
    }
    proof {
        assert(export.watched@.take(j as int) =~= export.watched@);
    }
    plan
}

proof fn lemma_diary_verdicts_len(
    ds: Seq<DiaryEntry>,
    films: Seq<ResolvedFilm>,
    watched_ids: Set<u64>,
    state: Set<Seq<char>>,
    force: bool,
)
    ensures
        diary_verdicts(ds, films, watched_ids, state, force).len() == ds.len(),
    decreases ds.len(),
{
    if ds.len() > 0 {
        lemma_diary_verdicts_len(ds.drop_last(), films, watched_ids, state, force);
    }
}

proof fn lemma_watched_verdicts_len(
    ws: Seq<WatchedEntry>,
    diary: Seq<DiaryEntry>,
    watched: Seq<WatchedEntry>,
    films: Seq<ResolvedFilm>,
    watched_ids: Set<u64>,
    state: Set<Seq<char>>,
    force: bool,
)
    ensures
        watched_verdicts(ws, diary, watched, films, watched_ids, state, force).len() == ws.len(),
    decreases ws.len(),
{
    if ws.len() > 0 {
        lemma_watched_verdicts_len(ws.drop_last(), diary, watched, films, watched_ids, state, force);
    }
}


// ---------------------------------------------------------------------------
// What the history write never does
// ---------------------------------------------------------------------------

proof fn lemma_diary_verdicts_index(
    ds: Seq<DiaryEntry>,
    films: Seq<ResolvedFilm>,
    watched_ids: Set<u64>,
    state: Set<Seq<char>>,
    force: bool,
)
    ensures
        diary_verdicts(ds, films, watched_ids, state, force).len() == ds.len(),
        forall|i: int|
            0 <= i < ds.len() ==> #[trigger] diary_verdicts(ds, films, watched_ids, state, force)[i]
                == diary_verdict(ds[i], films, watched_ids, state, force),
    decreases ds.len(),
{
    if ds.len() > 0 {
        lemma_diary_verdicts_index(ds.drop_last(), films, watched_ids, state, force);
        let vs = diary_verdicts(ds, films, watched_ids, state, force);
        assert forall|i: int| 0 <= i < ds.len() implies #[trigger] vs[i] == diary_verdict(
            ds[i],
            films,
            watched_ids,
            state,
            force,
        ) by {
            if i < ds.len() - 1 {
                assert(ds.drop_last()[i] == ds[i]);
            }
        }
    }
}

proof fn lemma_watched_verdicts_index(
    ws: Seq<WatchedEntry>,
    diary: Seq<DiaryEntry>,
    watched: Seq<WatchedEntry>,
    films: Seq<ResolvedFilm>,
    watched_ids: Set<u64>,
    state: Set<Seq<char>>,
    force: bool,
)
    ensures
        watched_verdicts(ws, diary, watched, films, watched_ids, state, force).len() == ws.len(),
        forall|i: int|
            0 <= i < ws.len() ==> #[trigger] watched_verdicts(
                ws,
                diary,
                watched,
                films,
                watched_ids,
                state,
                force,
            )[i] == watched_verdict(ws[i], diary, watched, films, watched_ids, state, force),
    decreases ws.len(),
{
    if ws.len() > 0 {
        lemma_watched_verdicts_index(ws.drop_last(), diary, watched, films, watched_ids, state, force);
        let vs = watched_verdicts(ws, diary, watched, films, watched_ids, state, force);
        assert forall|i: int| 0 <= i < ws.len() implies #[trigger] vs[i] == watched_verdict(
            ws[i],
            diary,
            watched,
            films,
            watched_ids,
            state,
            force,
        ) by {
            if i < ws.len() - 1 {
                assert(ws.drop_last()[i] == ws[i]);
            }
        }
    }
}

/// Each planned write is one of the verdicts.
proof fn lemma_planned_from(vs: Seq<Verdict>)
    ensures
        forall|j: int|
            0 <= j < planned(vs).len() ==> exists|i: int|
                0 <= i < vs.len() && #[trigger] vs[i] == Verdict::Write(
                    (#[trigger] planned(vs)[j]).0,
                    planned(vs)[j].1,
                    planned(vs)[j].2,
                ),
    decreases vs.len(),
{
    if vs.len() > 0 {
        let rest = vs.drop_last();
        lemma_planned_from(rest);
        assert forall|j: int| 0 <= j < planned(vs).len() implies exists|i: int|
            0 <= i < vs.len() && #[trigger] vs[i] == Verdict::Write(
                (#[trigger] planned(vs)[j]).0,
                planned(vs)[j].1,
                planned(vs)[j].2,
            ) by {
            if j < planned(rest).len() {
                let i = choose|i: int|
                    0 <= i < rest.len() && #[trigger] rest[i] == Verdict::Write(
                        planned(rest)[j].0,
                        planned(rest)[j].1,
                        planned(rest)[j].2,
                    );
                assert(vs[i] == rest[i]);
            } else {
                assert(vs[vs.len() - 1] == vs.last());
            }
        }
    }
}

/// Each write verdict is planned.
proof fn lemma_planned_complete(vs: Seq<Verdict>)
    ensures
        forall|i: int|
            0 <= i < vs.len() && (#[trigger] vs[i]) is Write ==> exists|j: int|
                0 <= j < planned(vs).len() && #[trigger] planned(vs)[j] == (
                    vs[i]->Write_0,
                    vs[i]->Write_1,
                    vs[i]->Write_2,
                ),
    decreases vs.len(),
{
    if vs.len() > 0 {
        let rest = vs.drop_last();
        lemma_planned_complete(rest);
        assert forall|i: int| 0 <= i < vs.len() && (#[trigger] vs[i]) is Write implies exists|j: int|
            0 <= j < planned(vs).len() && #[trigger] planned(vs)[j] == (
                vs[i]->Write_0,
                vs[i]->Write_1,
                vs[i]->Write_2,
            ) by {
            if i < rest.len() {
                assert(rest[i] == vs[i]);
                let j = choose|j: int|
                    0 <= j < planned(rest).len() && #[trigger] planned(rest)[j] == (
                        rest[i]->Write_0,
                        rest[i]->Write_1,
                        rest[i]->Write_2,
                    );
                assert(planned(vs)[j] == planned(rest)[j]);
            } else {
                assert(planned(vs)[planned(rest).len() as int] == (
                    vs[i]->Write_0,
                    vs[i]->Write_1,
                    vs[i]->Write_2,
                ));
            }
        }
    }
}

/// No verdict is a write: nothing is planned.
proof fn lemma_planned_none(vs: Seq<Verdict>)
    requires
        forall|i: int| 0 <= i < vs.len() ==> !((#[trigger] vs[i]) is Write),
    ensures
        planned(vs).len() == 0,
    decreases vs.len(),
{
    if vs.len() > 0 {
        assert(vs.last() == vs[vs.len() - 1]);
        lemma_planned_none(vs.drop_last());
    }
}

/// A film already in Trakt's watched history is never written to it, with
/// or without `--force`: the history check does not read the local record.
pub proof fn law_history_never_rewrites_trakt_plays(
    e: LetterboxdExport,
    films: Seq<ResolvedFilm>,
    watched_ids: Set<u64>,
    state: Set<Seq<char>>,
    force: bool,
)
    ensures
        forall|j: int|
            0 <= j < planned(history_verdicts(e, films, watched_ids, state, force)).len()
                ==> !watched_on_trakt(
                (#[trigger] planned(history_verdicts(e, films, watched_ids, state, force))[j]).0,
                watched_ids,
            ),
{
    let dv = diary_verdicts(e.diary@, films, watched_ids, state, force);
    let wv = watched_verdicts(e.watched@, e.diary@, e.watched@, films, watched_ids, state, force);
    let vs = dv + wv;
    lemma_diary_verdicts_index(e.diary@, films, watched_ids, state, force);
    lemma_watched_verdicts_index(e.watched@, e.diary@, e.watched@, films, watched_ids, state, force);
    lemma_planned_from(vs);
    assert forall|j: int| 0 <= j < planned(vs).len() implies !watched_on_trakt(
        (#[trigger] planned(vs)[j]).0,
        watched_ids,
    ) by {
        let i = choose|i: int|
            0 <= i < vs.len() && #[trigger] vs[i] == Verdict::Write(
                planned(vs)[j].0,
                planned(vs)[j].1,
                planned(vs)[j].2,
            );
        if i < dv.len() {
            assert(vs[i] == dv[i]);
        } else {
            assert(vs[i] == wv[i - dv.len()]);
        }
    }
}

/// A watched.csv entry logged on a bulk-import day is never written, with or
/// without `--force`.
pub proof fn law_bulk_day_entries_never_written(
    e: LetterboxdExport,
    films: Seq<ResolvedFilm>,
    watched_ids: Set<u64>,
    state: Set<Seq<char>>,
    force: bool,
    k: int,
)
    requires
        0 <= k < e.watched@.len(),
        bulk_day(e.watched@, e.watched@[k].logged_date@),
    ensures
        !(history_verdicts(e, films, watched_ids, state, force)[e.diary@.len() + k] is Write),
        history_verdicts(e, films, watched_ids, state, force).len() == e.diary@.len() + e.watched@.len(),
{
    lemma_diary_verdicts_index(e.diary@, films, watched_ids, state, force);
    lemma_watched_verdicts_index(e.watched@, e.diary@, e.watched@, films, watched_ids, state, force);
    let dv = diary_verdicts(e.diary@, films, watched_ids, state, force);
    let wv = watched_verdicts(e.watched@, e.diary@, e.watched@, films, watched_ids, state, force);
    assert((dv + wv)[dv.len() + k] == wv[k]);
}

/// Once the keys of a run's history write are recorded, the same run again
/// (without `--force`) writes nothing: each entry it wrote is now found in
/// the record, and the rest fare as before.
pub proof fn law_history_rerun_writes_nothing(
    e: LetterboxdExport,
    films: Seq<ResolvedFilm>,
    watched_ids: Set<u64>,
    before: Set<Seq<char>>,
    after: Set<Seq<char>>,
)
    requires
        before.subset_of(after),
        forall|j: int|
            0 <= j < planned(history_verdicts(e, films, watched_ids, before, false)).len()
                ==> after.contains(
                (#[trigger] planned(history_verdicts(e, films, watched_ids, before, false))[j]).2,
            ),
    ensures
        planned(history_verdicts(e, films, watched_ids, after, false)).len() == 0,
{
    let dv0 = diary_verdicts(e.diary@, films, watched_ids, before, false);
    let wv0 = watched_verdicts(e.watched@, e.diary@, e.watched@, films, watched_ids, before, false);
    let dv1 = diary_verdicts(e.diary@, films, watched_ids, after, false);
    let wv1 = watched_verdicts(e.watched@, e.diary@, e.watched@, films, watched_ids, after, false);
    let vs0 = dv0 + wv0;
    let vs1 = dv1 + wv1;
    lemma_diary_verdicts_index(e.diary@, films, watched_ids, before, false);
    lemma_watched_verdicts_index(e.watched@, e.diary@, e.watched@, films, watched_ids, before, false);
    lemma_diary_verdicts_index(e.diary@, films, watched_ids, after, false);
    lemma_watched_verdicts_index(e.watched@, e.diary@, e.watched@, films, watched_ids, after, false);
    lemma_planned_complete(vs0);
    assert forall|i: int| 0 <= i < vs1.len() implies !((#[trigger] vs1[i]) is Write) by {
        if vs0[i] is Write {
            let j = choose|j: int|
                0 <= j < planned(vs0).len() && #[trigger] planned(vs0)[j] == (
                    vs0[i]->Write_0,
                    vs0[i]->Write_1,
                    vs0[i]->Write_2,
                );
            assert(vs0 == history_verdicts(e, films, watched_ids, before, false));
            assert(after.contains(
                planned(history_verdicts(e, films, watched_ids, before, false))[j].2,
            ));
        }
        if i < dv0.len() {
            assert(vs0[i] == dv0[i]);
            assert(vs1[i] == dv1[i]);
        } else {
            assert(vs0[i] == wv0[i - dv0.len()]);
            assert(vs1[i] == wv1[i - dv1.len()]);
        }
    }
    lemma_planned_none(vs1);
}


proof fn lemma_tally_shift(
    a: Seq<Verdict>,
    b: Seq<Verdict>,
    p: spec_fn(Verdict) -> bool,
    w: spec_fn(Verdict) -> bool,
)
    requires
        a.len() == b.len(),
        forall|i: int| 0 <= i < a.len() ==> p(#[trigger] b[i]) == (p(a[i]) || w(a[i])),
        forall|i: int| 0 <= i < a.len() ==> !(p(#[trigger] a[i]) && w(a[i])),
    ensures
        tally(b, p) == tally(a, p) + tally(a, w),
    decreases a.len(),
{
    if a.len() > 0 {
        let n = a.len() - 1;
        assert(a[n] == a.last());
        assert(b[n] == b.last());
        assert forall|i: int| 0 <= i < n implies p(#[trigger] b.drop_last()[i]) == (p(
            a.drop_last()[i],
        ) || w(a.drop_last()[i])) by {
            assert(b.drop_last()[i] == b[i]);
            assert(a.drop_last()[i] == a[i]);
        }
        assert forall|i: int| 0 <= i < n implies !(p(#[trigger] a.drop_last()[i]) && w(
            a.drop_last()[i],
        )) by {
            assert(a.drop_last()[i] == a[i]);
        }
        lemma_tally_shift(a.drop_last(), b.drop_last(), p, w);
    }
}

proof fn lemma_planned_is_write_tally(vs: Seq<Verdict>)
    ensures
        planned(vs).len() == tally(vs, |v: Verdict| v is Write),
    decreases vs.len(),
{
    if vs.len() > 0 {
        lemma_planned_is_write_tally(vs.drop_last());
    }
}

/// Once the keys of a run's history write are recorded, the same run again
/// (without `--force`) counts every entry the first run wrote as already
/// synced, on top of those the first run already found recorded.
pub proof fn law_history_rerun_counts_writes_as_synced(
    e: LetterboxdExport,
    films: Seq<ResolvedFilm>,
    watched_ids: Set<u64>,
    before: Set<Seq<char>>,
    after: Set<Seq<char>>,
)
    requires
        before.subset_of(after),
        forall|j: int|
            0 <= j < planned(history_verdicts(e, films, watched_ids, before, false)).len()
                ==> after.contains(
                (#[trigger] planned(history_verdicts(e, films, watched_ids, before, false))[j]).2,
            ),
    ensures
        tally(history_verdicts(e, films, watched_ids, after, false), |v: Verdict| v is AlreadySynced)
            == tally(history_verdicts(e, films, watched_ids, before, false), |v: Verdict| v is AlreadySynced)
            + planned(history_verdicts(e, films, watched_ids, before, false)).len(),
{
    let dv0 = diary_verdicts(e.diary@, films, watched_ids, before, false);
    let wv0 = watched_verdicts(e.watched@, e.diary@, e.watched@, films, watched_ids, before, false);
    let dv1 = diary_verdicts(e.diary@, films, watched_ids, after, false);
    let wv1 = watched_verdicts(e.watched@, e.diary@, e.watched@, films, watched_ids, after, false);
    let vs0 = dv0 + wv0;
    let vs1 = dv1 + wv1;
    lemma_diary_verdicts_index(e.diary@, films, watched_ids, before, false);
    lemma_watched_verdicts_index(e.watched@, e.diary@, e.watched@, films, watched_ids, before, false);
    lemma_diary_verdicts_index(e.diary@, films, watched_ids, after, false);
    lemma_watched_verdicts_index(e.watched@, e.diary@, e.watched@, films, watched_ids, after, false);
    lemma_planned_complete(vs0);
    let p = |v: Verdict| v is AlreadySynced;
    let w = |v: Verdict| v is Write;
    assert forall|i: int| 0 <= i < vs0.len() implies p(#[trigger] vs1[i]) == (p(vs0[i]) || w(
        vs0[i],
    )) by {
        if vs0[i] is Write {
            let j = choose|j: int|
                0 <= j < planned(vs0).len() && #[trigger] planned(vs0)[j] == (
                    vs0[i]->Write_0,
                    vs0[i]->Write_1,
                    vs0[i]->Write_2,
                );
            assert(vs0 == history_verdicts(e, films, watched_ids, before, false));
            assert(after.contains(
                planned(history_verdicts(e, films, watched_ids, before, false))[j].2,
            ));
        }
        if i < dv0.len() {
            assert(vs0[i] == dv0[i]);
            assert(vs1[i] == dv1[i]);
        } else {
            assert(vs0[i] == wv0[i - dv0.len()]);
            assert(vs1[i] == wv1[i - dv1.len()]);
        }
    }
    lemma_tally_shift(vs0, vs1, p, w);
    lemma_planned_is_write_tally(vs0);
}

// ---------------------------------------------------------------------------
// The ratings write
// ---------------------------------------------------------------------------

/// What becomes of a ratings.csv entry: ids looked up, then the record of
/// earlier runs, keyed by the day it was logged.
pub open spec fn rating_verdict(
    r: RatingEntry,
    films: Seq<ResolvedFilm>,
    state: Set<Seq<char>>,
    force: bool,
) -> Verdict {
    match ids_for(films, r.name@, r.year) {
        None => Verdict::Unmatched,
        Some(ids) => {
            let key = l2t_key_text(ItemType::Rating, ids.tmdb_id, r.name, r.year, r.logged_date@);
            if !force && state.contains(key) {
                Verdict::AlreadySynced
            } else {
                Verdict::Write(ids, r.logged_date@, key)
            }
        },
    }
}

pub open spec fn rating_verdicts(
    rs: Seq<RatingEntry>,
    films: Seq<ResolvedFilm>,
    state: Set<Seq<char>>,
    force: bool,
) -> Seq<Verdict>
    decreases rs.len(),
{
    if rs.len() == 0 {
        Seq::empty()
    } else {
        rating_verdicts(rs.drop_last(), films, state, force).push(
            rating_verdict(rs.last(), films, state, force),
        )
    }
}

/// The Trakt scores of the written ratings, in order: `scores[i]` is the
/// score of `rs[i]`.
pub open spec fn written_scores(
    rs: Seq<RatingEntry>,
    scores: Seq<u8>,
    films: Seq<ResolvedFilm>,
    state: Set<Seq<char>>,
    force: bool,
) -> Seq<u8>
    decreases rs.len(),
{
    if rs.len() == 0 {
        Seq::empty()
    } else {
        let before = written_scores(rs.drop_last(), scores, films, state, force);
        if rating_verdict(rs.last(), films, state, force) is Write {
            before.push(scores[rs.len() - 1])
        } else {
            before
        }
    }
}

/// How many of the first `k` ratings rows are written.
pub open spec fn rating_writes_before(
    rs: Seq<RatingEntry>,
    films: Seq<ResolvedFilm>,
    state: Set<Seq<char>>,
    force: bool,
    k: int,
) -> nat
    decreases k,
{
    if k <= 0 {
        0
    } else {
        rating_writes_before(rs, films, state, force, k - 1) + if rating_verdict(
            rs[k - 1],
            films,
            state,
            force,
        ) is Write {
            1nat
        } else {
            0nat
        }
    }
}

proof fn lemma_writes_before_prefix(
    rs: Seq<RatingEntry>,
    films: Seq<ResolvedFilm>,
    state: Set<Seq<char>>,
    force: bool,
    k: int,
)
    requires
        0 <= k < rs.len(),
    ensures
        rating_writes_before(rs, films, state, force, k) == rating_writes_before(
            rs.drop_last(),
            films,
            state,
            force,
            k,
        ),
    decreases k,
{
    if k > 0 {
        lemma_writes_before_prefix(rs, films, state, force, k - 1);
        assert(rs[k - 1] == rs.drop_last()[k - 1]);
    }
}

proof fn lemma_written_counts(
    rs: Seq<RatingEntry>,
    scores: Seq<u8>,
    films: Seq<ResolvedFilm>,
    state: Set<Seq<char>>,
    force: bool,
)
    ensures
        written_scores(rs, scores, films, state, force).len() == rating_writes_before(
            rs,
            films,
            state,
            force,
            rs.len() as int,
        ),
        planned(rating_verdicts(rs, films, state, force)).len() == rating_writes_before(
            rs,
            films,
            state,
            force,
            rs.len() as int,
        ),
    decreases rs.len(),
{
    if rs.len() > 0 {
        lemma_written_counts(rs.drop_last(), scores, films, state, force);
        lemma_writes_before_prefix(rs, films, state, force, rs.len() - 1);
        let vs = rating_verdicts(rs, films, state, force);
        assert(vs.drop_last() =~= rating_verdicts(rs.drop_last(), films, state, force));
        assert(rs[rs.len() - 1] == rs.last());
    }
}

/// Each written rating carries the score of its own ratings row: the
/// ratings write lists, in row order, one rating per written row, and the
/// rating for row `k` (the one after the writes of the rows before it) has
/// row `k`'s film and row `k`'s score, whatever rows before it were skipped
/// or unmatched.
pub proof fn law_each_rating_keeps_its_own_score(
    rs: Seq<RatingEntry>,
    scores: Seq<u8>,
    films: Seq<ResolvedFilm>,
    state: Set<Seq<char>>,
    force: bool,
    k: int,
)
    requires
        rs.len() <= scores.len(),
        0 <= k < rs.len(),
        rating_verdict(rs[k], films, state, force) is Write,
    ensures
        ({
            let j = rating_writes_before(rs, films, state, force, k) as int;
            &&& j < written_scores(rs, scores, films, state, force).len()
            &&& written_scores(rs, scores, films, state, force)[j] == scores[k]
            &&& j < planned(rating_verdicts(rs, films, state, force)).len()
            &&& rating_verdict(rs[k], films, state, force) matches Verdict::Write(ids, date, key)
                && planned(rating_verdicts(rs, films, state, force))[j] == (ids, date, key)
        }),
    decreases rs.len(),
{
    let n = rs.len() - 1;
    let rest = rs.drop_last();
    let vs = rating_verdicts(rs, films, state, force);
    assert(vs.drop_last() =~= rating_verdicts(rest, films, state, force));
    assert(rs[n] == rs.last());
    lemma_written_counts(rest, scores, films, state, force);
    lemma_written_counts(rs, scores, films, state, force);
    if k == n {
        lemma_writes_before_prefix(rs, films, state, force, n);
    } else {
        assert(rs[k] == rest[k]);
        law_each_rating_keeps_its_own_score(rest, scores, films, state, force, k);
        lemma_writes_before_prefix(rs, films, state, force, k);
    }
}

/// When a rating is dated: midnight of the day it was logged, if any.
pub open spec fn rated_at_text(date: Seq<char>) -> Option<Seq<char>> {
    if date.len() > 0 {
        Some(stamp_text(date))
    } else {
        None
    }
}

/// The ratings write of a run, with the keys to record once it succeeds.
pub struct RatingPlan {
    pub movies: Vec<RatingMovie>,
    pub keys: Vec<SyncKey>,
    /// Ratings an earlier run already wrote.
    pub skipped: u32,
}

/// `p` is the plan that the verdicts `vs` and the scores `sc` call for.
pub open spec fn rating_plan_is(p: RatingPlan, vs: Seq<Verdict>, sc: Seq<u8>) -> bool {
    let w = planned(vs);
    &&& p.movies.len() == w.len()
    &&& p.keys.len() == w.len()
    &&& sc.len() == w.len()
    &&& forall|k: int|
        0 <= k < w.len() ==> {
            &&& (#[trigger] p.movies@[k]).ids == w[k].0
            &&& p.movies@[k].rating == sc[k]
            &&& opt_view(p.movies@[k].rated_at) == rated_at_text(w[k].1)
            &&& p.keys@[k].key_view() == w[k].2
        }
    &&& p.skipped == tally(vs, |v: Verdict| v is AlreadySynced)
}

/// The ratings write: one rating per matched entry not already recorded,
/// scored by `scores`, the Trakt score of each entry (same order).
#[verifier::spinoff_prover]
pub fn plan_ratings(
    ratings: &Vec<RatingEntry>,
    scores: &Vec<u8>,
    index: &IdIndex,
    state: &SyncState,
    force: bool,
) -> (res: RatingPlan)
    requires
        index.wf(),
        state.wf(),
        scores.len() == ratings.len(),
        ratings.len() < u32::MAX,
    ensures
        rating_plan_is(
            res,
            rating_verdicts(ratings@, index.resolved(), state.view(), force),
            written_scores(ratings@, scores@, index.resolved(), state.view(), force),
        ),
        forall|k: int|
            0 <= k < ratings.len() && rating_verdict(
                #[trigger] ratings@[k],
                index.resolved(),
                state.view(),
                force,
            ) is Write ==> {
                let j = rating_writes_before(ratings@, index.resolved(), state.view(), force, k)
                    as int;
                &&& j < res.movies.len()
                &&& res.movies@[j].rating == scores@[k]
                &&& rating_verdict(ratings@[k], index.resolved(), state.view(), force) matches Verdict::Write(ids, _, key)
                    && res.movies@[j].ids == ids && res.keys@[j].key_view() == key
            },
{
    let ghost films = index.resolved();
    let ghost seen = state.view();
    let mut plan = RatingPlan { movies: Vec::new(), keys: Vec::new(), skipped: 0 };
    let mut i: usize = 0;
    while i < ratings.len()
        invariant
            i <= ratings.len(),
            index.wf(),
            state.wf(),
            films == index.resolved(),
            seen == state.view(),
            scores.len() == ratings.len(),
            ratings.len() < u32::MAX,
            rating_plan_is(
                plan,
                rating_verdicts(ratings@.take(i as int), films, seen, force),
                written_scores(ratings@.take(i as int), scores@, films, seen, force),
            ),
        decreases ratings.len() - i,
    {
        let ghost vs = rating_verdicts(ratings@.take(i as int), films, seen, force);
        let ghost sc = written_scores(ratings@.take(i as int), scores@, films, seen, force);
        let r = &ratings[i];
        proof {
            let t = ratings@.take(i + 1);
            assert(t.drop_last() =~= ratings@.take(i as int));
            assert(t.last() == ratings@[i as int]);
            assert(written_scores(t, scores@, films, seen, force) == written_scores(
                t.drop_last(),
                scores@,
                films,
                seen,
                force,
            ) + (if rating_verdict(ratings@[i as int], films, seen, force) is Write {
                seq![scores@[i as int]]
            } else {
                Seq::empty()
            })) by {
                assert(sc.push(scores@[i as int]) =~= sc + seq![scores@[i as int]]);
                assert(sc =~= sc + Seq::<u8>::empty());
            }
            lemma_push_unfolds(vs, rating_verdict(ratings@[i as int], films, seen, force));
            lemma_tally_bound(vs, |v: Verdict| v is AlreadySynced);
            lemma_rating_verdicts_len(ratings@.take(i as int), films, seen, force);
        }
        match index.lookup(r.name.as_str(), r.year) {
            None => {},
            Some(ids) => {
                let date = r.logged_date.clone();
                let key = l2t_key(ItemType::Rating, ids.tmdb_id, &r.name, r.year, date.as_str());
                if !force && state.contains(&key) {
                    plan.skipped = plan.skipped + 1;
                } else {
                    let rated_at = if date.as_str().is_empty() {
                        None
                    } else {
                        Some(stamp(date.as_str()))
                    };
                    let ghost before = plan;
                    plan.movies.push(RatingMovie { ids, rating: scores[i], rated_at });
                    plan.keys.push(key);
                    proof {
                        let w = planned(vs.push(rating_verdict(ratings@[i as int], films, seen, force)));
                        let sc2 = sc + seq![scores@[i as int]];
                        assert forall|k: int| 0 <= k < w.len() implies {
                            &&& (#[trigger] plan.movies@[k]).ids == w[k].0
                            &&& plan.movies@[k].rating == sc2[k]
                            &&& opt_view(plan.movies@[k].rated_at) == rated_at_text(w[k].1)
                            &&& plan.keys@[k].key_view() == w[k].2
                        } by {
                            if k < planned(vs).len() {
                                assert(before.movies@[k] == plan.movies@[k]);
                                assert(before.keys@[k] == plan.keys@[k]);
                            }
                        }
                    }
                }
            },
        }
        proof {
            assert(sc + Seq::<u8>::empty() =~= sc);
        }
        i = i + 1;
    }
    proof {
        assert(ratings@.take(i as int) =~= ratings@);
        assert forall|k: int|
            0 <= k < ratings.len() && rating_verdict(
                #[trigger] ratings@[k],
                films,
                seen,
                force,
            ) is Write implies {
                let j = rating_writes_before(ratings@, films, seen, force, k) as int;
                &&& j < plan.movies.len()
                &&& plan.movies@[j].rating == scores@[k]
                &&& rating_verdict(ratings@[k], films, seen, force) matches Verdict::Write(ids, _, key)
                    && plan.movies@[j].ids == ids && plan.keys@[j].key_view() == key
            } by {
            law_each_rating_keeps_its_own_score(ratings@, scores@, films, seen, force, k);
            let j = rating_writes_before(ratings@, films, seen, force, k) as int;
            assert(plan.movies@[j].ids == planned(rating_verdicts(ratings@, films, seen, force))[j].0);
        }
    }
    plan
}

proof fn lemma_rating_verdicts_len(
    rs: Seq<RatingEntry>,
    films: Seq<ResolvedFilm>,
    state: Set<Seq<char>>,
    force: bool,
)
    ensures
        rating_verdicts(rs, films, state, force).len() == rs.len(),
    decreases rs.len(),
{
    if rs.len() > 0 {
        lemma_rating_verdicts_len(rs.drop_last(), films, state, force);
    }
}


// ---------------------------------------------------------------------------
// The watchlist write
// ---------------------------------------------------------------------------

/// What becomes of a watchlist.csv entry: ids looked up, then the record of
/// earlier runs (a watchlist key carries no date).
pub open spec fn watchlist_verdict(
    w: WatchlistEntry,
    films: Seq<ResolvedFilm>,
    state: Set<Seq<char>>,
    force: bool,
) -> Verdict {
    match ids_for(films, w.name@, w.year) {
        None => Verdict::Unmatched,
        Some(ids) => {
            let key = l2t_key_text(ItemType::Watchlist, ids.tmdb_id, w.name, w.year, Seq::empty());
            if !force && state.contains(key) {
                Verdict::AlreadySynced
            } else {
                Verdict::Write(ids, Seq::empty(), key)
            }
        },
    }
}

pub open spec fn watchlist_verdicts(
    ws: Seq<WatchlistEntry>,
    films: Seq<ResolvedFilm>,
    state: Set<Seq<char>>,
    force: bool,
) -> Seq<Verdict>
    decreases ws.len(),
{
    if ws.len() == 0 {
        Seq::empty()
    } else {
        watchlist_verdicts(ws.drop_last(), films, state, force).push(
            watchlist_verdict(ws.last(), films, state, force),
        )
    }
}

/// The watchlist write of a run, with the keys to record once it succeeds.
pub struct WatchlistPlan {
    pub movies: Vec<WatchlistMovie>,
    pub keys: Vec<SyncKey>,
    /// Entries an earlier run already added.
    pub skipped: u32,
}

pub open spec fn watchlist_plan_is(p: WatchlistPlan, vs: Seq<Verdict>) -> bool {
    let w = planned(vs);
    &&& p.movies.len() == w.len()
    &&& p.keys.len() == w.len()
    &&& forall|k: int|
        0 <= k < w.len() ==> {
            &&& (#[trigger] p.movies@[k]).ids == w[k].0
            &&& p.keys@[k].key_view() == w[k].2
        }
    &&& p.skipped == tally(vs, |v: Verdict| v is AlreadySynced)
}

/// The watchlist write: every matched entry not already recorded.
#[verifier::spinoff_prover]
pub fn plan_watchlist(
    watchlist: &Vec<WatchlistEntry>,
    index: &IdIndex,
    state: &SyncState,
    force: bool,
) -> (res: WatchlistPlan)
    requires
        index.wf(),
        state.wf(),
        watchlist.len() < u32::MAX,
    ensures
        watchlist_plan_is(res, watchlist_verdicts(watchlist@, index.resolved(), state.view(), force)),
{
    let ghost films = index.resolved();
    let ghost seen = state.view();
    let mut plan = WatchlistPlan { movies: Vec::new(), keys: Vec::new(), skipped: 0 };
    let mut i: usize = 0;
    while i < watchlist.len()
        invariant
            i <= watchlist.len(),
            index.wf(),
            state.wf(),
            films == index.resolved(),
            seen == state.view(),
            watchlist.len() < u32::MAX,
            watchlist_plan_is(plan, watchlist_verdicts(watchlist@.take(i as int), films, seen, force)),
        decreases watchlist.len() - i,
    {
        let ghost vs = watchlist_verdicts(watchlist@.take(i as int), films, seen, force);
        let w = &watchlist[i];
        proof {
            assert(watchlist@.take(i + 1).drop_last() =~= watchlist@.take(i as int));
            lemma_push_unfolds(vs, watchlist_verdict(watchlist@[i as int], films, seen, force));
            lemma_tally_bound(vs, |v: Verdict| v is AlreadySynced);
            lemma_watchlist_verdicts_len(watchlist@.take(i as int), films, seen, force);
            reveal_strlit("");
        }
        match index.lookup(w.name.as_str(), w.year) {
            None => {},
            Some(ids) => {
                let key = l2t_key(ItemType::Watchlist, ids.tmdb_id, &w.name, w.year, "");
                if !force && state.contains(&key) {
                    plan.skipped = plan.skipped + 1;
                } else {
                    let ghost before = plan;
                    plan.movies.push(WatchlistMovie { ids });
                    plan.keys.push(key);
                    proof {
                        let wp = planned(vs.push(watchlist_verdict(watchlist@[i as int], films, seen, force)));
                        assert forall|k: int| 0 <= k < wp.len() implies {
                            &&& (#[trigger] plan.movies@[k]).ids == wp[k].0
                            &&& plan.keys@[k].key_view() == wp[k].2
                        } by {
                            if k < planned(vs).len() {
                                assert(before.movies@[k] == plan.movies@[k]);
                                assert(before.keys@[k] == plan.keys@[k]);
                            }
                        }
                    }
                }
            },
        }
        i = i + 1;
    }
    proof {
        assert(watchlist@.take(i as int) =~= watchlist@);
    }
    plan
}

proof fn lemma_watchlist_verdicts_len(
    ws: Seq<WatchlistEntry>,
    films: Seq<ResolvedFilm>,
    state: Set<Seq<char>>,
    force: bool,
)
    ensures
        watchlist_verdicts(ws, films, state, force).len() == ws.len(),
    decreases ws.len(),
{
    if ws.len() > 0 {
        lemma_watchlist_verdicts_len(ws.drop_last(), films, state, force);
    }
}


proof fn lemma_rating_verdicts_index(
    rs: Seq<RatingEntry>,
    films: Seq<ResolvedFilm>,
    state: Set<Seq<char>>,
    force: bool,
)
    ensures
        rating_verdicts(rs, films, state, force).len() == rs.len(),
        forall|i: int|
            0 <= i < rs.len() ==> #[trigger] rating_verdicts(rs, films, state, force)[i]
                == rating_verdict(rs[i], films, state, force),
    decreases rs.len(),
{
    if rs.len() > 0 {
        lemma_rating_verdicts_index(rs.drop_last(), films, state, force);
        let vs = rating_verdicts(rs, films, state, force);
        assert forall|i: int| 0 <= i < rs.len() implies #[trigger] vs[i] == rating_verdict(
            rs[i],
            films,
            state,
            force,
        ) by {
            if i < rs.len() - 1 {
                assert(rs.drop_last()[i] == rs[i]);
            }
        }
    }
}

proof fn lemma_watchlist_verdicts_index(
    ws: Seq<WatchlistEntry>,
    films: Seq<ResolvedFilm>,
    state: Set<Seq<char>>,
    force: bool,
)
    ensures
        watchlist_verdicts(ws, films, state, force).len() == ws.len(),
        forall|i: int|
            0 <= i < ws.len() ==> #[trigger] watchlist_verdicts(ws, films, state, force)[i]
                == watchlist_verdict(ws[i], films, state, force),
    decreases ws.len(),
{
    if ws.len() > 0 {
        lemma_watchlist_verdicts_index(ws.drop_last(), films, state, force);
        let vs = watchlist_verdicts(ws, films, state, force);
        assert forall|i: int| 0 <= i < ws.len() implies #[trigger] vs[i] == watchlist_verdict(
            ws[i],
            films,
            state,
            force,
        ) by {
            if i < ws.len() - 1 {
                assert(ws.drop_last()[i] == ws[i]);
            }
        }
    }
}

/// Once the keys of a run's ratings write are recorded, the same ratings
/// again (without `--force`) write nothing.
pub proof fn law_ratings_rerun_writes_nothing(
    rs: Seq<RatingEntry>,
    films: Seq<ResolvedFilm>,
    before: Set<Seq<char>>,
    after: Set<Seq<char>>,
)
    requires
        before.subset_of(after),
        forall|j: int|
            0 <= j < planned(rating_verdicts(rs, films, before, false)).len() ==> after.contains(
                (#[trigger] planned(rating_verdicts(rs, films, before, false))[j]).2,
            ),
    ensures
        planned(rating_verdicts(rs, films, after, false)).len() == 0,
{
    let vs0 = rating_verdicts(rs, films, before, false);
    let vs1 = rating_verdicts(rs, films, after, false);
    lemma_rating_verdicts_index(rs, films, before, false);
    lemma_rating_verdicts_index(rs, films, after, false);
    lemma_planned_complete(vs0);
    assert forall|i: int| 0 <= i < vs1.len() implies !((#[trigger] vs1[i]) is Write) by {
        assert(vs0[i] == rating_verdict(rs[i], films, before, false));
        assert(vs1[i] == rating_verdict(rs[i], films, after, false));
        if vs0[i] is Write {
            let j = choose|j: int|
                0 <= j < planned(vs0).len() && #[trigger] planned(vs0)[j] == (
                    vs0[i]->Write_0,
                    vs0[i]->Write_1,
                    vs0[i]->Write_2,
                );
            assert(after.contains(planned(vs0)[j].2));
        }
    }
    lemma_planned_none(vs1);
}

/// Once the keys of a run's watchlist write are recorded, the same watchlist
/// again (without `--force`) adds nothing.
pub proof fn law_watchlist_rerun_writes_nothing(
    ws: Seq<WatchlistEntry>,
    films: Seq<ResolvedFilm>,
    before: Set<Seq<char>>,
    after: Set<Seq<char>>,
)
    requires
        before.subset_of(after),
        forall|j: int|
            0 <= j < planned(watchlist_verdicts(ws, films, before, false)).len()
                ==> after.contains(
                (#[trigger] planned(watchlist_verdicts(ws, films, before, false))[j]).2,
            ),
    ensures
        planned(watchlist_verdicts(ws, films, after, false)).len() == 0,
{
    let vs0 = watchlist_verdicts(ws, films, before, false);
    let vs1 = watchlist_verdicts(ws, films, after, false);
    lemma_watchlist_verdicts_index(ws, films, before, false);
    lemma_watchlist_verdicts_index(ws, films, after, false);
    lemma_planned_complete(vs0);
    assert forall|i: int| 0 <= i < vs1.len() implies !((#[trigger] vs1[i]) is Write) by {
        assert(vs0[i] == watchlist_verdict(ws[i], films, before, false));
        assert(vs1[i] == watchlist_verdict(ws[i], films, after, false));
        if vs0[i] is Write {
            let j = choose|j: int|
                0 <= j < planned(vs0).len() && #[trigger] planned(vs0)[j] == (
                    vs0[i]->Write_0,
                    vs0[i]->Write_1,
                    vs0[i]->Write_2,
                );
            assert(after.contains(planned(vs0)[j].2));
        }
    }
    lemma_planned_none(vs1);
}

// ---------------------------------------------------------------------------
// Reviews: one note per review, until the account's limit
// ---------------------------------------------------------------------------

/// A review's date: the day it was watched, else the day it was logged.
pub open spec fn review_date(r: ReviewEntry) -> Seq<char> {
    if r.watched_date@.len() > 0 {
        r.watched_date@
    } else {
        r.logged_date@
    }
}

/// What a run does with one review.
pub enum ReviewAction {
    /// Nothing, silently: an empty review, or one an earlier run sent.
    Pass,
    /// Counted as unmatched: no resolved film has its title and year.
    Unmatched,
    /// Counted as over the limit: an earlier note hit the account's limit.
    OverLimit,
    /// Counted as transferred without a request: a dry run.
    DryRun,
    /// A note is sent for these ids, recorded under this key.
    Send(MovieId, Seq<char>),
}

pub open spec fn review_action(
    r: ReviewEntry,
    films: Seq<ResolvedFilm>,
    state: Set<Seq<char>>,
    force: bool,
    hit_limit: bool,
    dry_run: bool,
) -> ReviewAction {
    if r.review@.len() == 0 {
        ReviewAction::Pass
    } else {
        match ids_for(films, r.name@, r.year) {
            None => ReviewAction::Unmatched,
            Some(ids) => {
                let key = l2t_key_text(ItemType::Review, ids.tmdb_id, r.name, r.year, review_date(r));
                if !force && state.contains(key) {
                    ReviewAction::Pass
                } else if hit_limit {
                    ReviewAction::OverLimit
                } else if dry_run {
                    ReviewAction::DryRun
                } else {
                    ReviewAction::Send(ids, key)
                }
            },
        }
    }
}

/// Once Trakt has said the account holds all the notes it may, no later
/// review of the pass is sent: each one that is neither passed over nor
/// unmatched is counted as over the limit. (`next` keeps the flag and
/// `settle` only ever sets it, so it stays set for the rest of the pass.)
pub proof fn law_note_limit_stops_the_pass(
    r: ReviewEntry,
    films: Seq<ResolvedFilm>,
    state: Set<Seq<char>>,
    force: bool,
    dry_run: bool,
)
    ensures
        !(review_action(r, films, state, force, true, dry_run) is Send),
        !(review_action(r, films, state, force, true, dry_run) is DryRun),
        review_action(r, films, state, force, true, dry_run) is Pass || review_action(
            r,
            films,
            state,
            force,
            true,
            dry_run,
        ) is Unmatched || review_action(r, films, state, force, true, dry_run) is OverLimit,
{
}

/// A note to create on Trakt, and the key to record once it exists.
pub struct NoteRequest {
    pub text: String,
    pub ids: MovieId,
    pub key: SyncKey,
}

/// `note creation failed: {error}`
pub open spec fn note_failure_text(error: Seq<char>) -> Seq<char> {
    "note creation failed: "@ + error
}

/// The running tally of the review pass.
pub struct ReviewTally {
    pub transferred: u32,
    pub skipped_over_limit: u32,
    pub skipped_unmatched: u32,
    /// Set once Trakt says the account holds all the notes it may; no note
    /// is sent after that.
    pub hit_limit: bool,
    pub errored: Vec<ErroredItem>,
}

impl ReviewTally {
    pub fn new() -> (res: Self)
        ensures
            res.transferred == 0,
            res.skipped_over_limit == 0,
            res.skipped_unmatched == 0,
            !res.hit_limit,
            res.errored@.len() == 0,
    {
        ReviewTally {
            transferred: 0,
            skipped_over_limit: 0,
            skipped_unmatched: 0,
            hit_limit: false,
            errored: Vec::new(),
        }
    }

    /// Takes the next review: counts it, or hands back the note to send.
    pub fn next(
        &mut self,
        r: &ReviewEntry,
        index: &IdIndex,
        state: &SyncState,
        force: bool,
        dry_run: bool,
    ) -> (res: Option<NoteRequest>)
        requires
            index.wf(),
            state.wf(),
            old(self).transferred < u32::MAX,
            old(self).skipped_over_limit < u32::MAX,
            old(self).skipped_unmatched < u32::MAX,
        ensures
            final(self).hit_limit == old(self).hit_limit,
            final(self).errored == old(self).errored,
            ({
                let a = review_action(
                    *r,
                    index.resolved(),
                    state.view(),
                    force,
                    old(self).hit_limit,
                    dry_run,
                );
                &&& final(self).skipped_unmatched == old(self).skipped_unmatched + (if a is Unmatched {
                    1int
                } else {
                    0int
                })
                &&& final(self).skipped_over_limit == old(self).skipped_over_limit + (
                if a is OverLimit {
                    1int
                } else {
                    0int
                })
                &&& final(self).transferred == old(self).transferred + (if a is DryRun {
                    1int
                } else {
                    0int
                })
                &&& match a {
                    ReviewAction::Send(ids, key) => res matches Some(q) && q.text@ == r.review@
                        && q.ids == ids && q.key.key_view() == key,
                    _ => res is None,
                }
            }),
    {
        if r.review.as_str().is_empty() {
            return None;
        }
        match index.lookup(r.name.as_str(), r.year) {
            None => {
                self.skipped_unmatched = self.skipped_unmatched + 1;
                None
            },
            Some(ids) => {
                let date = if r.watched_date.as_str().is_empty() {
                    r.logged_date.clone()
                } else {
                    r.watched_date.clone()
                };
                let key = l2t_key(ItemType::Review, ids.tmdb_id, &r.name, r.year, date.as_str());
                if !force && state.contains(&key) {
                    None
                } else if self.hit_limit {
                    self.skipped_over_limit = self.skipped_over_limit + 1;
                    None
                } else if dry_run {
                    self.transferred = self.transferred + 1;
                    None
                } else {
                    Some(NoteRequest { text: r.review.clone(), ids, key })
                }
            },
        }
    }

    /// Takes Trakt's answer to a note request: a created note is recorded
    /// and counted; the limit stops every later note; an error is listed
    /// against the film.
    pub fn settle(
        &mut self,
        r: &ReviewEntry,
        request: NoteRequest,
        reply: Result<CreateNoteResult, String>,
        state: &mut SyncState,
    )
        requires
            old(state).wf(),
            old(self).transferred < u32::MAX,
            old(self).skipped_over_limit < u32::MAX,
        ensures
            final(state).wf(),
            match reply {
                Ok(CreateNoteResult::Created) => {
                    &&& final(state).view() == old(state).view().insert(request.key.key_view())
                    &&& final(self).transferred == old(self).transferred + 1
                    &&& final(self).skipped_over_limit == old(self).skipped_over_limit
                    &&& final(self).hit_limit == old(self).hit_limit
                    &&& final(self).errored == old(self).errored
                },
                Ok(CreateNoteResult::OverLimit) => {
                    &&& final(state).view() == old(state).view()
                    &&& final(self).transferred == old(self).transferred
                    &&& final(self).skipped_over_limit == old(self).skipped_over_limit + 1
                    &&& final(self).hit_limit
                    &&& final(self).errored == old(self).errored
                },
                Err(e) => {
                    &&& final(state).view() == old(state).view()
                    &&& final(self).transferred == old(self).transferred
                    &&& final(self).skipped_over_limit == old(self).skipped_over_limit
                    &&& final(self).hit_limit == old(self).hit_limit
                    &&& final(self).errored@.len() == old(self).errored@.len() + 1
                    &&& final(self).errored@.take(old(self).errored@.len() as int)
                        == old(self).errored@
                    &&& final(self).errored@.last().title == r.name
                    &&& final(self).errored@.last().year == r.year
                    &&& final(self).errored@.last().reason@ == note_failure_text(e@)
                },
            },
            final(self).skipped_unmatched == old(self).skipped_unmatched,
    {
        match reply {
            Ok(CreateNoteResult::Created) => {
                state.mark(request.key);
                self.transferred = self.transferred + 1;
            },
            Ok(CreateNoteResult::OverLimit) => {
                self.hit_limit = true;
                self.skipped_over_limit = self.skipped_over_limit + 1;
            },
            Err(e) => {
                let mut reason = String::new();
                reason.append("note creation failed: ");
                reason.append(e.as_str());
                proof {
                    reveal_strlit("note creation failed: ");
                }
                let ghost before = self.errored@;
                self.errored.push(ErroredItem { title: r.name.clone(), year: r.year, reason });
                proof {
                    assert(self.errored@.take(before.len() as int) =~= before);
                }
            },
        }
    }
}


// ---------------------------------------------------------------------------
// Inputs read from Trakt
// ---------------------------------------------------------------------------

/// The TMDB ids of Trakt's watched history (plays without one are left
/// out).
pub open spec fn play_ids(plays: Seq<TraktPlay>) -> Set<u64>
    decreases plays.len(),
{
    if plays.len() == 0 {
        Set::empty()
    } else {
        match plays.last().movie.tmdb_id {
            Some(t) => play_ids(plays.drop_last()).insert(t),
            None => play_ids(plays.drop_last()),
        }
    }
}

pub fn watched_tmdb_ids(plays: &Vec<TraktPlay>) -> (res: HashSet<u64>)
    ensures
        res@ == play_ids(plays@),
{
    let mut out: HashSet<u64> = HashSet::new();
    let mut k: usize = 0;
    while k < plays.len()
        invariant
            k <= plays.len(),
            out@ == play_ids(plays@.take(k as int)),
        decreases plays.len() - k,
    {
        proof {
            assert(plays@.take(k + 1).drop_last() =~= plays@.take(k as int));
        }
        match plays[k].movie.tmdb_id {
            Some(t) => {
                out.insert(t);
            },
            None => {},
        }
        k = k + 1;
    }
    proof {
        assert(plays@.take(k as int) =~= plays@);
    }
    out
}

/// The near-year warnings of the resolved films, in order.
pub open spec fn warnings_of(films: Seq<ResolvedFilm>) -> Seq<Seq<char>>
    decreases films.len(),
{
    if films.len() == 0 {
        Seq::empty()
    } else {
        match films.last().year_tolerance_warning {
            Some(w) => warnings_of(films.drop_last()).push(w@),
            None => warnings_of(films.drop_last()),
        }
    }
}

pub fn tolerance_warnings(films: &Vec<ResolvedFilm>) -> (res: Vec<String>)
    ensures
        res@.map_values(|w: String| w@) == warnings_of(films@),
{
    let mut out: Vec<String> = Vec::new();
    let mut k: usize = 0;
    while k < films.len()
        invariant
            k <= films.len(),
            out@.map_values(|w: String| w@) == warnings_of(films@.take(k as int)),
        decreases films.len() - k,
    {
        proof {
            assert(films@.take(k + 1).drop_last() =~= films@.take(k as int));
        }
        match &films[k].year_tolerance_warning {
            Some(w) => {
                let ghost before = out@;
                out.push(w.clone());
                proof {
                    assert(out@.map_values(|w: String| w@) =~= before.map_values(|w: String| w@).push(w@));
                }
            },
            None => {},
        }
        k = k + 1;
    }
    proof {
        assert(films@.take(k as int) =~= films@);
    }
    out
}


// ---------------------------------------------------------------------------
// The write phase
// ---------------------------------------------------------------------------

/// One of the three writes of a run, in the order they are made.
pub enum Batch {
    History,
    Ratings,
    Watchlist,
}

impl Batch {
    /// The position of the batch: 0, 1 or 2.
    pub open spec fn index(&self) -> int {
        match self {
            Batch::History => 0,
            Batch::Ratings => 1,
            Batch::Watchlist => 2,
        }
    }

    /// How many batches are behind once this one is posted.
    pub fn done_after(&self) -> (res: u8)
        ensures
            res == self.index() + 1,
    {
        match self {
            Batch::History => 1,
            Batch::Ratings => 2,
            Batch::Watchlist => 3,
        }
    }
}

/// What the write phase does next.
pub enum WriteAction {
    /// Post this batch to Trakt.
    Post(Batch),
    /// Save the record of what was written.
    Save,
    /// Nothing is left to do.
    Finish,
}

/// The batch at position `i`.
pub open spec fn batch_at(i: int) -> Batch {
    if i == 0 {
        Batch::History
    } else if i == 1 {
        Batch::Ratings
    } else {
        Batch::Watchlist
    }
}

/// The size of the batch at position `i`.
pub open spec fn size_at(sizes: (usize, usize, usize), i: int) -> int {
    if i == 0 {
        sizes.0 as int
    } else if i == 1 {
        sizes.1 as int
    } else {
        sizes.2 as int
    }
}

/// The first non-empty batch at position `from` or later, if any.
pub open spec fn next_batch(sizes: (usize, usize, usize), from: int) -> Option<int>
    decreases 3 - from,
{
    if from >= 3 {
        None
    } else if size_at(sizes, from) > 0 {
        Some(from)
    } else {
        next_batch(sizes, from + 1)
    }
}

/// The next step of the write phase: nothing on a dry run; else the next
/// non-empty batch; else one save of the record; then the end.
pub open spec fn write_decision(
    sizes: (usize, usize, usize),
    dry_run: bool,
    done: int,
    saved: bool,
) -> WriteAction {
    if dry_run {
        WriteAction::Finish
    } else {
        match next_batch(sizes, done) {
            Some(i) => WriteAction::Post(batch_at(i)),
            None => if saved {
                WriteAction::Finish
            } else {
                WriteAction::Save
            },
        }
    }
}

/// Decides the next step of the write phase, from the sizes of the history,
/// ratings and watchlist batches, whether this is a dry run, how many
/// batches are behind, and whether the record was saved. A dry run posts
/// and saves nothing; otherwise the non-empty batches are posted in order,
/// then the record is saved once, after the last of them.
pub fn write_step(sizes: (usize, usize, usize), dry_run: bool, done: u8, saved: bool) -> (res:
    WriteAction)
    requires
        done <= 3,
    ensures
        res == write_decision(sizes, dry_run, done as int, saved),
        dry_run ==> res is Finish,
        !dry_run ==> match next_batch(sizes, done as int) {
            Some(i) => res == WriteAction::Post(batch_at(i)),
            None => if saved {
                res is Finish
            } else {
                res is Save
            },
        },
{
    if dry_run {
        return WriteAction::Finish;
    }
    if done == 0 && sizes.0 > 0 {
        WriteAction::Post(Batch::History)
    } else if done <= 1 && sizes.1 > 0 {
        proof {
            if done == 0 {
                assert(next_batch(sizes, 0) == next_batch(sizes, 1));
            }
        }
        WriteAction::Post(Batch::Ratings)
    } else if done <= 2 && sizes.2 > 0 {
        proof {
            if done == 0 {
                assert(next_batch(sizes, 0) == next_batch(sizes, 1));
            }
            if done <= 1 {
                assert(next_batch(sizes, 1) == next_batch(sizes, 2));
            }
        }
        WriteAction::Post(Batch::Watchlist)
    } else {
        proof {
            assert(next_batch(sizes, 3) is None);
            if done <= 2 {
                assert(next_batch(sizes, 2) is None);
            }
            if done <= 1 {
                assert(next_batch(sizes, 1) is None);
            }
        }
        if saved {
            WriteAction::Finish
        } else {
            WriteAction::Save
        }
    }
}

/// Takes Trakt's answer to a posted batch: on success the batch's keys are
/// recorded and the number Trakt added is returned; on failure the record is
/// left as it was and the error is returned.
pub fn settle_batch(
    state: &mut SyncState,
    keys: Vec<SyncKey>,
    reply: Result<WriteSummary, String>,
) -> (res: Result<u32, String>)
    requires
        old(state).wf(),
    ensures
        final(state).wf(),
        match reply {
            Ok(s) => {
                &&& res == Ok::<u32, String>(s.added)
                &&& final(state).view() == old(state).view().union(
                    keys@.map_values(|k: SyncKey| k.key_view()).to_set(),
                )
            },
            Err(e) => res == Err::<u32, String>(e) && final(state).view() == old(state).view(),
        },
{
    match reply {
        Ok(s) => {
            state.mark_all(keys);
            Ok(s.added)
        },
        Err(e) => Err(e),
    }
}

impl ReviewTally {
    /// Whether the record is saved after the review pass: on a real run
    /// that created at least one note.
    pub fn needs_save(&self, dry_run: bool) -> (res: bool)
        ensures
            res == (!dry_run && self.transferred > 0),
    {
        !dry_run && self.transferred > 0
    }
}

proof fn lemma_next_batch(sizes: (usize, usize, usize), from: int)
    requires
        0 <= from <= 3,
    ensures
        next_batch(sizes, from) is None ==> forall|i: int| from <= i < 3 ==> size_at(sizes, i) == 0,
        next_batch(sizes, from) matches Some(j) ==> {
            &&& from <= j < 3
            &&& size_at(sizes, j) > 0
            &&& forall|i: int| from <= i < j ==> size_at(sizes, i) == 0
        },
    decreases 3 - from,
{
    if from < 3 {
        lemma_next_batch(sizes, from + 1);
    }
}

/// A dry run writes nothing and records nothing: the write phase finishes at
/// once, without posting a batch or saving the record, and no review
/// becomes a note.
pub proof fn law_dry_run_writes_nothing(
    sizes: (usize, usize, usize),
    done: int,
    saved: bool,
    r: ReviewEntry,
    films: Seq<ResolvedFilm>,
    state: Set<Seq<char>>,
    force: bool,
    hit_limit: bool,
)
    ensures
        write_decision(sizes, true, done, saved) is Finish,
        !(review_action(r, films, state, force, hit_limit, true) is Send),
{
}

/// The batches go out in order and each only once: the phase posts the
/// first non-empty batch not yet behind it, and asks for the save only when
/// every non-empty batch is behind it (each was posted and settled, as the
/// loop moves past a batch only once Trakt accepted it) and the record is
/// not yet saved.
pub proof fn law_save_only_after_every_batch(
    sizes: (usize, usize, usize),
    done: int,
    saved: bool,
)
    requires
        0 <= done <= 3,
    ensures
        write_decision(sizes, false, done, saved) is Save ==> !saved && forall|i: int|
            done <= i < 3 ==> size_at(sizes, i) == 0,
        write_decision(sizes, false, done, saved) matches WriteAction::Post(b) ==> {
            &&& done <= b.index() < 3
            &&& size_at(sizes, b.index()) > 0
            &&& forall|i: int| done <= i < b.index() ==> size_at(sizes, i) == 0
        },
        write_decision(sizes, false, done, saved) is Finish ==> saved,
{
    lemma_next_batch(sizes, done);
}

/// A film that Trakt's watched history already holds is counted as already
/// on Trakt, whatever the record of earlier runs holds and with or without
/// `--force`: it is never written and never counted as already synced or as
/// a bulk-day entry. This holds for a diary entry, and for a watched.csv
/// entry the diary does not already cover.
pub proof fn law_on_trakt_is_counted_only_there(
    d: DiaryEntry,
    w: WatchedEntry,
    diary: Seq<DiaryEntry>,
    watched: Seq<WatchedEntry>,
    films: Seq<ResolvedFilm>,
    watched_ids: Set<u64>,
    state: Set<Seq<char>>,
    force: bool,
)
    ensures
        (ids_for(films, d.name@, d.year) matches Some(ids) && watched_on_trakt(ids, watched_ids))
            ==> diary_verdict(d, films, watched_ids, state, force) is OnTrakt,
        !in_diary(diary, w.slug@) ==> ((ids_for(films, w.name@, w.year) matches Some(ids)
            && watched_on_trakt(ids, watched_ids)) ==> watched_verdict(
            w,
            diary,
            watched,
            films,
            watched_ids,
            state,
            force,
        ) is OnTrakt),
{
}

/// How many of the reviews count as over the limit once the limit is hit.
pub open spec fn over_limit_count(
    rs: Seq<ReviewEntry>,
    films: Seq<ResolvedFilm>,
    state: Set<Seq<char>>,
    force: bool,
    dry_run: bool,
) -> nat
    decreases rs.len(),
{
    if rs.len() == 0 {
        0
    } else {
        over_limit_count(rs.drop_last(), films, state, force, dry_run) + if review_action(
            rs.last(),
            films,
            state,
            force,
            true,
            dry_run,
        ) is OverLimit {
            1nat
        } else {
            0nat
        }
    }
}

/// Once Trakt refuses a note for the limit, every later review of the pass
/// that has text, names a matched film and is not already recorded counts
/// as over the limit: with all `n` of them such, the count is `n` and no
/// note is sent.
pub proof fn law_over_limit_counts_every_later_review(
    rs: Seq<ReviewEntry>,
    films: Seq<ResolvedFilm>,
    state: Set<Seq<char>>,
    force: bool,
    dry_run: bool,
)
    requires
        forall|k: int|
            0 <= k < rs.len() ==> {
                &&& (#[trigger] rs[k]).review@.len() > 0
                &&& ids_for(films, rs[k].name@, rs[k].year) matches Some(ids)
                &&& (force || !state.contains(
                    l2t_key_text(ItemType::Review, ids.tmdb_id, rs[k].name, rs[k].year, review_date(rs[k])),
                ))
            },
    ensures
        over_limit_count(rs, films, state, force, dry_run) == rs.len(),
        forall|k: int|
            0 <= k < rs.len() ==> !(review_action(#[trigger] rs[k], films, state, force, true, dry_run) is Send),
    decreases rs.len(),
{
    if rs.len() > 0 {
        let rest = rs.drop_last();
        assert forall|k: int| 0 <= k < rest.len() implies {
            &&& (#[trigger] rest[k]).review@.len() > 0
            &&& ids_for(films, rest[k].name@, rest[k].year) matches Some(ids)
            &&& (force || !state.contains(
                l2t_key_text(ItemType::Review, ids.tmdb_id, rest[k].name, rest[k].year, review_date(rest[k])),
            ))
        } by {
            assert(rest[k] == rs[k]);
        }
        law_over_limit_counts_every_later_review(rest, films, state, force, dry_run);
        assert(rs[rs.len() - 1] == rs.last());
    }
}

} // verus!
