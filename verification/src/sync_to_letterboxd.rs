//! Trakt → Letterboxd: choosing which Trakt films become diary rows.
//!
//! Trakt's watched history is first cut down to the plays no earlier run
//! exported. With the user's Letterboxd export at hand, each remaining play
//! is then put in one bucket by what Letterboxd already knows of the film
//! and by whether its watch day was a bulk-add day.
use vstd::prelude::*;
use std::collections::HashMap;
use crate::constants::BULK_DATE_THRESHOLD;
use crate::letterboxd_export::LetterboxdExport;
use crate::letterboxd_export::{DiaryEntry, WatchedEntry};
use crate::letterboxd_import::{date_part, lemma_ratings_by_id, rating_map, ratings_by_id, truncate_to_date};
use crate::sync_state::{starts_with, Direction, ItemRef, ItemType, SyncKey, SyncState};
use crate::text::{chars_of, lowercase, string_of, to_lowercase};
use crate::trakt_read::{MovieRecord, RatedMovie, WatchedMovie, WatchlistMovie};

verus! {

broadcast use vstd::std_specs::hash::group_hash_axioms;

pub struct ErroredItem {
    pub title: String,
    pub year: u32,
    pub reason: String,
}

pub struct SyncSummary {
    pub diary_rows: u32,
    pub ratings_in_diary: u32,
    pub distinct_ratings: u32,
    pub watchlist_rows: u32,
    pub skipped: u32,
    pub dry_run: bool,
    pub reviews_in_diary: u32,
    pub errored: Vec<ErroredItem>,
    /// Films date-enriched from Trakt (was dateless on LB, clean watch day).
    pub enriched: u32,
    /// Films already dated on LB — skipped to avoid duplicate diary entries.
    pub skipped_existing: u32,
    /// Films dateless on LB on a bulk-date day — skipped to avoid planting junk dates.
    pub skipped_bulk: u32,
    /// Net-new films on a bulk-date day — emitted with a blank WatchedDate.
    pub net_new_bulk: u32,
}

// ---------------------------------------------------------------------------
// Titles
// ---------------------------------------------------------------------------

/// A lowercase title without its leading article: the first of `the `,
/// `a `, `an ` that opens it is cut.
pub open spec fn strip_article(s: Seq<char>) -> Seq<char> {
    if starts_with(s, seq!['t', 'h', 'e', ' ']) {
        s.skip(4)
    } else if starts_with(s, seq!['a', ' ']) {
        s.skip(2)
    } else if starts_with(s, seq!['a', 'n', ' ']) {
        s.skip(3)
    } else {
        s
    }
}

/// A title as it is compared across the two services.
pub open spec fn normalized_title(s: Seq<char>) -> Seq<char> {
    strip_article(lowercase(s))
}

fn tail_string(cs: &Vec<char>, from: usize) -> (res: String)
    requires
        from <= cs.len(),
    ensures
        res@ == cs@.skip(from as int),
{
    let mut rest: Vec<char> = Vec::new();
    let mut k: usize = from;
    while k < cs.len()
        invariant
            from <= k <= cs.len(),
            rest@ == cs@.subrange(from as int, k as int),
        decreases cs.len() - k,
    {
        rest.push(cs[k]);
        proof {
            assert(cs@.subrange(from as int, k + 1) =~= cs@.subrange(from as int, k as int).push(
                cs@[k as int],
            ));
        }
        k = k + 1;
    }
    proof {
        assert(cs@.subrange(from as int, cs.len() as int) =~= cs@.skip(from as int));
    }
    string_of(&rest)
}

/// Normalise a title for fuzzy matching: lowercase, strip leading articles.
#[verifier::spinoff_prover]
pub fn normalize_title(s: &str) -> (res: String)
    ensures
        res@ == normalized_title(s@),
{
    let lower = to_lowercase(s);
    let cs = chars_of(lower.as_str());
    proof {
        assert(cs@ == lowercase(s@));
    }
    if cs.len() >= 4 && cs[0] == 't' && cs[1] == 'h' && cs[2] == 'e' && cs[3] == ' ' {
        proof {
            assert(cs@.take(4) =~= seq!['t', 'h', 'e', ' ']);
        }
        return tail_string(&cs, 4);
    }
    proof {
        if starts_with(cs@, seq!['t', 'h', 'e', ' ']) {
            assert(cs@.take(4)[0] == 't');
            assert(cs@.take(4)[3] == ' ');
            assert(cs@.take(4)[1] == 'h');
            assert(cs@.take(4)[2] == 'e');
        }
    }
    if cs.len() >= 2 && cs[0] == 'a' && cs[1] == ' ' {
        proof {
            assert(cs@.take(2) =~= seq!['a', ' ']);
        }
        return tail_string(&cs, 2);
    }
    proof {
        if starts_with(cs@, seq!['a', ' ']) {
            assert(cs@.take(2)[0] == 'a');
            assert(cs@.take(2)[1] == ' ');
        }
    }
    if cs.len() >= 3 && cs[0] == 'a' && cs[1] == 'n' && cs[2] == ' ' {
        proof {
            assert(cs@.take(3) =~= seq!['a', 'n', ' ']);
        }
        return tail_string(&cs, 3);
    }
    proof {
        if starts_with(cs@, seq!['a', 'n', ' ']) {
            assert(cs@.take(3)[0] == 'a');
            assert(cs@.take(3)[1] == 'n');
            assert(cs@.take(3)[2] == ' ');
        }
    }
    lower
}

// ---------------------------------------------------------------------------
// Keys of what this direction has exported
// ---------------------------------------------------------------------------

/// How a Trakt film is named in a key: by its TMDB id when it has one, else
/// by its title and its year (0 when Trakt gives none) cut to `u16`.
pub open spec fn record_ref(m: MovieRecord) -> ItemRef {
    match m.tmdb_id {
        Some(id) => ItemRef::Tmdb(id),
        None => ItemRef::TitleYear(
            m.title,
            (match m.year {
                Some(y) => y,
                None => 0,
            }) as u16,
        ),
    }
}

/// The key of an exported play: the film and the day it was watched.
pub open spec fn play_key_text(w: WatchedMovie) -> Seq<char> {
    Direction::TraktToLetterboxd.tag() + "|"@ + ItemType::Watched.tag() + "|"@ + record_ref(
        w.movie,
    ).segment() + "|"@ + date_part(w.watched_at@)
}

/// The key of an exported watchlist film (no date).
pub open spec fn listed_key_text(w: WatchlistMovie) -> Seq<char> {
    Direction::TraktToLetterboxd.tag() + "|"@ + ItemType::Watchlist.tag() + "|"@ + record_ref(
        w.movie,
    ).segment() + "|"@
}

fn item_ref(m: &MovieRecord) -> (res: ItemRef)
    ensures
        res == record_ref(*m),
{
    match m.tmdb_id {
        Some(id) => ItemRef::Tmdb(id),
        None => {
            let y = match m.year {
                Some(y) => y,
                None => 0,
            };
            #[verifier::truncate]
            let short = y as u16;
            ItemRef::TitleYear(m.title.clone(), short)
        },
    }
}

/// The key recording that a play was exported.
pub fn watched_key(entry: &WatchedMovie) -> (res: SyncKey)
    ensures
        res.key_view() == play_key_text(*entry),
{
    let date = truncate_to_date(entry.watched_at.as_str());
    SyncKey::new(Direction::TraktToLetterboxd, ItemType::Watched, item_ref(&entry.movie), date.as_str())
}

/// The key recording that a watchlist film was exported.
pub fn watchlist_entry_key(entry: &WatchlistMovie) -> (res: SyncKey)
    ensures
        res.key_view() == listed_key_text(*entry),
{
    proof {
        reveal_strlit("");
    }
    let k = SyncKey::new(Direction::TraktToLetterboxd, ItemType::Watchlist, item_ref(&entry.movie), "");
    proof {
        assert(k.key_view() =~= listed_key_text(*entry));
    }
    k
}

// ---------------------------------------------------------------------------
// Bulk-add days
// ---------------------------------------------------------------------------

/// How many plays of the history fall on `day`.
pub open spec fn plays_on(history: Seq<WatchedMovie>, day: Seq<char>) -> nat
    decreases history.len(),
{
    if history.len() == 0 {
        0
    } else {
        plays_on(history.drop_last(), day) + (if date_part(history.last().watched_at@) == day {
            1nat
        } else {
            0nat
        })
    }
}

/// A day with at least `BULK_DATE_THRESHOLD` plays: a bulk add, not a day
/// of actual viewing.
pub open spec fn busy_day(history: Seq<WatchedMovie>, day: Seq<char>) -> bool {
    plays_on(history, day) >= BULK_DATE_THRESHOLD
}

/// The days of the plays, one per play, in order.
pub open spec fn play_days(history: Seq<WatchedMovie>) -> Seq<Seq<char>> {
    history.map_values(|w: WatchedMovie| date_part(w.watched_at@))
}

fn count_day(days: &Vec<String>, day: &String, Ghost(history): Ghost<Seq<WatchedMovie>>) -> (res:
    usize)
    requires
        days@.map_values(|d: String| d@) == play_days(history),
    ensures
        res == plays_on(history, day@),
{
    let mut n: usize = 0;
    let mut k: usize = 0;
    proof {
        assert(days@.map_values(|d: String| d@).len() == days@.len());
        assert(play_days(history).len() == history.len());
    }
    while k < days.len()
        invariant
            k <= days.len(),
            days.len() == history.len(),
            days@.map_values(|d: String| d@) == play_days(history),
            n == plays_on(history.take(k as int), day@),
            n <= k,
        decreases days.len() - k,
    {
        proof {
            assert(history.take(k + 1).drop_last() =~= history.take(k as int));
            assert(days@[k as int]@ == play_days(history)[k as int]);
        }
        if days[k] == *day {
            n = n + 1;
        }
        k = k + 1;
    }
    proof {
        assert(history.take(days.len() as int) =~= history);
    }
    n
}

// ---------------------------------------------------------------------------
// What Letterboxd already holds
// ---------------------------------------------------------------------------

/// Each film of the export as (normalised title, year, has a watch date):
/// diary entries, then watched.csv entries, which never carry one.
pub open spec fn library_marks(e: LetterboxdExport) -> Seq<(Seq<char>, u32, bool)> {
    e.diary@.map_values(
        |d: DiaryEntry| (normalized_title(d.name@), d.year, d.watched_date@.len() > 0),
    ) + e.watched@.map_values(|w: WatchedEntry| (normalized_title(w.name@), w.year, false))
}

/// What Letterboxd knows of a film.
pub enum LbStatus {
    /// Logged with a watch date.
    Dated,
    /// Known, but never with a watch date.
    Dateless,
}

/// The status of (title, year) in a library: dated when any entry of it has
/// a watch date, dateless when it is there without one, none when absent.
pub open spec fn lb_status(marks: Seq<(Seq<char>, u32, bool)>, title: Seq<char>, year: u32) -> Option<
    LbStatus,
> {
    if exists|i: int| 0 <= i < marks.len() && (#[trigger] marks[i]) == (title, year, true) {
        Some(LbStatus::Dated)
    } else if exists|i: int|
        0 <= i < marks.len() && (#[trigger] marks[i]).0 == title && marks[i].1 == year {
        Some(LbStatus::Dateless)
    } else {
        None
    }
}

/// A film is dated in the library as soon as one of its entries carries a
/// watch date, whatever its other entries say; it is dateless when it has
/// entries and none carries a date; it is unknown without entries.
pub proof fn law_dated_entry_wins(
    marks: Seq<(Seq<char>, u32, bool)>,
    title: Seq<char>,
    year: u32,
    i: int,
)
    ensures
        (0 <= i < marks.len() && marks[i].0 == title && marks[i].1 == year && marks[i].2)
            ==> lb_status(marks, title, year) == Some(LbStatus::Dated),
        (0 <= i < marks.len() && marks[i].0 == title && marks[i].1 == year && (forall|k: int|
            0 <= k < marks.len() && (#[trigger] marks[k]).0 == title && marks[k].1 == year
                ==> !marks[k].2)) ==> lb_status(marks, title, year) == Some(LbStatus::Dateless),
        (forall|k: int|
            0 <= k < marks.len() ==> !((#[trigger] marks[k]).0 == title && marks[k].1 == year))
            ==> lb_status(marks, title, year) is None,
{
    if 0 <= i < marks.len() && marks[i].0 == title && marks[i].1 == year && marks[i].2 {
        assert(marks[i] == (title, year, true));
    }
    if 0 <= i < marks.len() && marks[i].0 == title && marks[i].1 == year {
        assert(marks[i].0 == title);
    }
}

/// A film the export's diary logs with a watch date is dated in the library
/// built from that export, even when watched.csv (or an undated diary row)
/// lists the same film too.
pub proof fn law_diary_watch_date_makes_film_dated(e: LetterboxdExport, k: int)
    requires
        0 <= k < e.diary@.len(),
        e.diary@[k].watched_date@.len() > 0,
    ensures
        lb_status(library_marks(e), normalized_title(e.diary@[k].name@), e.diary@[k].year) == Some(
            LbStatus::Dated,
        ),
{
    let m = library_marks(e);
    assert(m[k] == (normalized_title(e.diary@[k].name@), e.diary@[k].year, true));
    law_dated_entry_wins(m, normalized_title(e.diary@[k].name@), e.diary@[k].year, k);
}

/// The user's Letterboxd library, by normalised title and year.
pub struct LbLibrary {
    titles: Vec<String>,
    years: Vec<u32>,
    dated: Vec<bool>,
}

impl LbLibrary {
    pub closed spec fn marks(&self) -> Seq<(Seq<char>, u32, bool)> {
        Seq::new(self.titles.len() as nat, |i: int| (self.titles@[i]@, self.years@[i], self.dated@[i]))
    }

    pub closed spec fn wf(&self) -> bool {
        self.years.len() == self.titles.len() && self.dated.len() == self.titles.len()
    }

    /// The library of a parsed export.
    #[verifier::spinoff_prover]
    pub fn from_export(e: &LetterboxdExport) -> (res: Self)
        ensures
            res.wf(),
            res.marks() == library_marks(*e),
    {
        let mut titles: Vec<String> = Vec::new();
        let mut years: Vec<u32> = Vec::new();
        let mut dated: Vec<bool> = Vec::new();
        let ghost d = e.diary@.map_values(
            |d: DiaryEntry| (normalized_title(d.name@), d.year, d.watched_date@.len() > 0),
        );
        let ghost w = e.watched@.map_values(|w: WatchedEntry| (normalized_title(w.name@), w.year, false));
        let mut k: usize = 0;
        while k < e.diary.len()
            invariant
                k <= e.diary.len(),
                titles.len() == k,
                years.len() == k,
                dated.len() == k,
                d == e.diary@.map_values(
                    |d: DiaryEntry| (normalized_title(d.name@), d.year, d.watched_date@.len() > 0),
                ),
                forall|i: int|
                    0 <= i < k ==> (titles@[i]@, years@[i], dated@[i]) == #[trigger] d[i],
            decreases e.diary.len() - k,
        {
            titles.push(normalize_title(e.diary[k].name.as_str()));
            years.push(e.diary[k].year);
            dated.push(!e.diary[k].watched_date.as_str().is_empty());
            k = k + 1;
        }
        let mut j: usize = 0;
        let n = e.diary.len();
        while j < e.watched.len()
            invariant
                j <= e.watched.len(),
                n == d.len(),
                titles.len() == n + j,
                years.len() == n + j,
                dated.len() == n + j,
                w == e.watched@.map_values(
                    |w: WatchedEntry| (normalized_title(w.name@), w.year, false),
                ),
                forall|i: int| 0 <= i < n ==> (titles@[i]@, years@[i], dated@[i]) == #[trigger] d[i],
                forall|i: int|
                    0 <= i < j ==> (titles@[n + i]@, years@[n + i], dated@[n + i]) == #[trigger] w[i],
            decreases e.watched.len() - j,
        {
            titles.push(normalize_title(e.watched[j].name.as_str()));
            years.push(e.watched[j].year);
            dated.push(false);
            j = j + 1;
        }
        let lib = LbLibrary { titles, years, dated };
        proof {
            assert(lib.marks() =~= d + w) by {
                assert forall|i: int| 0 <= i < d.len() + w.len() implies lib.marks()[i] == (d
                    + w)[i] by {
                    if i >= n {
                        assert(w[i - n] == (lib.titles@[n + (i - n)]@, lib.years@[n + (i - n)], lib.dated@[n + (i - n)]));
                    } else {
                        assert(d[i] == (lib.titles@[i]@, lib.years@[i], lib.dated@[i]));
                    }
                }
            }
        }
        lib
    }

    /// What the library knows of (normalised title, year).
    pub fn status(&self, title: &String, year: u32) -> (res: Option<LbStatus>)
        requires
            self.wf(),
        ensures
            res == lb_status(self.marks(), title@, year),
    {
        let ghost m = self.marks();
        let mut seen = false;
        let mut k: usize = 0;
        while k < self.titles.len()
            invariant
                k <= self.titles.len(),
                self.wf(),
                m == self.marks(),
                seen <==> exists|i: int| 0 <= i < k && (#[trigger] m[i]).0 == title@ && m[i].1 == year,
                forall|i: int| 0 <= i < k ==> (#[trigger] m[i]) != (title@, year, true),
            decreases self.titles.len() - k,
        {
            proof {
                assert(m[k as int] == (self.titles@[k as int]@, self.years@[k as int], self.dated@[k as int]));
            }
            if self.titles[k] == *title && self.years[k] == year {
                if self.dated[k] {
                    proof {
                        assert(m[k as int] == (title@, year, true));
                    }
                    return Some(LbStatus::Dated);
                }
                seen = true;
            }
            k = k + 1;
        }
        if seen {
            Some(LbStatus::Dateless)
        } else {
            None
        }
    }
}

// ---------------------------------------------------------------------------
// Buckets
// ---------------------------------------------------------------------------

/// Where one play of Trakt's history ends up.
pub enum Bucket {
    /// An earlier run exported it: not exported again.
    Recorded,
    /// Letterboxd has the film with a date: no diary row, so no duplicate.
    SkippedExisting,
    /// Letterboxd has the film without a date, and the play's day was a bulk
    /// add: no diary row, so no junk date.
    SkippedBulk,
    /// Letterboxd has the film without a date: a row with Trakt's date.
    Enriched,
    /// New to Letterboxd, on a bulk-add day: a row with a blank date.
    NetNewBulk,
    /// New to Letterboxd (or no export given): a row with Trakt's date.
    NetNew,
}

/// The bucket of a play. `history` is the whole watched history (bulk days
/// are counted over all of it); `marks` is the Letterboxd library, when an
/// export was given.
pub open spec fn bucket(
    w: WatchedMovie,
    history: Seq<WatchedMovie>,
    marks: Option<Seq<(Seq<char>, u32, bool)>>,
    state: Set<Seq<char>>,
) -> Bucket {
    if state.contains(play_key_text(w)) {
        Bucket::Recorded
    } else {
        match marks {
            None => Bucket::NetNew,
            Some(ms) => {
                let bulk = busy_day(history, date_part(w.watched_at@));
                let year = match w.movie.year {
                    Some(y) => y,
                    None => 0,
                };
                match lb_status(ms, normalized_title(w.movie.title@), year) {
                    Some(LbStatus::Dated) => Bucket::SkippedExisting,
                    Some(LbStatus::Dateless) => if bulk {
                        Bucket::SkippedBulk
                    } else {
                        Bucket::Enriched
                    },
                    None => if bulk {
                        Bucket::NetNewBulk
                    } else {
                        Bucket::NetNew
                    },
                }
            },
        }
    }
}

/// Whether a bucket gives a diary row.
pub open spec fn emits(b: Bucket) -> bool {
    b is Enriched || b is NetNewBulk || b is NetNew
}

pub open spec fn buckets(
    ws: Seq<WatchedMovie>,
    history: Seq<WatchedMovie>,
    marks: Option<Seq<(Seq<char>, u32, bool)>>,
    state: Set<Seq<char>>,
) -> Seq<Bucket>
    decreases ws.len(),
{
    if ws.len() == 0 {
        Seq::empty()
    } else {
        buckets(ws.drop_last(), history, marks, state).push(
            bucket(ws.last(), history, marks, state),
        )
    }
}

/// The diary rows of a run, in history order: each play whose bucket gives
/// a row, with a blank date exactly for net-new plays on bulk-add days.
pub open spec fn diary_picks(
    ws: Seq<WatchedMovie>,
    history: Seq<WatchedMovie>,
    marks: Option<Seq<(Seq<char>, u32, bool)>>,
    state: Set<Seq<char>>,
) -> Seq<(WatchedMovie, bool)>
    decreases ws.len(),
{
    if ws.len() == 0 {
        Seq::empty()
    } else {
        let before = diary_picks(ws.drop_last(), history, marks, state);
        let b = bucket(ws.last(), history, marks, state);
        if emits(b) {
            before.push((ws.last(), b is NetNewBulk))
        } else {
            before
        }
    }
}

/// How many buckets satisfy `p`.
pub open spec fn bucket_tally(bs: Seq<Bucket>, p: spec_fn(Bucket) -> bool) -> nat
    decreases bs.len(),
{
    if bs.len() == 0 {
        0
    } else {
        bucket_tally(bs.drop_last(), p) + (if p(bs.last()) {
            1nat
        } else {
            0nat
        })
    }
}

proof fn lemma_bucket_tally_bound(bs: Seq<Bucket>, p: spec_fn(Bucket) -> bool)
    ensures
        bucket_tally(bs, p) <= bs.len(),
    decreases bs.len(),
{
    if bs.len() > 0 {
        lemma_bucket_tally_bound(bs.drop_last(), p);
    }
}

/// The diary export of a run: the rows (a play, and `Some("")` for a blank
/// date), the keys to record once the files are written, and the counts.
pub struct DiaryPlan<'a> {
    pub entries: Vec<(&'a WatchedMovie, Option<&'static str>)>,
    pub keys: Vec<SyncKey>,
    /// Plays an earlier run exported.
    pub skipped: u32,
    pub enriched: u32,
    pub skipped_existing: u32,
    pub skipped_bulk: u32,
    pub net_new_bulk: u32,
}

/// `p` is the plan for the buckets `bs` with rows `picks`.
pub open spec fn diary_plan_is(p: DiaryPlan, bs: Seq<Bucket>, picks: Seq<(WatchedMovie, bool)>) -> bool {
    &&& p.entries.len() == picks.len()
    &&& p.keys.len() == picks.len()
    &&& forall|k: int|
        0 <= k < picks.len() ==> {
            &&& *(#[trigger] p.entries@[k]).0 == picks[k].0
            &&& (p.entries@[k].1 matches Some(d) ==> d@.len() == 0)
            &&& (p.entries@[k].1 is Some <==> picks[k].1)
            &&& p.keys@[k].key_view() == play_key_text(picks[k].0)
        }
    &&& p.skipped == bucket_tally(bs, |b: Bucket| b is Recorded)
    &&& p.enriched == bucket_tally(bs, |b: Bucket| b is Enriched)
    &&& p.skipped_existing == bucket_tally(bs, |b: Bucket| b is SkippedExisting)
    &&& p.skipped_bulk == bucket_tally(bs, |b: Bucket| b is SkippedBulk)
    &&& p.net_new_bulk == bucket_tally(bs, |b: Bucket| b is NetNewBulk)
}

/// Sorts every play of the history into its bucket and lists the diary rows.
/// `library` is the user's Letterboxd library, when an export was given;
/// `state` is the record of earlier runs (already cleared by `--force`).
#[verifier::spinoff_prover]
pub fn plan_diary<'a>(
    history: &'a Vec<WatchedMovie>,
    library: Option<&LbLibrary>,
    state: &SyncState,
) -> (res: DiaryPlan<'a>)
    requires
        state.wf(),
        library matches Some(l) ==> l.wf(),
        history.len() < u32::MAX,
    ensures
        ({
            let marks = match library {
                Some(l) => Some(l.marks()),
                None => None,
            };
            diary_plan_is(
                res,
                buckets(history@, history@, marks, state.view()),
                diary_picks(history@, history@, marks, state.view()),
            )
        }),
{
    let ghost marks = match library {
        Some(l) => Some(l.marks()),
        None => None,
    };
    let ghost seen = state.view();
    let mut days: Vec<String> = Vec::new();
    let mut d: usize = 0;
    while d < history.len()
        invariant
            d <= history.len(),
            days@.map_values(|s: String| s@) == play_days(history@.take(d as int)),
        decreases history.len() - d,
    {
        let ghost before = days@;
        let day = truncate_to_date(history[d].watched_at.as_str());
        days.push(day);
        proof {
            assert(history@.take(d + 1) =~= history@.take(d as int).push(history@[d as int]));
            assert(play_days(history@.take(d + 1)) =~= play_days(history@.take(d as int)).push(
                date_part(history@[d as int].watched_at@),
            ));
            assert(days@.map_values(|s: String| s@) =~= before.map_values(|s: String| s@).push(
                day@,
            ));
        }
        d = d + 1;
    }
    proof {
        assert(history@.take(d as int) =~= history@);
    }
    let mut plan = DiaryPlan {
        entries: Vec::new(),
        keys: Vec::new(),
        skipped: 0,
        enriched: 0,
        skipped_existing: 0,
        skipped_bulk: 0,
        net_new_bulk: 0,
    };
    let mut i: usize = 0;
    while i < history.len()
        invariant
            i <= history.len(),
            history.len() < u32::MAX,
            state.wf(),
            seen == state.view(),
            library matches Some(l) ==> l.wf(),
            marks == (match library {
                Some(l) => Some(l.marks()),
                None => None,
            }),
            days@.map_values(|s: String| s@) == play_days(history@),
            diary_plan_is(
                plan,
                buckets(history@.take(i as int), history@, marks, seen),
                diary_picks(history@.take(i as int), history@, marks, seen),
            ),
        decreases history.len() - i,
    {
        let ghost bs = buckets(history@.take(i as int), history@, marks, seen);
        let ghost picks = diary_picks(history@.take(i as int), history@, marks, seen);
        let w = &history[i];
        let ghost b = bucket(history@[i as int], history@, marks, seen);
        proof {
            let t = history@.take(i + 1);
            assert(t.drop_last() =~= history@.take(i as int));
            assert(t.last() == history@[i as int]);
            lemma_buckets_len(history@.take(i as int), history@, marks, seen);
            lemma_bucket_tally_bound(bs, |b: Bucket| b is Recorded);
            lemma_bucket_tally_bound(bs, |b: Bucket| b is Enriched);
            lemma_bucket_tally_bound(bs, |b: Bucket| b is SkippedExisting);
            lemma_bucket_tally_bound(bs, |b: Bucket| b is SkippedBulk);
            lemma_bucket_tally_bound(bs, |b: Bucket| b is NetNewBulk);
            assert(bs.push(b).drop_last() =~= bs);
        }
        let key = watched_key(w);
        let ghost before = plan;
        if state.contains(&key) {
            plan.skipped = plan.skipped + 1;
        } else {
            // `None`: a row with the play's date; `Some(true)`: a blank date.
            let row: Option<bool> = match library {
                None => Some(false),
                Some(lib) => {
                    let day = truncate_to_date(w.watched_at.as_str());
                    let bulk = count_day(&days, &day, Ghost(history@)) >= BULK_DATE_THRESHOLD;
                    let year = match w.movie.year {
                        Some(y) => y,
                        None => 0,
                    };
                    let title = normalize_title(w.movie.title.as_str());
                    match lib.status(&title, year) {
                        Some(LbStatus::Dated) => {
                            plan.skipped_existing = plan.skipped_existing + 1;
                            None
                        },
                        Some(LbStatus::Dateless) => {
                            if bulk {
                                plan.skipped_bulk = plan.skipped_bulk + 1;
                                None
                            } else {
                                plan.enriched = plan.enriched + 1;
                                Some(false)
                            }
                        },
                        None => {
                            if bulk {
                                plan.net_new_bulk = plan.net_new_bulk + 1;
                                Some(true)
                            } else {
                                Some(false)
                            }
                        },
                    }
                },
            };
            match row {
                Some(blank) => {
                    let date: Option<&'static str> = if blank {
                        Some("")
                    } else {
                        None
                    };
                    proof {
                        reveal_strlit("");
                    }
                    let ghost mid = plan;
                    plan.entries.push((w, date));
                    plan.keys.push(key);
                    proof {
                        assert forall|k: int| 0 <= k < picks.len() implies plan.entries@[k]
                            == mid.entries@[k] && plan.keys@[k] == mid.keys@[k] by {}
                    }
                },
                None => {},
            }
        }
        i = i + 1;
    }
    proof {
        assert(history@.take(i as int) =~= history@);
    }
    plan
}

proof fn lemma_buckets_len(
    ws: Seq<WatchedMovie>,
    history: Seq<WatchedMovie>,
    marks: Option<Seq<(Seq<char>, u32, bool)>>,
    state: Set<Seq<char>>,
)
    ensures
        buckets(ws, history, marks, state).len() == ws.len(),
    decreases ws.len(),
{
    if ws.len() > 0 {
        lemma_buckets_len(ws.drop_last(), history, marks, state);
    }
}


// ---------------------------------------------------------------------------
// The watchlist export
// ---------------------------------------------------------------------------

/// The watchlist films no earlier run exported, in order.
pub open spec fn pending_listed(ws: Seq<WatchlistMovie>, state: Set<Seq<char>>) -> Seq<WatchlistMovie>
    decreases ws.len(),
{
    if ws.len() == 0 {
        Seq::empty()
    } else if state.contains(listed_key_text(ws.last())) {
        pending_listed(ws.drop_last(), state)
    } else {
        pending_listed(ws.drop_last(), state).push(ws.last())
    }
}

/// The watchlist export of a run, with the keys to record once it is written.
pub struct WatchlistPlan {
    pub movies: Vec<WatchlistMovie>,
    pub keys: Vec<SyncKey>,
    /// Watchlist films an earlier run exported.
    pub skipped: u32,
}

/// The watchlist films to export: those no earlier run exported.
pub fn plan_watchlist(watchlist: &Vec<WatchlistMovie>, state: &SyncState) -> (res: WatchlistPlan)
    requires
        state.wf(),
        watchlist.len() < u32::MAX,
    ensures
        res.movies@ == pending_listed(watchlist@, state.view()),
        res.keys.len() == res.movies.len(),
        forall|k: int|
            0 <= k < res.keys.len() ==> (#[trigger] res.keys@[k]).key_view() == listed_key_text(
                res.movies@[k],
            ),
        res.skipped + res.movies.len() == watchlist.len(),
{
    let mut plan = WatchlistPlan { movies: Vec::new(), keys: Vec::new(), skipped: 0 };
    let mut i: usize = 0;
    while i < watchlist.len()
        invariant
            i <= watchlist.len(),
            watchlist.len() < u32::MAX,
            state.wf(),
            plan.movies@ == pending_listed(watchlist@.take(i as int), state.view()),
            plan.keys.len() == plan.movies.len(),
            forall|k: int|
                0 <= k < plan.keys.len() ==> (#[trigger] plan.keys@[k]).key_view()
                    == listed_key_text(plan.movies@[k]),
            plan.skipped + plan.movies.len() == i,
        decreases watchlist.len() - i,
    {
        proof {
            assert(watchlist@.take(i + 1).drop_last() =~= watchlist@.take(i as int));
        }
        let key = watchlist_entry_key(&watchlist[i]);
        if state.contains(&key) {
            plan.skipped = plan.skipped + 1;
        } else {
            plan.movies.push(watchlist[i].duplicate());
            plan.keys.push(key);
        }
        i = i + 1;
    }
    proof {
        assert(watchlist@.take(i as int) =~= watchlist@);
    }
    plan
}

// ---------------------------------------------------------------------------
// What the diary rows carry
// ---------------------------------------------------------------------------

/// Whether Trakt holds a rating for the film of a play.
pub open spec fn has_rating(w: WatchedMovie, ratings: Seq<RatedMovie>) -> bool {
    match w.movie.tmdb_id {
        Some(id) => exists|k: int| 0 <= k < ratings.len() && (#[trigger] ratings[k]).movie.tmdb_id == Some(id),
        None => false,
    }
}

/// Whether the account holds a note for the film of a play.
pub open spec fn has_note(w: WatchedMovie, notes: Map<u64, String>) -> bool {
    match w.movie.tmdb_id {
        Some(id) => notes.contains_key(id),
        None => false,
    }
}

/// How many rows satisfy `p`.
pub open spec fn rows_where(
    rows: Seq<(&WatchedMovie, Option<&str>)>,
    p: spec_fn(WatchedMovie) -> bool,
) -> nat
    decreases rows.len(),
{
    if rows.len() == 0 {
        0
    } else {
        rows_where(rows.drop_last(), p) + (if p(*rows.last().0) {
            1nat
        } else {
            0nat
        })
    }
}

fn rated(w: &WatchedMovie, ratings_map: &HashMap<u64, u8>, Ghost(ratings): Ghost<Seq<RatedMovie>>) -> (res: bool)
    requires
        ratings_map@ == ratings_by_id(ratings),
    ensures
        res == has_rating(*w, ratings),
{
    match w.movie.tmdb_id {
        Some(id) => {
            proof {
                lemma_ratings_by_id(ratings, id);
            }
            ratings_map.contains_key(&id)
        },
        None => false,
    }
}

/// How many diary rows are of a film Trakt holds a rating for.
pub fn ratings_in_diary(entries: &Vec<(&WatchedMovie, Option<&str>)>, ratings: &Vec<RatedMovie>) -> (res: u32)
    requires
        entries.len() < u32::MAX,
    ensures
        res == rows_where(entries@, |w: WatchedMovie| has_rating(w, ratings@)),
{
    let ratings_map = rating_map(ratings.as_slice());
    let mut n: u32 = 0;
    let mut i: usize = 0;
    while i < entries.len()
        invariant
            i <= entries.len(),
            entries.len() < u32::MAX,
            ratings_map@ == ratings_by_id(ratings@),
            n == rows_where(entries@.take(i as int), |w: WatchedMovie| has_rating(w, ratings@)),
            n <= i,
        decreases entries.len() - i,
    {
        proof {
            assert(entries@.take(i + 1).drop_last() =~= entries@.take(i as int));
        }
        if rated(entries[i].0, &ratings_map, Ghost(ratings@)) {
            n = n + 1;
        }
        i = i + 1;
    }
    proof {
        assert(entries@.take(i as int) =~= entries@);
    }
    n
}

/// How many diary rows are of a film the account holds a note for.
pub fn reviews_in_diary(entries: &Vec<(&WatchedMovie, Option<&str>)>, notes: &HashMap<u64, String>) -> (res: u32)
    requires
        entries.len() < u32::MAX,
    ensures
        res == rows_where(entries@, |w: WatchedMovie| has_note(w, notes@)),
{
    let mut n: u32 = 0;
    let mut i: usize = 0;
    while i < entries.len()
        invariant
            i <= entries.len(),
            entries.len() < u32::MAX,
            n == rows_where(entries@.take(i as int), |w: WatchedMovie| has_note(w, notes@)),
            n <= i,
        decreases entries.len() - i,
    {
        proof {
            assert(entries@.take(i + 1).drop_last() =~= entries@.take(i as int));
        }
        let noted = match entries[i].0.movie.tmdb_id {
            Some(id) => notes.contains_key(&id),
            None => false,
        };
        if noted {
            n = n + 1;
        }
        i = i + 1;
    }
    proof {
        assert(entries@.take(i as int) =~= entries@);
    }
    n
}


// ---------------------------------------------------------------------------
// What the diary export promises
// ---------------------------------------------------------------------------

/// Every play lands in exactly one bucket: the plays an earlier run
/// exported, the two kinds of skipped plays and the diary rows add up to
/// the whole history.
pub proof fn law_buckets_cover_history(
    ws: Seq<WatchedMovie>,
    history: Seq<WatchedMovie>,
    marks: Option<Seq<(Seq<char>, u32, bool)>>,
    state: Set<Seq<char>>,
)
    ensures
        ({
            let bs = buckets(ws, history, marks, state);
            bucket_tally(bs, |b: Bucket| b is Recorded) + bucket_tally(
                bs,
                |b: Bucket| b is SkippedExisting,
            ) + bucket_tally(bs, |b: Bucket| b is SkippedBulk) + diary_picks(
                ws,
                history,
                marks,
                state,
            ).len() == ws.len()
        }),
        ({
            let bs = buckets(ws, history, marks, state);
            diary_picks(ws, history, marks, state).len() == bucket_tally(
                bs,
                |b: Bucket| b is Enriched,
            ) + bucket_tally(bs, |b: Bucket| b is NetNewBulk) + bucket_tally(
                bs,
                |b: Bucket| b is NetNew,
            )
        }),
    decreases ws.len(),
{
    if ws.len() > 0 {
        law_buckets_cover_history(ws.drop_last(), history, marks, state);
        let bs = buckets(ws, history, marks, state);
        assert(bs.drop_last() =~= buckets(ws.drop_last(), history, marks, state));
    }
}

/// Some play of `ws` gives the row `pick`: its bucket gives a row, and the
/// row's date is blank exactly for a net-new play on a bulk-add day.
pub open spec fn row_of_play(
    ws: Seq<WatchedMovie>,
    history: Seq<WatchedMovie>,
    marks: Option<Seq<(Seq<char>, u32, bool)>>,
    state: Set<Seq<char>>,
    pick: (WatchedMovie, bool),
) -> bool {
    exists|i: int|
        0 <= i < ws.len() && pick == (
            #[trigger] ws[i],
            bucket(ws[i], history, marks, state) is NetNewBulk,
        ) && emits(bucket(ws[i], history, marks, state))
}

/// Each diary row is a play of the history whose bucket gives a row, and
/// its date is blank exactly when the play is new to Letterboxd and fell on
/// a bulk-add day.
pub proof fn law_rows_come_from_emitting_buckets(
    ws: Seq<WatchedMovie>,
    history: Seq<WatchedMovie>,
    marks: Option<Seq<(Seq<char>, u32, bool)>>,
    state: Set<Seq<char>>,
)
    ensures
        forall|k: int|
            0 <= k < diary_picks(ws, history, marks, state).len() ==> row_of_play(
                ws,
                history,
                marks,
                state,
                #[trigger] diary_picks(ws, history, marks, state)[k],
            ),
    decreases ws.len(),
{
    if ws.len() > 0 {
        let rest = ws.drop_last();
        law_rows_come_from_emitting_buckets(rest, history, marks, state);
        let picks = diary_picks(ws, history, marks, state);
        assert forall|k: int| 0 <= k < picks.len() implies row_of_play(
            ws,
            history,
            marks,
            state,
            #[trigger] diary_picks(ws, history, marks, state)[k],
        ) by {
            if k < diary_picks(rest, history, marks, state).len() {
                let pick = diary_picks(rest, history, marks, state)[k];
                assert(row_of_play(rest, history, marks, state, pick));
                let i = choose|i: int|
                    0 <= i < rest.len() && pick == (
                        #[trigger] rest[i],
                        bucket(rest[i], history, marks, state) is NetNewBulk,
                    ) && emits(bucket(rest[i], history, marks, state));
                assert(rest[i] == ws[i]);
                assert(diary_picks(ws, history, marks, state)[k] == pick);
            } else {
                let i = ws.len() - 1;
                assert(ws[i] == ws.last());
                assert(diary_picks(ws, history, marks, state)[k] == (
                    ws[i],
                    bucket(ws[i], history, marks, state) is NetNewBulk,
                ));
            }
        }
    }
}

/// A film that Letterboxd already has with a watch date never becomes a
/// diary row, with or without `--force`.
pub proof fn law_dated_films_never_exported(
    history: Seq<WatchedMovie>,
    marks: Seq<(Seq<char>, u32, bool)>,
    state: Set<Seq<char>>,
    k: int,
)
    requires
        0 <= k < diary_picks(history, history, Some(marks), state).len(),
    ensures
        ({
            let w = diary_picks(history, history, Some(marks), state)[k].0;
            lb_status(
                marks,
                normalized_title(w.movie.title@),
                match w.movie.year {
                    Some(y) => y,
                    None => 0,
                },
            ) != Some(LbStatus::Dated)
        }),
{
    law_rows_come_from_emitting_buckets(history, history, Some(marks), state);
    let pick = diary_picks(history, history, Some(marks), state)[k];
    assert(row_of_play(history, history, Some(marks), state, pick));
    let i = choose|i: int|
        0 <= i < history.len() && pick == (
            #[trigger] history[i],
            bucket(history[i], history, Some(marks), state) is NetNewBulk,
        ) && emits(bucket(history[i], history, Some(marks), state));
}

/// Once the keys of a run's diary rows are recorded, the same history again
/// gives no row: each exported play is now found in the record, and the
/// skipped ones stay skipped.
pub proof fn law_export_rerun_writes_nothing(
    history: Seq<WatchedMovie>,
    marks: Option<Seq<(Seq<char>, u32, bool)>>,
    before: Set<Seq<char>>,
    after: Set<Seq<char>>,
)
    requires
        before.subset_of(after),
        forall|k: int|
            0 <= k < diary_picks(history, history, marks, before).len() ==> after.contains(
                play_key_text((#[trigger] diary_picks(history, history, marks, before)[k]).0),
            ),
    ensures
        diary_picks(history, history, marks, after).len() == 0,
{
    lemma_no_rows_again(history, history, marks, before, after);
}

proof fn lemma_no_rows_again(
    ws: Seq<WatchedMovie>,
    history: Seq<WatchedMovie>,
    marks: Option<Seq<(Seq<char>, u32, bool)>>,
    before: Set<Seq<char>>,
    after: Set<Seq<char>>,
)
    requires
        before.subset_of(after),
        forall|k: int|
            0 <= k < diary_picks(ws, history, marks, before).len() ==> after.contains(
                play_key_text((#[trigger] diary_picks(ws, history, marks, before)[k]).0),
            ),
    ensures
        diary_picks(ws, history, marks, after).len() == 0,
    decreases ws.len(),
{
    if ws.len() > 0 {
        let rest = ws.drop_last();
        let p0 = diary_picks(rest, history, marks, before);
        assert forall|k: int| 0 <= k < p0.len() implies after.contains(
            play_key_text((#[trigger] diary_picks(rest, history, marks, before)[k]).0),
        ) by {
            assert(diary_picks(ws, history, marks, before)[k] == p0[k]);
        }
        lemma_no_rows_again(rest, history, marks, before, after);
        let w = ws.last();
        if emits(bucket(w, history, marks, before)) {
            assert(diary_picks(ws, history, marks, before)[p0.len() as int].0 == w);
            assert(after.contains(play_key_text(w)));
        }
    }
}


/// Once the keys of a run's watchlist export are recorded, the same
/// watchlist again exports nothing.
pub proof fn law_watchlist_export_rerun_writes_nothing(
    ws: Seq<WatchlistMovie>,
    before: Set<Seq<char>>,
    after: Set<Seq<char>>,
)
    requires
        before.subset_of(after),
        forall|k: int|
            0 <= k < pending_listed(ws, before).len() ==> after.contains(
                listed_key_text(#[trigger] pending_listed(ws, before)[k]),
            ),
    ensures
        pending_listed(ws, after).len() == 0,
    decreases ws.len(),
{
    if ws.len() > 0 {
        let rest = ws.drop_last();
        let p0 = pending_listed(rest, before);
        assert forall|k: int| 0 <= k < p0.len() implies after.contains(
            listed_key_text(#[trigger] pending_listed(rest, before)[k]),
        ) by {
            assert(pending_listed(ws, before)[k] == p0[k]);
        }
        law_watchlist_export_rerun_writes_nothing(rest, before, after);
        if !before.contains(listed_key_text(ws.last())) {
            assert(pending_listed(ws, before)[p0.len() as int] == ws.last());
        }
    }
}


/// Without a Letterboxd export, every play no earlier run exported is a
/// net-new row with its Trakt date, and the export-dependent buckets stay
/// empty.
pub proof fn law_without_export_every_new_play_is_net_new(
    ws: Seq<WatchedMovie>,
    history: Seq<WatchedMovie>,
    state: Set<Seq<char>>,
)
    ensures
        ({
            let bs = buckets(ws, history, None, state);
            &&& bucket_tally(bs, |b: Bucket| b is Enriched) == 0
            &&& bucket_tally(bs, |b: Bucket| b is SkippedExisting) == 0
            &&& bucket_tally(bs, |b: Bucket| b is SkippedBulk) == 0
            &&& bucket_tally(bs, |b: Bucket| b is NetNewBulk) == 0
            &&& bucket_tally(bs, |b: Bucket| b is Recorded) + diary_picks(ws, history, None, state).len()
                == ws.len()
        }),
        forall|k: int|
            0 <= k < diary_picks(ws, history, None, state).len() ==> !(#[trigger] diary_picks(
                ws,
                history,
                None,
                state,
            )[k]).1,
    decreases ws.len(),
{
    law_buckets_cover_history(ws, history, None, state);
    if ws.len() > 0 {
        law_without_export_every_new_play_is_net_new(ws.drop_last(), history, state);
        let bs = buckets(ws, history, None, state);
        assert(bs.drop_last() =~= buckets(ws.drop_last(), history, None, state));
        let p0 = diary_picks(ws.drop_last(), history, None, state);
        assert forall|k: int|
            0 <= k < diary_picks(ws, history, None, state).len() implies !(#[trigger] diary_picks(
            ws,
            history,
            None,
            state,
        )[k]).1 by {
            if k < p0.len() {
                assert(diary_picks(ws, history, None, state)[k] == p0[k]);
            }
        }
    }
}


// ---------------------------------------------------------------------------
// The write phase
// ---------------------------------------------------------------------------

/// What the export does next.
pub enum ExportAction {
    /// Write the diary and watchlist CSV files.
    WriteFiles,
    /// Save the record of what was exported.
    Save,
    /// Nothing is left to do.
    Finish,
}

/// The next step of the export: nothing on a dry run; else the CSV files,
/// then one save of the record, then the end.
pub open spec fn export_decision(dry_run: bool, written: bool, saved: bool) -> ExportAction {
    if dry_run {
        ExportAction::Finish
    } else if !written {
        ExportAction::WriteFiles
    } else if !saved {
        ExportAction::Save
    } else {
        ExportAction::Finish
    }
}

/// Decides the next step of the export: a dry run writes no file and saves
/// nothing; otherwise the CSV files are written first, then the record is
/// saved once.
pub fn export_step(dry_run: bool, written: bool, saved: bool) -> (res: ExportAction)
    ensures
        res == export_decision(dry_run, written, saved),
        dry_run ==> res is Finish,
        !dry_run && !written ==> res is WriteFiles,
        !dry_run && written && !saved ==> res is Save,
        !dry_run && written && saved ==> res is Finish,
{
    if dry_run {
        ExportAction::Finish
    } else if !written {
        ExportAction::WriteFiles
    } else if !saved {
        ExportAction::Save
    } else {
        ExportAction::Finish
    }
}

/// Takes the outcome of writing the CSV files: once both are written, the
/// keys of the diary rows and of the watchlist rows are recorded (and no
/// other); if writing failed, the record is left as it was.
pub fn settle_export(
    state: &mut SyncState,
    diary_keys: Vec<SyncKey>,
    watchlist_keys: Vec<SyncKey>,
    written: Result<(), String>,
) -> (res: Result<(), String>)
    requires
        old(state).wf(),
    ensures
        final(state).wf(),
        match written {
            Ok(()) => {
                &&& res is Ok
                &&& final(state).view() == old(state).view().union(
                    diary_keys@.map_values(|k: SyncKey| k.key_view()).to_set(),
                ).union(watchlist_keys@.map_values(|k: SyncKey| k.key_view()).to_set())
            },
            Err(e) => res == Err::<(), String>(e) && final(state).view() == old(state).view(),
        },
{
    match written {
        Ok(()) => {
            state.mark_all(diary_keys);
            state.mark_all(watchlist_keys);
            Ok(())
        },
        Err(e) => Err(e),
    }
}

/// A real export records, on top of what the record held, exactly the keys
/// of the diary rows it wrote and of its watchlist rows: a key is recorded
/// afterwards only if it was before or belongs to a row of this run. So a
/// play skipped as already dated, or as dateless on a bulk-add day, stays
/// unrecorded and is sorted again by the next run.
pub proof fn law_export_records_exactly_its_rows(
    history: Seq<WatchedMovie>,
    marks: Option<Seq<(Seq<char>, u32, bool)>>,
    state: Set<Seq<char>>,
    p: DiaryPlan,
    list_keys: Seq<SyncKey>,
    after: Set<Seq<char>>,
    x: Seq<char>,
)
    requires
        diary_plan_is(
            p,
            buckets(history, history, marks, state),
            diary_picks(history, history, marks, state),
        ),
        after == state.union(p.keys@.map_values(|k: SyncKey| k.key_view()).to_set()).union(
            list_keys.map_values(|k: SyncKey| k.key_view()).to_set(),
        ),
    ensures
        after.contains(x) == (state.contains(x) || (exists|k: int|
            0 <= k < diary_picks(history, history, marks, state).len() && play_key_text(
                (#[trigger] diary_picks(history, history, marks, state)[k]).0,
            ) == x) || (exists|j: int|
            0 <= j < list_keys.len() && (#[trigger] list_keys[j]).key_view() == x)),
{
    let picks = diary_picks(history, history, marks, state);
    let dk = p.keys@.map_values(|k: SyncKey| k.key_view());
    let lk = list_keys.map_values(|k: SyncKey| k.key_view());
    if dk.contains(x) {
        let k = choose|k: int| 0 <= k < dk.len() && dk[k] == x;
        assert(*p.entries@[k].0 == picks[k].0);
        assert(play_key_text(picks[k].0) == x);
    }
    if exists|k: int| 0 <= k < picks.len() && play_key_text((#[trigger] picks[k]).0) == x {
        let k = choose|k: int| 0 <= k < picks.len() && play_key_text((#[trigger] picks[k]).0) == x;
        assert(*p.entries@[k].0 == picks[k].0);
        assert(dk[k] == x);
        assert(dk.contains(x));
    }
    if lk.contains(x) {
        let j = choose|j: int| 0 <= j < lk.len() && lk[j] == x;
        assert(list_keys[j].key_view() == x);
    }
    if exists|j: int| 0 <= j < list_keys.len() && (#[trigger] list_keys[j]).key_view() == x {
        let j = choose|j: int| 0 <= j < list_keys.len() && (#[trigger] list_keys[j]).key_view() == x;
        assert(lk[j] == x);
        assert(lk.contains(x));
    }
}

/// A dry export writes no CSV file and leaves the record untouched; a real
/// one saves the record only after the files are written.
pub proof fn law_dry_export_writes_nothing(written: bool, saved: bool)
    ensures
        export_decision(true, written, saved) is Finish,
        export_decision(false, written, saved) is Save ==> written,
        export_decision(false, written, saved) is Finish ==> written && saved,
{
}

} // verus!
