//! Writing the Letterboxd import CSVs: the diary/watched file and the
//! watchlist file.
use vstd::prelude::*;
use std::collections::HashMap;
use crate::letterboxd_export::{before_first, strings_view};
use crate::rating::{letterboxd_rating_text, trakt_rating_text};
use crate::text::{chars_of, decimal, decimal_string, owned, string_of};
use crate::trakt_read::{RatedMovie, WatchedMovie, WatchlistMovie};

verus! {

broadcast use vstd::std_specs::hash::group_hash_axioms;

/// Whether a field must be quoted: it holds a comma, a quote, or a line
/// break (`\n` or `\r`).
pub open spec fn csv_needs_quotes(f: Seq<char>) -> bool {
    exists|i: int|
        0 <= i < f.len() && (#[trigger] f[i] == ',' || f[i] == '"' || f[i] == '\n' || f[i]
            == '\r')
}

/// A field's text with each quote doubled.
pub open spec fn doubled_quotes(f: Seq<char>) -> Seq<char>
    decreases f.len(),
{
    if f.len() == 0 {
        Seq::empty()
    } else {
        doubled_quotes(f.drop_last()) + if f.last() == '"' {
            seq!['"', '"']
        } else {
            seq![f.last()]
        }
    }
}

/// One field as written: quoted, with its quotes doubled, when it must be;
/// else as it is.
pub open spec fn csv_field(f: Seq<char>) -> Seq<char> {
    if csv_needs_quotes(f) {
        seq!['"'] + doubled_quotes(f) + seq!['"']
    } else {
        f
    }
}

/// The fields of a record as written, separated by commas.
pub open spec fn csv_fields(r: Seq<Seq<char>>) -> Seq<char>
    decreases r.len(),
{
    if r.len() == 0 {
        Seq::empty()
    } else if r.len() == 1 {
        csv_field(r[0])
    } else {
        csv_fields(r.drop_last()) + seq![','] + csv_field(r.last())
    }
}

/// One record as written: its fields, then `\n`; a record that would
/// otherwise be empty (a single empty field) is written as `""`.
pub open spec fn csv_record(r: Seq<Seq<char>>) -> Seq<char> {
    (if csv_fields(r).len() == 0 {
        seq!['"', '"']
    } else {
        csv_fields(r)
    }) + seq!['\n']
}

/// The text that csv's writer, as configured by default, produces for these
/// records, one after the other.
pub open spec fn csv_text_of(rows: Seq<Seq<Seq<char>>>) -> Seq<char>
    decreases rows.len(),
{
    if rows.len() == 0 {
        Seq::empty()
    } else {
        csv_text_of(rows.drop_last()) + csv_record(rows.last())
    }
}

pub open spec fn table_view(rows: Seq<Vec<String>>) -> Seq<Seq<Seq<char>>> {
    rows.map_values(|r: Vec<String>| strings_view(r@))
}

/// Whether every record has as many fields as the first.
pub open spec fn same_width(rows: Seq<Seq<Seq<char>>>) -> bool {
    forall|i: int| 0 <= i < rows.len() ==> (#[trigger] rows[i]).len() == rows[0].len()
}

/// `csv::Writer::write_record` for each record, into memory, then `flush`.
/// The default writer separates fields by commas, quotes a field only when
/// it holds a comma, a quote or a line break (doubling its quotes), ends each
/// record with `\n` and writes a record of one empty field as `""`. It
/// refuses records of unequal length (it is not flexible); into memory it
/// has no other failure.
#[verifier::external_body]
pub(crate) fn csv_encode(rows: &Vec<Vec<String>>) -> (res: Result<String, String>)
    ensures
        same_width(table_view(rows@)) ==> res is Ok,
        res matches Ok(t) ==> t@ == csv_text_of(table_view(rows@)),
{
    let mut wtr = csv::Writer::from_writer(Vec::new());
    for r in rows {
        wtr.write_record(r).map_err(|e| e.to_string())?;
    }
    let bytes = wtr.into_inner().map_err(|e| e.to_string())?;
    String::from_utf8(bytes).map_err(|e| e.to_string())
}

/// The date part of an ISO-8601 timestamp (everything before the `T`).
pub open spec fn date_part(ts: Seq<char>) -> Seq<char> {
    before_first(ts, 'T')
}

pub fn truncate_to_date(ts: &str) -> (res: String)
    ensures
        res@ == date_part(ts@),
{
    let cs = chars_of(ts);
    let mut out: Vec<char> = Vec::new();
    let mut i: usize = 0;
    proof {
        assert(cs@.skip(0) =~= cs@);
        assert(cs@.take(0) + before_first(cs@, 'T') =~= before_first(cs@, 'T'));
    }
    while i < cs.len() && cs[i] != 'T'
        invariant
            i <= cs.len(),
            out@ == cs@.take(i as int),
            before_first(cs@, 'T') == cs@.take(i as int) + before_first(cs@.skip(i as int), 'T'),
        decreases cs.len() - i,
    {
        proof {
            assert(cs@.skip(i as int)[0] == cs@[i as int]);
            assert(cs@.skip(i as int).drop_first() =~= cs@.skip(i + 1));
            assert(cs@.take(i as int) + (seq![cs@[i as int]] + before_first(cs@.skip(i + 1), 'T'))
                =~= cs@.take(i + 1) + before_first(cs@.skip(i + 1), 'T'));
        }
        out.push(cs[i]);
        proof {
            assert(cs@.take(i + 1) =~= cs@.take(i as int).push(cs@[i as int]));
        }
        i = i + 1;
    }
    proof {
        if i < cs.len() {
            assert(cs@.skip(i as int)[0] == 'T');
        } else {
            assert(cs@.skip(i as int).len() == 0);
        }
        assert(cs@.take(i as int) + Seq::<char>::empty() =~= cs@.take(i as int));
    }
    string_of(&out)
}

/// The rating Trakt holds for a TMDB id: the last rating listed for it.
pub open spec fn last_rating(ratings: Seq<RatedMovie>, id: u64) -> Option<u8>
    decreases ratings.len(),
{
    if ratings.len() == 0 {
        None
    } else if ratings.last().movie.tmdb_id == Some(id) {
        Some(ratings.last().rating)
    } else {
        last_rating(ratings.drop_last(), id)
    }
}

/// Trakt's ratings by TMDB id; a later rating of a film replaces an earlier
/// one.
pub open spec fn ratings_by_id(ratings: Seq<RatedMovie>) -> Map<u64, u8>
    decreases ratings.len(),
{
    if ratings.len() == 0 {
        Map::empty()
    } else {
        match ratings.last().movie.tmdb_id {
            Some(id) => ratings_by_id(ratings.drop_last()).insert(id, ratings.last().rating),
            None => ratings_by_id(ratings.drop_last()),
        }
    }
}

/// Looking a film up in the map gives its last listed rating, and the map
/// holds exactly the films some rating names.
pub proof fn lemma_ratings_by_id(ratings: Seq<RatedMovie>, id: u64)
    ensures
        last_rating(ratings, id) == (if ratings_by_id(ratings).contains_key(id) {
            Some(ratings_by_id(ratings)[id])
        } else {
            None::<u8>
        }),
        ratings_by_id(ratings).contains_key(id) == (exists|k: int|
            0 <= k < ratings.len() && (#[trigger] ratings[k]).movie.tmdb_id == Some(id)),
    decreases ratings.len(),
{
    if ratings.len() > 0 {
        let rest = ratings.drop_last();
        lemma_ratings_by_id(rest, id);
        if ratings_by_id(ratings).contains_key(id) && ratings.last().movie.tmdb_id != Some(id) {
            let k = choose|k: int| 0 <= k < rest.len() && (#[trigger] rest[k]).movie.tmdb_id == Some(id);
            assert(ratings[k] == rest[k]);
        }
        if ratings.last().movie.tmdb_id == Some(id) {
            assert(ratings[ratings.len() - 1].movie.tmdb_id == Some(id));
        }
        if exists|k: int| 0 <= k < ratings.len() && (#[trigger] ratings[k]).movie.tmdb_id == Some(id) {
            let k = choose|k: int| 0 <= k < ratings.len() && (#[trigger] ratings[k]).movie.tmdb_id == Some(id);
            if k < ratings.len() - 1 {
                assert(rest[k] == ratings[k]);
            }
        }
    }
}

/// Trakt's ratings as a map from TMDB id to rating.
pub fn rating_map(ratings: &[RatedMovie]) -> (res: HashMap<u64, u8>)
    ensures
        res@ == ratings_by_id(ratings@),
{
    let mut map: HashMap<u64, u8> = HashMap::new();
    let mut i: usize = 0;
    while i < ratings.len()
        invariant
            i <= ratings@.len(),
            map@ == ratings_by_id(ratings@.take(i as int)),
        decreases ratings.len() - i,
    {
        proof {
            assert(ratings@.take(i + 1).drop_last() =~= ratings@.take(i as int));
        }
        match ratings[i].movie.tmdb_id {
            Some(id) => {
                map.insert(id, ratings[i].rating);
            },
            None => {},
        }
        i = i + 1;
    }
    proof {
        assert(ratings@.take(i as int) =~= ratings@);
    }
    map
}

fn rating_for(map: &HashMap<u64, u8>, Ghost(ratings): Ghost<Seq<RatedMovie>>, id: u64) -> (res: Option<u8>)
    requires
        map@ == ratings_by_id(ratings),
    ensures
        res == last_rating(ratings, id),
{
    proof {
        lemma_ratings_by_id(ratings, id);
    }
    match map.get(&id) {
        Some(r) => Some(*r),
        None => None,
    }
}

/// A number, or empty when absent.
pub open spec fn opt_number(o: Option<u64>) -> Seq<char> {
    match o {
        Some(n) => decimal(n as nat),
        None => Seq::empty(),
    }
}

fn opt_number_text(o: Option<u64>) -> (res: String)
    ensures
        res@ == opt_number(o),
{
    match o {
        Some(n) => decimal_string(n),
        None => String::new(),
    }
}

pub open spec fn opt_u32(o: Option<u32>) -> Option<u64> {
    match o {
        Some(n) => Some(n as u64),
        None => None,
    }
}

/// The header of the diary CSV.
pub open spec fn diary_header() -> Seq<Seq<char>> {
    seq![
        "Title"@,
        "Year"@,
        "tmdbID"@,
        "WatchedDate"@,
        "Rating"@,
        "Rewatch"@,
        "Tags"@,
        "Review"@,
    ]
}

/// The Rating column of a diary row.
pub open spec fn rating_column(tmdb: Option<u64>, ratings: Seq<RatedMovie>, include_ratings: bool) -> Seq<char> {
    if include_ratings {
        match tmdb {
            Some(id) => match last_rating(ratings, id) {
                Some(r) => letterboxd_rating_text(r),
                None => Seq::empty(),
            },
            None => Seq::empty(),
        }
    } else {
        Seq::empty()
    }
}

/// The Review column of a diary row: the film's Trakt note, if any.
pub open spec fn review_column(tmdb: Option<u64>, notes: Map<u64, String>) -> Seq<char> {
    match tmdb {
        Some(id) => if notes.contains_key(id) {
            notes[id]@
        } else {
            Seq::empty()
        },
        None => Seq::empty(),
    }
}

/// One diary row: Title, Year, tmdbID, WatchedDate (the override, or the
/// watch date), Rating, Rewatch (always `No`), Tags (empty), Review.
pub open spec fn diary_row(
    entry: WatchedMovie,
    date_override: Option<Seq<char>>,
    ratings: Seq<RatedMovie>,
    notes: Map<u64, String>,
    include_ratings: bool,
) -> Seq<Seq<char>> {
    let m = entry.movie;
    seq![
        m.title@,
        opt_number(opt_u32(m.year)),
        opt_number(m.tmdb_id),
        match date_override {
            Some(d) => d,
            None => date_part(entry.watched_at@),
        },
        rating_column(m.tmdb_id, ratings, include_ratings),
        "No"@,
        Seq::empty(),
        review_column(m.tmdb_id, notes),
    ]
}

pub open spec fn diary_rows(
    entries: Seq<(&WatchedMovie, Option<&str>)>,
    ratings: Seq<RatedMovie>,
    notes: Map<u64, String>,
    include_ratings: bool,
) -> Seq<Seq<Seq<char>>> {
    entries.map_values(
        |e: (&WatchedMovie, Option<&str>)|
            diary_row(
                *e.0,
                match e.1 {
                    Some(d) => Some(d@),
                    None => None,
                },
                ratings,
                notes,
                include_ratings,
            ),
    )
}

fn header_record() -> (res: Vec<String>)
    ensures
        strings_view(res@) == diary_header(),
{
    let res = vec![
        owned("Title"),
        owned("Year"),
        owned("tmdbID"),
        owned("WatchedDate"),
        owned("Rating"),
        owned("Rewatch"),
        owned("Tags"),
        owned("Review"),
    ];
    proof {
        assert(strings_view(res@) =~= diary_header());
    }
    res
}

fn diary_record(
    entry: &WatchedMovie,
    date_override: Option<&str>,
    ratings: &[RatedMovie],
    ratings_map: &HashMap<u64, u8>,
    notes: &HashMap<u64, String>,
    include_ratings: bool,
) -> (res: Vec<String>)
    requires
        ratings_map@ == ratings_by_id(ratings@),
    ensures
        strings_view(res@) == diary_row(
            *entry,
            match date_override {
                Some(d) => Some(d@),
                None => None,
            },
            ratings@,
            notes@,
            include_ratings,
        ),
{
    let movie = &entry.movie;
    let year = opt_number_text(
        match movie.year {
            Some(y) => Some(y as u64),
            None => None,
        },
    );
    let tmdb = opt_number_text(movie.tmdb_id);
    let date = match date_override {
        Some(d) => owned(d),
        None => truncate_to_date(entry.watched_at.as_str()),
    };
    let rating = if include_ratings {
        match movie.tmdb_id {
            Some(id) => match rating_for(ratings_map, Ghost(ratings@), id) {
                Some(r) => trakt_rating_text(r),
                None => String::new(),
            },
            None => String::new(),
        }
    } else {
        String::new()
    };
    let review = match movie.tmdb_id {
        Some(id) => match notes.get(&id) {
            Some(n) => n.clone(),
            None => String::new(),
        },
        None => String::new(),
    };
    let res = vec![movie.title.clone(), year, tmdb, date, rating, owned("No"), String::new(), review];
    proof {
        assert(strings_view(res@) =~= diary_row(
            *entry,
            match date_override {
                Some(d) => Some(d@),
                None => None,
            },
            ratings@,
            notes@,
            include_ratings,
        ));
    }
    res
}

/// The diary import CSV.
///
/// `entries` is a slice of `(movie, date_override)` pairs where:
///   - `None`      → use the movie's `watched_at` timestamp truncated to a date
///   - `Some("")`  → emit a blank WatchedDate (mark watched, no diary date)
///   - `Some(s)`   → emit `s` as the literal WatchedDate
///
/// When `include_ratings` is `false` the Rating column is always empty.
pub fn write_diary_csv(
    entries: &[(&WatchedMovie, Option<&str>)],
    ratings: &[RatedMovie],
    notes: &HashMap<u64, String>,
    include_ratings: bool,
) -> (res: Result<String, String>)
    ensures
        match res {
            Ok(t) => t@ == csv_text_of(
                seq![diary_header()] + diary_rows(entries@, ratings@, notes@, include_ratings),
            ),
            Err(_) => false,
        },
{
    let ratings_map = rating_map(ratings);
    let mut rows: Vec<Vec<String>> = Vec::new();
    rows.push(header_record());
    let mut i: usize = 0;
    while i < entries.len()
        invariant
            i <= entries@.len(),
            ratings_map@ == ratings_by_id(ratings@),
            table_view(rows@) == seq![diary_header()] + diary_rows(
                entries@.take(i as int),
                ratings@,
                notes@,
                include_ratings,
            ),
        decreases entries.len() - i,
    {
        let (m, d) = entries[i];
        let rec = diary_record(m, d, ratings, &ratings_map, notes, include_ratings);
        let ghost before = table_view(rows@);
        rows.push(rec);
        proof {
            assert(table_view(rows@) =~= before.push(strings_view(rows@.last()@)));
            assert(diary_rows(entries@.take(i + 1), ratings@, notes@, include_ratings) =~= diary_rows(
                entries@.take(i as int),
                ratings@,
                notes@,
                include_ratings,
            ).push(strings_view(rows@.last()@)));
            assert(table_view(rows@) =~= seq![diary_header()] + diary_rows(
                entries@.take(i + 1),
                ratings@,
                notes@,
                include_ratings,
            ));
        }
        i = i + 1;
    }
    proof {
        assert(entries@.take(entries@.len() as int) =~= entries@);
        let t = table_view(rows@);
        assert forall|k: int| 0 <= k < t.len() implies (#[trigger] t[k]).len() == t[0].len() by {}
    }
    csv_encode(&rows)
}

/// The header of the watchlist CSV.
pub open spec fn watchlist_header() -> Seq<Seq<char>> {
    seq!["Title"@, "Year"@, "tmdbID"@]
}

/// One watchlist row: Title, Year, tmdbID.
pub open spec fn watchlist_row(entry: WatchlistMovie) -> Seq<Seq<char>> {
    seq![entry.movie.title@, opt_number(opt_u32(entry.movie.year)), opt_number(entry.movie.tmdb_id)]
}

/// The watchlist import CSV: one row per watchlist film.
pub fn write_watchlist_csv(watchlist: &[WatchlistMovie]) -> (res: Result<String, String>)
    ensures
        match res {
            Ok(t) => t@ == csv_text_of(
                seq![watchlist_header()] + watchlist@.map_values(|e: WatchlistMovie| watchlist_row(e)),
            ),
            Err(_) => false,
        },
{
    let mut rows: Vec<Vec<String>> = Vec::new();
    let header = vec![owned("Title"), owned("Year"), owned("tmdbID")];
    proof {
        assert(strings_view(header@) =~= watchlist_header());
    }
    rows.push(header);
    let mut i: usize = 0;
    while i < watchlist.len()
        invariant
            i <= watchlist@.len(),
            table_view(rows@) == seq![watchlist_header()] + watchlist@.take(i as int).map_values(
                |e: WatchlistMovie| watchlist_row(e),
            ),
        decreases watchlist.len() - i,
    {
        let movie = &watchlist[i].movie;
        let rec = vec![
            movie.title.clone(),
            opt_number_text(
                match movie.year {
                    Some(y) => Some(y as u64),
                    None => None,
                },
            ),
            opt_number_text(movie.tmdb_id),
        ];
        let ghost before = table_view(rows@);
        proof {
            assert(strings_view(rec@) =~= watchlist_row(watchlist@[i as int]));
        }
        rows.push(rec);
        proof {
            assert(table_view(rows@) =~= before.push(watchlist_row(watchlist@[i as int])));
            assert(watchlist@.take(i + 1).map_values(|e: WatchlistMovie| watchlist_row(e))
                =~= watchlist@.take(i as int).map_values(|e: WatchlistMovie| watchlist_row(e)).push(
                watchlist_row(watchlist@[i as int]),
            ));
            assert(table_view(rows@) =~= seq![watchlist_header()] + watchlist@.take(i + 1).map_values(
                |e: WatchlistMovie| watchlist_row(e),
            ));
        }
        i = i + 1;
    }
    proof {
        assert(watchlist@.take(watchlist@.len() as int) =~= watchlist@);
        let t = table_view(rows@);
        assert forall|k: int| 0 <= k < t.len() implies (#[trigger] t[k]).len() == t[0].len() by {}
    }
    csv_encode(&rows)
}

} // verus!
