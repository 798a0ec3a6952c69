//! Run summaries printed at the end of each sync, and the exit-status rule.
use vstd::prelude::*;
use crate::constants::DETAIL_LIST_CAP;
use crate::matching::UnmatchedFilm;
use crate::sync_from_letterboxd;
use crate::sync_to_letterboxd;
use crate::text::{decimal, decimal_string, join_path, joined_path};

verus! {

// ---------------------------------------------------------------------------
// Shared pieces
// ---------------------------------------------------------------------------

/// `"    - {title} ({year}): {reason}\n"`
pub open spec fn detail_line(title: Seq<char>, year: nat, reason: Seq<char>) -> Seq<char> {
    "    - "@ + title + " ("@ + decimal(year) + "): "@ + reason + "\n"@
}

/// The detail lines of a list of (title, year, reason) rows.
pub open spec fn detail_lines(rows: Seq<(Seq<char>, nat, Seq<char>)>) -> Seq<char>
    decreases rows.len(),
{
    if rows.len() == 0 {
        Seq::empty()
    } else {
        detail_lines(rows.drop_last()) + detail_line(
            rows.last().0,
            rows.last().1,
            rows.last().2,
        )
    }
}

/// How many rows of a list of `len` are printed.
pub open spec fn shown(len: nat) -> nat {
    if len <= DETAIL_LIST_CAP as nat {
        len
    } else {
        DETAIL_LIST_CAP as nat
    }
}

/// `"    ... and {n} more\n"` when the list was cut, else nothing.
pub open spec fn overflow_line(len: nat) -> Seq<char> {
    if len > DETAIL_LIST_CAP as nat {
        "    ... and "@ + decimal((len - DETAIL_LIST_CAP) as nat) + " more\n"@
    } else {
        Seq::empty()
    }
}

/// A blank line, a heading with the list's length, its first rows, and the
/// overflow note; nothing at all for an empty list.
pub open spec fn detail_section(heading: Seq<char>, rows: Seq<(Seq<char>, nat, Seq<char>)>) -> Seq<
    char,
> {
    if rows.len() == 0 {
        Seq::empty()
    } else {
        "\n"@ + heading + " ("@ + decimal(rows.len()) + "):\n"@ + detail_lines(
            rows.take(shown(rows.len()) as int),
        ) + overflow_line(rows.len())
    }
}

pub open spec fn unmatched_rows(v: Seq<UnmatchedFilm>) -> Seq<(Seq<char>, nat, Seq<char>)> {
    v.map_values(|f: UnmatchedFilm| (f.title@, f.year as nat, f.reason@))
}

pub open spec fn from_errored_rows(v: Seq<sync_from_letterboxd::ErroredItem>) -> Seq<
    (Seq<char>, nat, Seq<char>),
> {
    v.map_values(|f: sync_from_letterboxd::ErroredItem| (f.title@, f.year as nat, f.reason@))
}

pub open spec fn to_errored_rows(v: Seq<sync_to_letterboxd::ErroredItem>) -> Seq<
    (Seq<char>, nat, Seq<char>),
> {
    v.map_values(|f: sync_to_letterboxd::ErroredItem| (f.title@, f.year as nat, f.reason@))
}

/// `"    - {warning}\n"` for each warning.
pub open spec fn warning_lines(ws: Seq<Seq<char>>) -> Seq<char>
    decreases ws.len(),
{
    if ws.len() == 0 {
        Seq::empty()
    } else {
        warning_lines(ws.drop_last()) + "    - "@ + ws.last() + "\n"@
    }
}

/// The near-year section: a heading with the count, then every warning.
pub open spec fn warning_section(ws: Seq<Seq<char>>) -> Seq<char> {
    if ws.len() == 0 {
        Seq::empty()
    } else {
        "\n"@ + "  Near-year matches ("@ + decimal(ws.len()) + ") \u{2014} please verify:\n"@
            + warning_lines(ws)
    }
}

fn append_num(out: &mut String, n: u64)
    ensures
        final(out)@ == old(out)@ + decimal(n as nat),
{
    out.append(decimal_string(n).as_str());
}

fn append_detail_line(out: &mut String, title: &str, year: u32, reason: &str)
    ensures
        final(out)@ == old(out)@ + detail_line(title@, year as nat, reason@),
{
    let ghost start = out@;
    out.append("    - ");
    out.append(title);
    out.append(" (");
    append_num(out, year as u64);
    out.append("): ");
    out.append(reason);
    out.append("\n");
    proof {
        assert(out@ =~= start + detail_line(title@, year as nat, reason@));
    }
}

fn append_overflow(out: &mut String, len: usize)
    ensures
        final(out)@ == old(out)@ + overflow_line(len as nat),
{
    if len > DETAIL_LIST_CAP {
        let ghost start = out@;
        out.append("    ... and ");
        append_num(out, (len - DETAIL_LIST_CAP) as u64);
        out.append(" more\n");
        proof {
            assert(out@ =~= start + overflow_line(len as nat));
        }
    } else {
        proof {
            assert(out@ =~= old(out)@ + overflow_line(len as nat));
        }
    }
}

fn append_heading(out: &mut String, heading: &str, len: usize)
    ensures
        final(out)@ == old(out)@ + "\n"@ + heading@ + " ("@ + decimal(len as nat) + "):\n"@,
{
    let ghost start = out@;
    out.append("\n");
    out.append(heading);
    out.append(" (");
    append_num(out, len as u64);
    out.append("):\n");
    proof {
        assert(out@ =~= start + "\n"@ + heading@ + " ("@ + decimal(len as nat) + "):\n"@);
    }
}

proof fn lemma_detail_lines_step(rows: Seq<(Seq<char>, nat, Seq<char>)>, i: int)
    requires
        0 <= i < rows.len(),
    ensures
        detail_lines(rows.take(i + 1)) == detail_lines(rows.take(i)) + detail_line(
            rows[i].0,
            rows[i].1,
            rows[i].2,
        ),
{
    assert(rows.take(i + 1).drop_last() =~= rows.take(i));
}

fn append_unmatched_section(out: &mut String, v: &Vec<UnmatchedFilm>)
    ensures
        final(out)@ == old(out)@ + detail_section("  Unmatched films"@, unmatched_rows(v@)),
{
    let ghost rows = unmatched_rows(v@);
    if v.len() == 0 {
        proof {
            assert(out@ =~= old(out)@ + detail_section("  Unmatched films"@, rows));
        }
        return;
    }
    let ghost start = out@;
    append_heading(out, "  Unmatched films", v.len());
    let ghost after_heading = out@;
    let n = if v.len() <= DETAIL_LIST_CAP {
        v.len()
    } else {
        DETAIL_LIST_CAP
    };
    let mut i: usize = 0;
    while i < n
        invariant
            i <= n <= v.len(),
            n == shown(v.len() as nat),
            rows == unmatched_rows(v@),
            out@ == after_heading + detail_lines(rows.take(i as int)),
        decreases n - i,
    {
        append_detail_line(out, v[i].title.as_str(), v[i].year, v[i].reason.as_str());
        proof {
            lemma_detail_lines_step(rows, i as int);
        }
        i = i + 1;
    }
    append_overflow(out, v.len());
    proof {
        assert(out@ =~= start + detail_section("  Unmatched films"@, rows));
    }
}

fn append_from_errored_section(out: &mut String, v: &Vec<sync_from_letterboxd::ErroredItem>)
    ensures
        final(out)@ == old(out)@ + detail_section("  Errored items"@, from_errored_rows(v@)),
{
    let ghost rows = from_errored_rows(v@);
    if v.len() == 0 {
        proof {
            assert(out@ =~= old(out)@ + detail_section("  Errored items"@, rows));
        }
        return;
    }
    let ghost start = out@;
    append_heading(out, "  Errored items", v.len());
    let ghost after_heading = out@;
    let n = if v.len() <= DETAIL_LIST_CAP {
        v.len()
    } else {
        DETAIL_LIST_CAP
    };
    let mut i: usize = 0;
    while i < n
        invariant
            i <= n <= v.len(),
            n == shown(v.len() as nat),
            rows == from_errored_rows(v@),
            out@ == after_heading + detail_lines(rows.take(i as int)),
        decreases n - i,
    {
        append_detail_line(out, v[i].title.as_str(), v[i].year, v[i].reason.as_str());
        proof {
            lemma_detail_lines_step(rows, i as int);
        }
        i = i + 1;
    }
    append_overflow(out, v.len());
    proof {
        assert(out@ =~= start + detail_section("  Errored items"@, rows));
    }
}

fn append_to_errored_section(out: &mut String, v: &Vec<sync_to_letterboxd::ErroredItem>)
    ensures
        final(out)@ == old(out)@ + detail_section("  Errored items"@, to_errored_rows(v@)),
{
    let ghost rows = to_errored_rows(v@);
    if v.len() == 0 {
        proof {
            assert(out@ =~= old(out)@ + detail_section("  Errored items"@, rows));
        }
        return;
    }
    let ghost start = out@;
    append_heading(out, "  Errored items", v.len());
    let ghost after_heading = out@;
    let n = if v.len() <= DETAIL_LIST_CAP {
        v.len()
    } else {
        DETAIL_LIST_CAP
    };
    let mut i: usize = 0;
    while i < n
        invariant
            i <= n <= v.len(),
            n == shown(v.len() as nat),
            rows == to_errored_rows(v@),
            out@ == after_heading + detail_lines(rows.take(i as int)),
        decreases n - i,
    {
        append_detail_line(out, v[i].title.as_str(), v[i].year, v[i].reason.as_str());
        proof {
            lemma_detail_lines_step(rows, i as int);
        }
        i = i + 1;
    }
    append_overflow(out, v.len());
    proof {
        assert(out@ =~= start + detail_section("  Errored items"@, rows));
    }
}

fn append_warning_section(out: &mut String, ws: &Vec<String>)
    ensures
        final(out)@ == old(out)@ + warning_section(ws@.map_values(|w: String| w@)),
{
    let ghost rows = ws@.map_values(|w: String| w@);
    if ws.len() == 0 {
        proof {
            assert(out@ =~= old(out)@ + warning_section(rows));
        }
        return;
    }
    let ghost start = out@;
    out.append("\n");
    out.append("  Near-year matches (");
    append_num(out, ws.len() as u64);
    out.append(") \u{2014} please verify:\n");
    let ghost after_heading = out@;
    let n = ws.len();
    let mut i: usize = 0;
    while i < n
        invariant
            i <= n == ws.len(),
            rows == ws@.map_values(|w: String| w@),
            out@ == after_heading + warning_lines(rows.take(i as int)),
        decreases n - i,
    {
        let ghost before = out@;
        out.append("    - ");
        out.append(ws[i].as_str());
        out.append("\n");
        proof {
            assert(rows.take(i + 1).drop_last() =~= rows.take(i as int));
            assert(out@ =~= after_heading + warning_lines(rows.take(i + 1)));
        }
        i = i + 1;
    }
    proof {
        assert(rows.take(n as int) =~= rows);
        assert(out@ =~= start + warning_section(rows));
    }
}

// ---------------------------------------------------------------------------
// Letterboxd → Trakt
// ---------------------------------------------------------------------------

/// The first line of the Letterboxd → Trakt run summary.
pub open spec fn from_letterboxd_header(dry_run: bool) -> Seq<char> {
    if dry_run {
        "[DRY RUN] Letterboxd \u{2192} Trakt (no changes written)\n"@
    } else {
        "Letterboxd \u{2192} Trakt sync complete\n"@
    }
}

/// The full text of the Letterboxd → Trakt run summary.
pub open spec fn from_letterboxd_text(s: sync_from_letterboxd::SyncSummary) -> Seq<char> {
    from_letterboxd_header(s.dry_run) + from_letterboxd_body(s)
}

/// The Letterboxd → Trakt run summary after its first line.
pub open spec fn from_letterboxd_body(s: sync_from_letterboxd::SyncSummary) -> Seq<char> {
    "\n"@ + "  Watched history:  "@ + decimal(s.watched_added as nat) + " added, "@ + decimal(
        s.watched_on_trakt as nat,
    ) + " skipped (already on Trakt), "@ + decimal(s.watched_bulk_date_skipped as nat)
        + " skipped (bulk import date), "@ + decimal(s.watched_skipped as nat)
        + " skipped (already synced)\n"@ + "  Ratings:          "@ + decimal(
        s.ratings_added as nat,
    ) + " added, "@ + decimal(s.ratings_skipped as nat) + " skipped (already synced)\n"@
        + "  Watchlist:        "@ + decimal(s.watchlist_added as nat) + " added, "@ + decimal(
        s.watchlist_skipped as nat,
    ) + " skipped (already synced)\n"@ + "  Reviews:          "@ + decimal(
        s.reviews_transferred as nat,
    ) + " transferred, "@ + decimal(s.reviews_skipped_over_limit as nat)
        + " skipped (over limit), "@ + decimal(s.reviews_skipped_unmatched as nat)
        + " skipped (film unmatched), "@ + decimal(s.errored@.len()) + " errored\n"@
        + warning_section(s.year_tolerance_warnings@.map_values(|w: String| w@)) + detail_section(
        "  Unmatched films"@,
        unmatched_rows(s.unmatched@),
    ) + detail_section("  Errored items"@, from_errored_rows(s.errored@))
}

#[verifier::spinoff_prover]
pub fn format_from_letterboxd_summary(s: &sync_from_letterboxd::SyncSummary) -> (res: String)
    ensures
        res@ == from_letterboxd_text(*s),
{
    let mut out = String::new();
    if s.dry_run {
        out.append("[DRY RUN] Letterboxd \u{2192} Trakt (no changes written)\n");
    } else {
        out.append("Letterboxd \u{2192} Trakt sync complete\n");
    }
    let mut body = String::new();
    body.append("\n");
    body.append("  Watched history:  ");
    append_num(&mut body, s.watched_added as u64);
    body.append(" added, ");
    append_num(&mut body, s.watched_on_trakt as u64);
    body.append(" skipped (already on Trakt), ");
    append_num(&mut body, s.watched_bulk_date_skipped as u64);
    body.append(" skipped (bulk import date), ");
    append_num(&mut body, s.watched_skipped as u64);
    body.append(" skipped (already synced)\n");
    body.append("  Ratings:          ");
    append_num(&mut body, s.ratings_added as u64);
    body.append(" added, ");
    append_num(&mut body, s.ratings_skipped as u64);
    body.append(" skipped (already synced)\n");
    body.append("  Watchlist:        ");
    append_num(&mut body, s.watchlist_added as u64);
    body.append(" added, ");
    append_num(&mut body, s.watchlist_skipped as u64);
    body.append(" skipped (already synced)\n");
    body.append("  Reviews:          ");
    append_num(&mut body, s.reviews_transferred as u64);
    body.append(" transferred, ");
    append_num(&mut body, s.reviews_skipped_over_limit as u64);
    body.append(" skipped (over limit), ");
    append_num(&mut body, s.reviews_skipped_unmatched as u64);
    body.append(" skipped (film unmatched), ");
    append_num(&mut body, s.errored.len() as u64);
    body.append(" errored\n");
    append_warning_section(&mut body, &s.year_tolerance_warnings);
    append_unmatched_section(&mut body, &s.unmatched);
    append_from_errored_section(&mut body, &s.errored);
    proof {
        assert(body@ =~= from_letterboxd_body(*s));
    }
    out.append(body.as_str());
    out
}

/// A run exits non-zero exactly when some item errored; unmatched films and
/// skipped items do not count.
pub fn from_letterboxd_has_errors(s: &sync_from_letterboxd::SyncSummary) -> (res: bool)
    ensures
        res == (s.errored@.len() > 0),
{
    s.errored.len() > 0
}

/// A run exits non-zero exactly when some item errored.
pub fn to_letterboxd_has_errors(s: &sync_to_letterboxd::SyncSummary) -> (res: bool)
    ensures
        res == (s.errored@.len() > 0),
{
    s.errored.len() > 0
}

// ---------------------------------------------------------------------------
// Trakt → Letterboxd
// ---------------------------------------------------------------------------

/// The count of net-new films on clean days, as the summary derives it from
/// the other counts (never below zero).
pub open spec fn net_new_clean(s: sync_to_letterboxd::SyncSummary) -> nat {
    let a = if s.diary_rows >= s.net_new_bulk {
        (s.diary_rows - s.net_new_bulk) as nat
    } else {
        0
    };
    if a >= s.enriched {
        (a - s.enriched) as nat
    } else {
        0
    }
}

/// Whether the Letterboxd-export classification produced anything to show.
pub open spec fn has_bucket_counts(s: sync_to_letterboxd::SyncSummary) -> bool {
    s.enriched + s.skipped_bulk + s.skipped_existing + s.net_new_bulk > 0
}

pub open spec fn bucket_section(s: sync_to_letterboxd::SyncSummary) -> Seq<char> {
    if has_bucket_counts(s) {
        "\n"@ + "  Net-new (clean date):       "@ + decimal(net_new_clean(s)) + "\n"@
            + "  Net-new (bulk date, blank): "@ + decimal(s.net_new_bulk as nat) + "\n"@
            + "  Enriched (date added):      "@ + decimal(s.enriched as nat) + "\n"@
            + "  Skipped (bulk+dateless):    "@ + decimal(s.skipped_bulk as nat) + "\n"@
            + "  Skipped (already dated):    "@ + decimal(s.skipped_existing as nat) + "\n"@
    } else {
        Seq::empty()
    }
}

pub open spec fn ratings_note(s: sync_to_letterboxd::SyncSummary, include_ratings: bool) -> Seq<
    char,
> {
    if !include_ratings && s.ratings_in_diary > 0 {
        "\n"@
            + "  Ratings omitted from CSV (pass --include-ratings to include; Letterboxd import overwrites existing ratings)\n"@
    } else {
        Seq::empty()
    }
}

/// Where the diary CSV is imported on Letterboxd.
pub open spec fn diary_import_step() -> Seq<char> {
    "  1. Diary CSV   \u{2192} https://letterboxd.com/import/ (marks films as watched)\n"@
}

/// Where the watchlist CSV is imported on Letterboxd.
pub open spec fn watchlist_import_step() -> Seq<char> {
    "  2. Watchlist CSV \u{2192} Your Letterboxd Watchlist page \u{2192} sidebar \u{2018}Import films to watchlist\u{2019} \u{2192} attach the CSV \u{2192} \u{2018}Add films to watchlist\u{2019}\n"@
}

pub open spec fn next_steps(s: sync_to_letterboxd::SyncSummary, data_dir: Seq<char>) -> Seq<char> {
    if !s.dry_run {
        "\n"@ + "  Diary CSV:     "@ + joined_path(data_dir, "letterboxd-diary-import.csv"@) + "\n"@
            + "  Watchlist CSV: "@ + joined_path(data_dir, "letterboxd-watchlist-import.csv"@)
            + "\n"@ + "\n"@ + "Next steps:\n"@ + diary_import_step() + watchlist_import_step()
    } else {
        Seq::empty()
    }
}

pub open spec fn to_letterboxd_header(dry_run: bool) -> Seq<char> {
    if dry_run {
        "[DRY RUN] Trakt \u{2192} Letterboxd export (no files written)\n"@
    } else {
        "Trakt \u{2192} Letterboxd export complete\n"@
    }
}

pub open spec fn to_letterboxd_counts(s: sync_to_letterboxd::SyncSummary) -> Seq<char> {
    "\n"@ + "  Diary rows:               "@ + decimal(s.diary_rows as nat) + "\n"@
        + "  Distinct rated films:     "@ + decimal(s.distinct_ratings as nat) + "\n"@
        + "  Diary rows with a rating: "@ + decimal(s.ratings_in_diary as nat)
        + " (may include rewatches of rated films)\n"@ + "  Reviews in diary:         "@
        + decimal(s.reviews_in_diary as nat) + "\n"@ + "  Watchlist rows:           "@ + decimal(
        s.watchlist_rows as nat,
    ) + "\n"@ + "  Already exported:         "@ + decimal(s.skipped as nat) + " skipped\n"@
}

/// The full text of the Trakt → Letterboxd run summary.
pub open spec fn to_letterboxd_text(
    s: sync_to_letterboxd::SyncSummary,
    data_dir: Seq<char>,
    include_ratings: bool,
) -> Seq<char> {
    to_letterboxd_header(s.dry_run) + to_letterboxd_counts(s) + bucket_section(s) + ratings_note(
        s,
        include_ratings,
    ) + detail_section("  Errored items"@, to_errored_rows(s.errored@)) + next_steps(s, data_dir)
}

fn append_line_num(out: &mut String, label: &str, n: u64)
    ensures
        final(out)@ == old(out)@ + label@ + decimal(n as nat) + "\n"@,
{
    let ghost start = out@;
    out.append(label);
    append_num(out, n);
    out.append("\n");
    proof {
        assert(out@ =~= start + label@ + decimal(n as nat) + "\n"@);
    }
}

#[verifier::spinoff_prover]
#[verifier::rlimit(40)]
fn append_bucket_section(out: &mut String, s: &sync_to_letterboxd::SyncSummary)
    ensures
        final(out)@ == old(out)@ + bucket_section(*s),
{
    let ghost start = out@;
    let total: u64 = s.enriched as u64 + s.skipped_bulk as u64 + s.skipped_existing as u64
        + s.net_new_bulk as u64;
    if total > 0 {
        let a = if s.diary_rows >= s.net_new_bulk {
            s.diary_rows - s.net_new_bulk
        } else {
            0
        };
        let clean = if a >= s.enriched {
            a - s.enriched
        } else {
            0
        };
        out.append("\n");
        let ghost t0 = out@;
        append_line_num(out, "  Net-new (clean date):       ", clean as u64);
        let ghost t1 = out@;
        append_line_num(out, "  Net-new (bulk date, blank): ", s.net_new_bulk as u64);
        let ghost t2 = out@;
        append_line_num(out, "  Enriched (date added):      ", s.enriched as u64);
        let ghost t3 = out@;
        append_line_num(out, "  Skipped (bulk+dateless):    ", s.skipped_bulk as u64);
        let ghost t4 = out@;
        append_line_num(out, "  Skipped (already dated):    ", s.skipped_existing as u64);
        proof {
            assert(t0 == start + "\n"@);
            assert(out@ =~= start + bucket_section(*s));
        }
    } else {
        proof {
            assert(out@ =~= start + bucket_section(*s));
        }
    }
}

#[verifier::spinoff_prover]
fn append_to_counts(out: &mut String, s: &sync_to_letterboxd::SyncSummary)
    ensures
        final(out)@ == old(out)@ + to_letterboxd_counts(*s),
{
    let ghost start = out@;
    out.append("\n");
    append_line_num(out, "  Diary rows:               ", s.diary_rows as u64);
    append_line_num(out, "  Distinct rated films:     ", s.distinct_ratings as u64);
    out.append("  Diary rows with a rating: ");
    append_num(out, s.ratings_in_diary as u64);
    out.append(" (may include rewatches of rated films)\n");
    append_line_num(out, "  Reviews in diary:         ", s.reviews_in_diary as u64);
    append_line_num(out, "  Watchlist rows:           ", s.watchlist_rows as u64);
    out.append("  Already exported:         ");
    append_num(out, s.skipped as u64);
    out.append(" skipped\n");
    proof {
        assert(out@ =~= start + to_letterboxd_counts(*s));
    }
}

fn append_ratings_note(out: &mut String, s: &sync_to_letterboxd::SyncSummary, include_ratings: bool)
    ensures
        final(out)@ == old(out)@ + ratings_note(*s, include_ratings),
{
    let ghost start = out@;
    if !include_ratings && s.ratings_in_diary > 0 {
        out.append("\n");
        out.append(
            "  Ratings omitted from CSV (pass --include-ratings to include; Letterboxd import overwrites existing ratings)\n",
        );
    }
    proof {
        assert(out@ =~= start + ratings_note(*s, include_ratings));
    }
}

#[verifier::spinoff_prover]
fn append_next_steps(out: &mut String, s: &sync_to_letterboxd::SyncSummary, data_dir: &str)
    ensures
        final(out)@ == old(out)@ + next_steps(*s, data_dir@),
{
    let ghost start = out@;
    if !s.dry_run {
        out.append("\n");
        out.append("  Diary CSV:     ");
        out.append(join_path(data_dir, "letterboxd-diary-import.csv").as_str());
        out.append("\n");
        out.append("  Watchlist CSV: ");
        out.append(join_path(data_dir, "letterboxd-watchlist-import.csv").as_str());
        out.append("\n");
        out.append("\n");
        out.append("Next steps:\n");
        out.append(
            "  1. Diary CSV   \u{2192} https://letterboxd.com/import/ (marks films as watched)\n",
        );
        out.append(
            "  2. Watchlist CSV \u{2192} Your Letterboxd Watchlist page \u{2192} sidebar \u{2018}Import films to watchlist\u{2019} \u{2192} attach the CSV \u{2192} \u{2018}Add films to watchlist\u{2019}\n",
        );
    }
    proof {
        assert(out@ =~= start + next_steps(*s, data_dir@));
    }
}

#[verifier::spinoff_prover]
pub fn format_to_letterboxd_summary(
    s: &sync_to_letterboxd::SyncSummary,
    data_dir: &str,
    include_ratings: bool,
) -> (res: String)
    ensures
        res@ == to_letterboxd_text(*s, data_dir@, include_ratings),
{
    let mut out = String::new();
    if s.dry_run {
        out.append("[DRY RUN] Trakt \u{2192} Letterboxd export (no files written)\n");
    } else {
        out.append("Trakt \u{2192} Letterboxd export complete\n");
    }
    append_to_counts(&mut out, s);
    append_bucket_section(&mut out, s);
    append_ratings_note(&mut out, s, include_ratings);
    append_to_errored_section(&mut out, &s.errored);
    append_next_steps(&mut out, s, data_dir);
    proof {
        assert(out@ =~= to_letterboxd_text(*s, data_dir@, include_ratings));
    }
    out
}

// ---------------------------------------------------------------------------
// What the summaries promise
// ---------------------------------------------------------------------------

/// A detail list prints at most `DETAIL_LIST_CAP` rows. A longer list ends
/// with a line saying how many were left out; a list within the cap has no
/// such line, and an empty list prints nothing at all.
pub proof fn law_detail_lists_are_capped(
    heading: Seq<char>,
    rows: Seq<(Seq<char>, nat, Seq<char>)>,
)
    ensures
        shown(rows.len()) <= DETAIL_LIST_CAP,
        rows.len() <= DETAIL_LIST_CAP ==> shown(rows.len()) == rows.len(),
        rows.len() > DETAIL_LIST_CAP ==> shown(rows.len()) == DETAIL_LIST_CAP,
        (overflow_line(rows.len()).len() > 0) == (rows.len() > DETAIL_LIST_CAP),
        (detail_section(heading, rows).len() == 0) == (rows.len() == 0),
{
    reveal_strlit("    ... and ");
    reveal_strlit("\n");
}

/// Every near-year match is listed under the near-year heading, one line
/// each and in order, however many there are; with none the section is
/// absent.
pub proof fn law_near_year_list_is_complete(ws: Seq<Seq<char>>)
    ensures
        (warning_section(ws).len() == 0) == (ws.len() == 0),
        ws.len() > 0 ==> warning_section(ws) == "\n"@ + "  Near-year matches ("@ + decimal(ws.len())
            + ") \u{2014} please verify:\n"@ + warning_lines(ws),
        forall|i: int|
            0 <= i <= ws.len() ==> #[trigger] warning_lines(ws.take(i)).is_prefix_of(
                warning_lines(ws),
            ),
{
    reveal_strlit("\n");
    assert forall|i: int| 0 <= i <= ws.len() implies #[trigger] warning_lines(
        ws.take(i),
    ).is_prefix_of(warning_lines(ws)) by {
        lemma_warning_lines_prefix(ws, i);
    }
}

proof fn lemma_warning_lines_prefix(ws: Seq<Seq<char>>, i: int)
    requires
        0 <= i <= ws.len(),
    ensures
        warning_lines(ws.take(i)).is_prefix_of(warning_lines(ws)),
    decreases ws.len(),
{
    if i == ws.len() {
        assert(ws.take(i) =~= ws);
        assert(warning_lines(ws).subrange(0, warning_lines(ws).len() as int) =~= warning_lines(ws));
    } else {
        lemma_warning_lines_prefix(ws.drop_last(), i);
        assert(ws.drop_last().take(i) =~= ws.take(i));
        let p = warning_lines(ws.take(i));
        let q = warning_lines(ws.drop_last());
        let t = "    - "@ + ws.last() + "\n"@;
        assert(warning_lines(ws) =~= q + t);
        assert((q + t).subrange(0, p.len() as int) =~= q.subrange(0, p.len() as int));
    }
}

/// The Letterboxd-export block of the Trakt → Letterboxd summary is printed
/// exactly when one of its classification counts is non-zero.
pub proof fn law_bucket_block_shows_iff_counted(s: sync_to_letterboxd::SyncSummary)
    ensures
        (bucket_section(s).len() > 0) == has_bucket_counts(s),
{
    reveal_strlit("\n");
}

/// The note about omitted ratings is printed exactly when ratings were left
/// out of the CSV and some diary row carried one.
pub proof fn law_ratings_note_iff_ratings_omitted(
    s: sync_to_letterboxd::SyncSummary,
    include_ratings: bool,
)
    ensures
        (ratings_note(s, include_ratings).len() > 0) == (!include_ratings && s.ratings_in_diary
            > 0),
{
    reveal_strlit("\n");
}

/// The Trakt → Letterboxd summary opens with the dry-run heading exactly on a
/// dry run. A dry run names no CSV file and no next step; a real run ends by
/// sending the diary CSV to Letterboxd's import page and the watchlist CSV to
/// the watchlist page's import.
pub proof fn law_to_letterboxd_summary_follows_the_run(
    s: sync_to_letterboxd::SyncSummary,
    data_dir: Seq<char>,
    include_ratings: bool,
)
    ensures
        to_letterboxd_header(s.dry_run).is_prefix_of(
            to_letterboxd_text(s, data_dir, include_ratings),
        ),
        s.dry_run ==> next_steps(s, data_dir).len() == 0,
        !s.dry_run ==> (diary_import_step() + watchlist_import_step()).is_suffix_of(
            next_steps(s, data_dir),
        ),
{
    let h = to_letterboxd_header(s.dry_run);
    let rest = to_letterboxd_counts(s) + bucket_section(s) + ratings_note(s, include_ratings)
        + detail_section("  Errored items"@, to_errored_rows(s.errored@)) + next_steps(
        s,
        data_dir,
    );
    assert(to_letterboxd_text(s, data_dir, include_ratings) =~= h + rest);
    assert((h + rest).subrange(0, h.len() as int) =~= h);
    if !s.dry_run {
        let n = next_steps(s, data_dir);
        let tail = diary_import_step() + watchlist_import_step();
        let head = "\n"@ + "  Diary CSV:     "@ + joined_path(data_dir, "letterboxd-diary-import.csv"@)
            + "\n"@ + "  Watchlist CSV: "@ + joined_path(
            data_dir,
            "letterboxd-watchlist-import.csv"@,
        ) + "\n"@ + "\n"@ + "Next steps:\n"@;
        assert(n =~= head + tail);
        assert((head + tail).subrange(head.len() as int, (head + tail).len() as int) =~= tail);
    }
}

/// The Letterboxd → Trakt summary opens with the dry-run heading exactly on a
/// dry run.
pub proof fn law_from_letterboxd_summary_follows_the_run(s: sync_from_letterboxd::SyncSummary)
    ensures
        from_letterboxd_header(s.dry_run).is_prefix_of(from_letterboxd_text(s)),
        s.dry_run ==> from_letterboxd_header(s.dry_run)
            == "[DRY RUN] Letterboxd \u{2192} Trakt (no changes written)\n"@,
        !s.dry_run ==> from_letterboxd_header(s.dry_run) == "Letterboxd \u{2192} Trakt sync complete\n"@,
{
    let h = from_letterboxd_header(s.dry_run);
    let b = from_letterboxd_body(s);
    assert((h + b).subrange(0, h.len() as int) =~= h);
}

/// Every unmatched film of a run reaches the summary once: the heading of
/// the unmatched section counts them all, the listed lines follow the films
/// in order, one line per film (each line extends the ones before it by
/// exactly that film's title, year and reason), and past the cap the rest
/// are counted in the closing line.
pub proof fn law_each_unmatched_film_listed_once(v: Seq<UnmatchedFilm>, i: int)
    requires
        0 <= i < shown(v.len()),
    ensures
        detail_lines(unmatched_rows(v).take(i + 1)) == detail_lines(unmatched_rows(v).take(i))
            + detail_line(v[i].title@, v[i].year as nat, v[i].reason@),
        detail_section("  Unmatched films"@, unmatched_rows(v)) == "\n"@ + "  Unmatched films"@
            + " ("@ + decimal(v.len()) + "):\n"@ + detail_lines(
            unmatched_rows(v).take(shown(v.len()) as int),
        ) + overflow_line(v.len()),
{
    lemma_detail_lines_step(unmatched_rows(v), i);
}

} // verus!
