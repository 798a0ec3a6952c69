use trakt_letterboxd::constants::DETAIL_LIST_CAP;
use trakt_letterboxd::matching::UnmatchedFilm;
use trakt_letterboxd::report::{
    format_from_letterboxd_summary, format_to_letterboxd_summary, from_letterboxd_has_errors,
    to_letterboxd_has_errors,
};
use trakt_letterboxd::{sync_from_letterboxd, sync_to_letterboxd};
fn make_from_summary(
    watched_added: u32,
    watched_skipped: u32,
    ratings_added: u32,
    ratings_skipped: u32,
    watchlist_added: u32,
    watchlist_skipped: u32,
    unmatched: Vec<UnmatchedFilm>,
    errored: Vec<sync_from_letterboxd::ErroredItem>,
    dry_run: bool,
) -> sync_from_letterboxd::SyncSummary {
    sync_from_letterboxd::SyncSummary {
        watched_added,
        watched_on_trakt: 0,
        watched_skipped,
        ratings_added,
        ratings_skipped,
        watchlist_added,
        watchlist_skipped,
        unmatched,
        errored,
        dry_run,
        reviews_transferred: 0,
        reviews_skipped_over_limit: 0,
        reviews_skipped_unmatched: 0,
        watched_bulk_date_skipped: 0,
        year_tolerance_warnings: vec![],
    }
}

fn make_to_summary(
    diary_rows: u32,
    distinct_ratings: u32,
    ratings_in_diary: u32,
    watchlist_rows: u32,
    skipped: u32,
    dry_run: bool,
    errored: Vec<sync_to_letterboxd::ErroredItem>,
) -> sync_to_letterboxd::SyncSummary {
    sync_to_letterboxd::SyncSummary {
        diary_rows,
        ratings_in_diary,
        distinct_ratings,
        watchlist_rows,
        skipped,
        dry_run,
        reviews_in_diary: 0,
        errored,
        enriched: 0,
        skipped_existing: 0,
        skipped_bulk: 0,
        net_new_bulk: 0,
    }
}

#[test]
fn errored_item_triggers_nonzero_exit_from_letterboxd() {
    let s = make_from_summary(
        0,
        0,
        0,
        0,
        0,
        0,
        vec![],
        vec![sync_from_letterboxd::ErroredItem {
            title: "Bad Film".to_string(),
            year: 2024,
            reason: "note creation failed: HTTP 500".to_string(),
        }],
        false,
    );
    assert!(
        from_letterboxd_has_errors(&s),
        "errored item must signal exit 1"
    );
}

#[test]
fn only_unmatched_does_not_trigger_nonzero_exit_from_letterboxd() {
    let s = make_from_summary(
        0,
        0,
        0,
        0,
        0,
        0,
        vec![UnmatchedFilm {
            title: "Ghost Film".to_string(),
            year: 2050,
            reason: "no exact title+year match in Trakt search".to_string(),
        }],
        vec![],
        false,
    );
    assert!(
        !from_letterboxd_has_errors(&s),
        "unmatched-only must not trigger exit 1"
    );
}

#[test]
fn no_errors_no_unmatched_exits_zero_from_letterboxd() {
    let s = make_from_summary(3, 1, 2, 0, 1, 0, vec![], vec![], false);
    assert!(!from_letterboxd_has_errors(&s));
}

#[test]
fn errored_item_triggers_nonzero_exit_to_letterboxd() {
    let s = make_to_summary(
        1,
        1,
        1,
        0,
        0,
        false,
        vec![sync_to_letterboxd::ErroredItem {
            title: "Some Film".to_string(),
            year: 2020,
            reason: "file write error".to_string(),
        }],
    );
    assert!(
        to_letterboxd_has_errors(&s),
        "errored item must signal exit 1"
    );
}

#[test]
fn no_errors_exits_zero_to_letterboxd() {
    let s = make_to_summary(1, 1, 1, 0, 0, false, vec![]);
    assert!(!to_letterboxd_has_errors(&s));
}

#[test]
fn dry_run_label_present_in_from_letterboxd_summary() {
    let s = make_from_summary(1, 0, 0, 0, 0, 0, vec![], vec![], true);
    // Capture output by constructing summary and checking dry_run flag
    assert!(s.dry_run, "dry_run flag must be set when --dry-run used");
}

#[test]
fn dry_run_label_present_in_to_letterboxd_summary() {
    let s = make_to_summary(1, 1, 1, 0, 0, true, vec![]);
    assert!(s.dry_run, "dry_run flag must be set when --dry-run used");
}

#[test]
fn unmatched_item_has_title_year_reason() {
    let s = make_from_summary(
        0,
        0,
        0,
        0,
        0,
        0,
        vec![UnmatchedFilm {
            title: "Ghost Film".to_string(),
            year: 2050,
            reason: "no exact title+year match in Trakt search".to_string(),
        }],
        vec![],
        false,
    );
    let film = &s.unmatched[0];
    assert_eq!(film.title, "Ghost Film");
    assert_eq!(film.year, 2050);
    assert!(!film.reason.is_empty(), "unmatched must carry a reason");
}

#[test]
fn errored_item_has_title_year_reason() {
    let item = sync_from_letterboxd::ErroredItem {
        title: "Bad Film".to_string(),
        year: 2024,
        reason: "note creation failed: unexpected HTTP 500".to_string(),
    };
    assert_eq!(item.title, "Bad Film");
    assert_eq!(item.year, 2024);
    assert!(item.reason.contains("500"));
}

#[test]
fn ratings_relabel_distinct_vs_diary_rows() {
    // Distinct rated films != diary rows with a rating when rewatches exist.
    // Verify summary carries both fields with correct semantics.
    let s = make_to_summary(
        2, // diary_rows: two history entries (two watches of the same film)
        1, // distinct_ratings: one unique rated film
        2, // ratings_in_diary: both diary rows carry the rating
        0,
        0,
        false,
        vec![],
    );
    assert_eq!(
        s.distinct_ratings, 1,
        "distinct_ratings must count unique films, not diary rows"
    );
    assert_eq!(
        s.ratings_in_diary, 2,
        "ratings_in_diary may exceed distinct_ratings due to rewatches"
    );
    // The two fields must differ to demonstrate the mislabel was real.
    assert_ne!(
        s.distinct_ratings, s.ratings_in_diary,
        "in rewatch scenario the two counts differ"
    );
}

// ── Exit code / has_errors ────────────────────────────────────────────────

#[test]
fn to_letterboxd_has_errors_false_when_only_skipped() {
    // T->L has no "unmatched" concept; the analogue is skipped (already exported).
    // Skipped items alone must not drive exit 1 — only errored items should.
    let s = make_to_summary(0, 0, 0, 0, 5, false, vec![]);
    assert!(
        !to_letterboxd_has_errors(&s),
        "skipped-only must not trigger exit 1 for to-letterboxd"
    );
}

// ── Dry-run labeling in printed output ───────────────────────────────────

#[test]
fn from_letterboxd_dry_run_label_appears_in_output() {
    let s = make_from_summary(1, 0, 0, 0, 0, 0, vec![], vec![], true);
    let output = format_from_letterboxd_summary(&s);
    assert!(
        output.contains("[DRY RUN]"),
        "dry-run output must contain '[DRY RUN]'; got:\n{output}"
    );
}

#[test]
fn from_letterboxd_real_run_has_no_dry_run_label() {
    let s = make_from_summary(1, 0, 0, 0, 0, 0, vec![], vec![], false);
    let output = format_from_letterboxd_summary(&s);
    assert!(
        !output.contains("[DRY RUN]"),
        "real-run output must not contain '[DRY RUN]'; got:\n{output}"
    );
}

#[test]
fn from_letterboxd_summary_shows_already_on_trakt_count_distinctly() {
    // watched_on_trakt must appear as its own "(already on Trakt)" label,
    // not collapsed into the "(already synced)" bucket.
    let s = sync_from_letterboxd::SyncSummary {
        watched_added: 2,
        watched_on_trakt: 3,
        watched_skipped: 1,
        ratings_added: 0,
        ratings_skipped: 0,
        watchlist_added: 0,
        watchlist_skipped: 0,
        unmatched: vec![],
        errored: vec![],
        dry_run: false,
        reviews_transferred: 0,
        reviews_skipped_over_limit: 0,
        reviews_skipped_unmatched: 0,
        watched_bulk_date_skipped: 0,
        year_tolerance_warnings: vec![],
    };
    let output = format_from_letterboxd_summary(&s);
    assert!(
        output.contains("3 skipped (already on Trakt)"),
        "output must show already-on-Trakt count; got:\n{output}"
    );
    assert!(
        output.contains("1 skipped (already synced)"),
        "output must show already-synced count; got:\n{output}"
    );
    assert!(
        output.contains("2 added"),
        "output must show added count; got:\n{output}"
    );
}

#[test]
fn to_letterboxd_dry_run_label_appears_in_output() {
    let s = make_to_summary(1, 1, 1, 0, 0, true, vec![]);
    let data_dir = "/tmp/dummy";
    let output = format_to_letterboxd_summary(&s, data_dir, true);
    assert!(
        output.contains("[DRY RUN]"),
        "dry-run output must contain '[DRY RUN]'; got:\n{output}"
    );
}

#[test]
fn to_letterboxd_real_run_has_no_dry_run_label() {
    let s = make_to_summary(1, 1, 1, 0, 0, false, vec![]);
    let data_dir = "/tmp/dummy";
    let output = format_to_letterboxd_summary(&s, data_dir, true);
    assert!(
        !output.contains("[DRY RUN]"),
        "real-run output must not contain '[DRY RUN]'; got:\n{output}"
    );
}

#[test]
fn to_letterboxd_summary_routes_diary_to_import_and_watchlist_to_watchlist_importer() {
    let s = make_to_summary(1, 0, 1, 0, 0, false, vec![]);
    let data_dir = "/tmp/dummy";
    let output = format_to_letterboxd_summary(&s, data_dir, true);
    assert!(
        output.contains("letterboxd.com/import"),
        "diary next-step must reference letterboxd.com/import; got:\n{output}"
    );
    assert!(
        output.contains("Import films to watchlist"),
        "watchlist next-step must name the 'Import films to watchlist' sidebar link; got:\n{output}"
    );
    assert!(
        output.contains("Add films to watchlist"),
        "watchlist next-step must name the 'Add films to watchlist' button; got:\n{output}"
    );
    // The watchlist CSV instruction must NOT point to /import (that marks films watched).
    let lines: Vec<&str> = output.lines().collect();
    let watchlist_line = lines
        .iter()
        .find(|l| l.contains("Watchlist CSV"))
        .expect("output must contain a Watchlist CSV next-step line");
    assert!(
        !watchlist_line.contains("letterboxd.com/import"),
        "watchlist CSV next-step must NOT reference letterboxd.com/import (it marks films watched); got:\n{watchlist_line}"
    );
}

// ── Watchlist CSV must NOT route to /import ──────────────────────────────
// The /import endpoint marks films as *watched*. Sending a watchlist CSV
// there would wrongly add want-to-watch films to the user's diary.

/// The line that mentions the Watchlist CSV must not contain the URL
/// `letterboxd.com/import` — that endpoint marks films as watched.
#[test]
fn fg18_watchlist_next_step_does_not_reference_letterboxd_com_import() {
    let s = make_to_summary(1, 1, 1, 2, 0, false, vec![]);
    let data_dir = "/tmp/dummy";
    let output = format_to_letterboxd_summary(&s, data_dir, true);

    let watchlist_line = output
        .lines()
        .find(|l| l.contains("Watchlist CSV"))
        .expect("output must contain a 'Watchlist CSV' next-step line");

    assert!(
        !watchlist_line.contains("letterboxd.com/import"),
        "watchlist next-step must NOT reference letterboxd.com/import (that endpoint marks films watched, not want-to-watch); line was:\n  {watchlist_line}"
    );
}

/// The watchlist next-step must name the sidebar link the user clicks to
/// open the watchlist importer ('Import films to watchlist').
#[test]
fn fg18_watchlist_next_step_names_import_films_to_watchlist_ui() {
    let s = make_to_summary(1, 1, 1, 2, 0, false, vec![]);
    let data_dir = "/tmp/dummy";
    let output = format_to_letterboxd_summary(&s, data_dir, true);

    assert!(
        output.contains("Import films to watchlist"),
        "watchlist next-step must reference the 'Import films to watchlist' sidebar link; got:\n{output}"
    );
}

/// The watchlist next-step must name the submit button the user clicks
/// ('Add films to watchlist') to distinguish it from the diary importer.
#[test]
fn fg18_watchlist_next_step_names_add_films_to_watchlist_button() {
    let s = make_to_summary(1, 1, 1, 2, 0, false, vec![]);
    let data_dir = "/tmp/dummy";
    let output = format_to_letterboxd_summary(&s, data_dir, true);

    assert!(
        output.contains("Add films to watchlist"),
        "watchlist next-step must reference the 'Add films to watchlist' button; got:\n{output}"
    );
}

/// The diary next-step must route to letterboxd.com/import — the correct
/// endpoint for marking films as watched.
#[test]
fn fg18_diary_next_step_routes_to_letterboxd_com_import() {
    let s = make_to_summary(3, 2, 3, 0, 0, false, vec![]);
    let data_dir = "/tmp/dummy";
    let output = format_to_letterboxd_summary(&s, data_dir, true);

    // The next-step line for the diary CSV contains both "Diary CSV" and
    // the arrow character "→". The file-path line does not contain "→".
    let diary_step_line = output
        .lines()
        .find(|l| l.contains("Diary CSV") && l.contains('\u{2192}'))
        .expect("output must contain a 'Diary CSV →' next-step line");

    assert!(
        diary_step_line.contains("letterboxd.com/import"),
        "diary next-step must reference letterboxd.com/import; line was:\n  {diary_step_line}"
    );
}

/// The two CSV files must appear as two distinct numbered destinations in
/// the next-steps section, so the user knows to handle them separately.
#[test]
fn fg18_diary_and_watchlist_presented_as_two_distinct_next_step_destinations() {
    let s = make_to_summary(5, 3, 5, 4, 0, false, vec![]);
    let data_dir = "/tmp/dummy";
    let output = format_to_letterboxd_summary(&s, data_dir, true);

    // Both numbered steps must appear.
    assert!(
        output.contains("1.") && output.contains("2."),
        "next-steps must have at least two numbered items; got:\n{output}"
    );

    // Each CSV is called out on its own step line.
    let diary_step = output
        .lines()
        .find(|l| l.contains("Diary CSV"))
        .expect("a step must mention 'Diary CSV'");
    let watchlist_step = output
        .lines()
        .find(|l| l.contains("Watchlist CSV"))
        .expect("a step must mention 'Watchlist CSV'");

    assert_ne!(
        diary_step, watchlist_step,
        "Diary CSV and Watchlist CSV must be on separate lines (distinct destinations)"
    );
}

// ── List cap truncation ───────────────────────────────────────────────────

#[test]
fn from_letterboxd_list_cap_truncates_unmatched_with_correct_overflow() {
    // 25 unmatched films (> DETAIL_LIST_CAP of 20) must print first 20
    // followed by "... and 5 more".
    let unmatched: Vec<UnmatchedFilm> = (0..25)
        .map(|i| UnmatchedFilm {
            title: format!("Film {i}"),
            year: 2000 + i,
            reason: "no match".to_string(),
        })
        .collect();
    let s = make_from_summary(0, 0, 0, 0, 0, 0, unmatched, vec![], false);
    let output = format_from_letterboxd_summary(&s);

    let overflow_line = format!("    ... and {} more", 25 - DETAIL_LIST_CAP);
    assert!(
        output.contains(&overflow_line),
        "output must contain '{overflow_line}'; got:\n{output}"
    );
    // Exactly 20 film lines should appear (Film 0 through Film 19).
    let listed = (0..20)
        .filter(|i| output.contains(&format!("Film {i}")))
        .count();
    assert_eq!(listed, 20, "must list exactly 20 films before truncating");
    // Film 20-24 must not appear individually.
    assert!(
        !output.contains("Film 20"),
        "Film 20 must be truncated, not listed"
    );
}

#[test]
fn from_letterboxd_list_cap_truncates_errored_with_correct_overflow() {
    // 22 errored items (> cap of 20) must show "... and 2 more".
    let errored: Vec<sync_from_letterboxd::ErroredItem> = (0..22)
        .map(|i| sync_from_letterboxd::ErroredItem {
            title: format!("Error Film {i}"),
            year: 2000 + i,
            reason: "write failed".to_string(),
        })
        .collect();
    let s = make_from_summary(0, 0, 0, 0, 0, 0, vec![], errored, false);
    let output = format_from_letterboxd_summary(&s);

    let overflow_line = format!("    ... and {} more", 22 - DETAIL_LIST_CAP);
    assert!(
        output.contains(&overflow_line),
        "output must contain '{overflow_line}'; got:\n{output}"
    );
    assert!(
        !output.contains("Error Film 20"),
        "Error Film 20 must be truncated"
    );
}

#[test]
fn to_letterboxd_list_cap_truncates_errored_with_correct_overflow() {
    // 21 errored items must show "... and 1 more".
    let errored: Vec<sync_to_letterboxd::ErroredItem> = (0..21)
        .map(|i| sync_to_letterboxd::ErroredItem {
            title: format!("T2L Error {i}"),
            year: 2000 + i,
            reason: "file error".to_string(),
        })
        .collect();
    let s = make_to_summary(0, 0, 0, 0, 0, false, errored);
    let data_dir = "/tmp/dummy";
    let output = format_to_letterboxd_summary(&s, data_dir, true);

    let overflow_line = format!("    ... and {} more", 21 - DETAIL_LIST_CAP);
    assert!(
        output.contains(&overflow_line),
        "output must contain '{overflow_line}'; got:\n{output}"
    );
    assert!(
        !output.contains("T2L Error 20"),
        "T2L Error 20 must be truncated"
    );
}

// ── Bucket lines in to-letterboxd summary ────────────────────────────────

#[test]
fn to_letterboxd_bucket_lines_shown_when_lb_export_fields_nonzero() {
    let mut s = make_to_summary(289, 0, 0, 0, 0, false, vec![]);
    s.enriched = 21;
    s.skipped_bulk = 58;
    s.skipped_existing = 2;
    s.net_new_bulk = 28;
    let data_dir = "/tmp/dummy";
    let output = format_to_letterboxd_summary(&s, data_dir, true);

    assert!(
        output.contains("Net-new (clean date):"),
        "output must contain 'Net-new (clean date):'; got:\n{output}"
    );
    assert!(
        output.contains("Net-new (bulk date, blank):"),
        "output must contain 'Net-new (bulk date, blank):'; got:\n{output}"
    );
    assert!(
        output.contains("Enriched (date added):"),
        "output must contain 'Enriched (date added):'; got:\n{output}"
    );
    assert!(
        output.contains("Skipped (bulk+dateless):"),
        "output must contain 'Skipped (bulk+dateless):'; got:\n{output}"
    );
    assert!(
        output.contains("Skipped (already dated):"),
        "output must contain 'Skipped (already dated):'; got:\n{output}"
    );

    // net_new_clean = diary_rows - net_new_bulk - enriched = 289 - 28 - 21 = 240
    assert!(
        output.contains("Net-new (clean date):       240"),
        "net-new clean count must be 240; got:\n{output}"
    );
    assert!(
        output.contains("Net-new (bulk date, blank): 28"),
        "net-new bulk count must be 28; got:\n{output}"
    );
    assert!(
        output.contains("Enriched (date added):      21"),
        "enriched count must be 21; got:\n{output}"
    );
    assert!(
        output.contains("Skipped (bulk+dateless):    58"),
        "skipped bulk count must be 58; got:\n{output}"
    );
    assert!(
        output.contains("Skipped (already dated):    2"),
        "skipped existing count must be 2; got:\n{output}"
    );
}

#[test]
fn to_letterboxd_bucket_lines_hidden_when_all_four_are_zero() {
    // With no lb_export (all four new fields = 0), output must be identical to the
    // baseline without an export (no bucket section).
    let s = make_to_summary(5, 3, 5, 2, 0, false, vec![]);
    let data_dir = "/tmp/dummy";
    let output = format_to_letterboxd_summary(&s, data_dir, true);

    assert!(
        !output.contains("Net-new (clean date):"),
        "bucket lines must be absent when no lb_export provided; got:\n{output}"
    );
    assert!(
        !output.contains("Enriched (date added):"),
        "bucket lines must be absent when no lb_export provided; got:\n{output}"
    );
    assert!(
        !output.contains("Skipped (bulk+dateless):"),
        "bucket lines must be absent when no lb_export provided; got:\n{output}"
    );
    assert!(
        !output.contains("Skipped (already dated):"),
        "bucket lines must be absent when no lb_export provided; got:\n{output}"
    );
}

#[test]
fn ratings_omitted_note_appears_when_include_ratings_false_and_ratings_in_diary_positive() {
    let s = make_to_summary(3, 3, 3, 0, 0, false, vec![]);
    let data_dir = "/tmp/dummy";
    let output = format_to_letterboxd_summary(&s, data_dir, false);

    assert!(
        output.contains("Ratings omitted from CSV"),
        "ratings-omitted note must appear when include_ratings=false and ratings_in_diary>0; got:\n{output}"
    );
    assert!(
        output.contains("--include-ratings"),
        "ratings-omitted note must mention --include-ratings flag; got:\n{output}"
    );
    assert!(
        output.contains("Letterboxd import overwrites existing ratings"),
        "ratings-omitted note must warn about overwrite; got:\n{output}"
    );
}

#[test]
fn ratings_omitted_note_absent_when_include_ratings_true() {
    let s = make_to_summary(3, 3, 3, 0, 0, false, vec![]);
    let data_dir = "/tmp/dummy";
    let output = format_to_letterboxd_summary(&s, data_dir, true);

    assert!(
        !output.contains("Ratings omitted from CSV"),
        "ratings-omitted note must be absent when include_ratings=true; got:\n{output}"
    );
}

#[test]
fn ratings_omitted_note_absent_when_ratings_in_diary_zero() {
    let s = make_to_summary(3, 0, 0, 0, 0, false, vec![]);
    let data_dir = "/tmp/dummy";
    let output = format_to_letterboxd_summary(&s, data_dir, false);

    assert!(
        !output.contains("Ratings omitted from CSV"),
        "ratings-omitted note must be absent when ratings_in_diary=0; got:\n{output}"
    );
}

#[test]
fn to_letterboxd_dry_run_names_no_csv_and_no_next_steps() {
    let s = make_to_summary(3, 1, 1, 2, 0, true, vec![]);
    let output = format_to_letterboxd_summary(&s, "/tmp/dummy", false);
    assert!(output.starts_with("[DRY RUN] Trakt \u{2192} Letterboxd export (no files written)\n"));
    assert!(!output.contains("Diary CSV:"));
    assert!(!output.contains("Next steps:"));
    let real = format_to_letterboxd_summary(&make_to_summary(3, 1, 1, 2, 0, false, vec![]), "/tmp/dummy", false);
    assert!(real.starts_with("Trakt \u{2192} Letterboxd export complete\n"));
    assert!(real.contains("Next steps:"));
}

#[test]
fn unmatched_list_within_cap_has_no_overflow_line() {
    let unmatched: Vec<UnmatchedFilm> = (0..20)
        .map(|i| UnmatchedFilm {
            title: format!("Film {i}"),
            year: 2000 + i,
            reason: "no match".to_string(),
        })
        .collect();
    let s = make_from_summary(0, 0, 0, 0, 0, 0, unmatched, vec![], false);
    let output = format_from_letterboxd_summary(&s);
    assert!(output.contains("  Unmatched films (20):\n"));
    assert!(output.contains("    - Film 19 (2019): no match\n"));
    assert!(!output.contains("more\n"));
}

#[test]
fn near_year_section_lists_every_warning() {
    let mut s = make_from_summary(0, 0, 0, 0, 0, 0, vec![], vec![], false);
    s.year_tolerance_warnings = (0..25)
        .map(|i| format!("Film {i} ({}) matched Trakt year {}", 2000 + i, 2001 + i))
        .collect();
    let output = format_from_letterboxd_summary(&s);
    assert!(output.contains("  Near-year matches (25) \u{2014} please verify:\n"));
    for i in 0..25 {
        assert!(output.contains(&format!("    - Film {i} ({}) matched Trakt year {}\n", 2000 + i, 2001 + i)));
    }
    assert!(!output.contains("more\n"));
}
