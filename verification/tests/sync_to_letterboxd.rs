use std::collections::HashMap;

use trakt_letterboxd::letterboxd_export::LetterboxdExport;
use trakt_letterboxd::letterboxd_import::write_diary_csv;
use trakt_letterboxd::sync_state::{Direction, SyncState};
use trakt_letterboxd::sync_to_letterboxd::{
    normalize_title, plan_diary, plan_watchlist, ratings_in_diary, reviews_in_diary,
    watched_key, watchlist_entry_key, LbLibrary,
};
use trakt_letterboxd::trakt_read::{MovieRecord, RatedMovie, WatchedMovie, WatchlistMovie};

fn record(title: &str, year: u32, tmdb: Option<u64>) -> MovieRecord {
    MovieRecord {
        title: title.to_string(),
        year: Some(year),
        trakt_id: None,
        slug: None,
        imdb_id: None,
        tmdb_id: tmdb,
    }
}

fn play(title: &str, year: u32, tmdb: u64, at: &str) -> WatchedMovie {
    WatchedMovie {
        watched_at: at.to_string(),
        movie: record(title, year, Some(tmdb)),
    }
}

fn diary_csv(entries: &[(&str, u32, &str)]) -> String {
    let mut s = String::from("Date,Name,Year,Letterboxd URI,Rating,Rewatch,Tags,Watched Date\n");
    for (name, year, watched_date) in entries {
        s.push_str(&format!(
            "2024-01-01,{name},{year},https://letterboxd.com/film/slug/,,,,{watched_date}\n"
        ));
    }
    s
}

fn library(entries: &[(&str, u32, &str)]) -> LbLibrary {
    let diary = diary_csv(entries);
    let export = LetterboxdExport::from_texts(Some(&diary), None, None, None, None);
    LbLibrary::from_export(&export)
}

#[test]
fn title_normalisation_case_insensitive_and_strips_article() {
    assert_eq!(normalize_title("The Matrix"), "matrix");
    assert_eq!(normalize_title("the matrix"), "matrix");
    let lib = library(&[("The Matrix", 1999, "1999-03-31")]);
    let history = vec![play("the matrix", 1999, 603, "2024-01-15T20:30:00.000Z")];
    let plan = plan_diary(&history, Some(&lib), &SyncState::new());
    assert_eq!(
        plan.skipped_existing, 1,
        "'the matrix' (Trakt) must match 'The Matrix' (LB) case-insensitively"
    );
    assert!(plan.entries.is_empty());
}

#[test]
fn title_normalisation_strips_leading_a_article() {
    assert_eq!(normalize_title("A Quiet Place"), "quiet place");
    let lib = library(&[("A Quiet Place", 2018, "2018-04-10")]);
    let history = vec![play("Quiet Place", 2018, 447332, "2024-01-15T20:30:00.000Z")];
    let plan = plan_diary(&history, Some(&lib), &SyncState::new());
    assert_eq!(plan.skipped_existing, 1);
}

#[test]
fn title_normalisation_strips_leading_an_article() {
    assert_eq!(normalize_title("An Education"), "education");
    let lib = library(&[("An Education", 2009, "2009-11-01")]);
    let history = vec![play("Education", 2009, 24684, "2024-01-15T20:30:00.000Z")];
    let plan = plan_diary(&history, Some(&lib), &SyncState::new());
    assert_eq!(plan.skipped_existing, 1);
}

#[test]
fn normalize_title_keeps_words_that_only_start_like_articles() {
    assert_eq!(normalize_title("Theory of Everything"), "theory of everything");
    assert_eq!(normalize_title("Annie Hall"), "annie hall");
    assert_eq!(normalize_title("The"), "the");
}

#[test]
fn no_lb_export_new_summary_fields_are_zero() {
    let history = vec![
        play("The Matrix", 1999, 603, "2024-01-15T20:30:00.000Z"),
        play("Dune", 2021, 438631, "2024-01-16T20:30:00.000Z"),
    ];
    let plan = plan_diary(&history, None, &SyncState::new());
    assert_eq!(plan.entries.len(), 2);
    assert_eq!(plan.enriched, 0);
    assert_eq!(plan.skipped_existing, 0);
    assert_eq!(plan.skipped_bulk, 0);
    assert_eq!(plan.net_new_bulk, 0);
    assert!(plan.entries.iter().all(|(_, d)| d.is_none()));
}

#[test]
fn lb_export_dateless_film_clean_day_is_enriched() {
    // Matrix is in the LB diary without a watched date, and its watch day is clean.
    let lib = library(&[("The Matrix", 1999, "")]);
    let history = vec![play("The Matrix", 1999, 603, "2024-01-15T20:30:00.000Z")];
    let plan = plan_diary(&history, Some(&lib), &SyncState::new());
    assert_eq!(plan.enriched, 1, "dateless film on clean day must enrich");
    assert_eq!(plan.entries.len(), 1, "enriched film emits a diary row");
    assert_eq!(plan.skipped_existing, 0);
    assert_eq!(plan.skipped_bulk, 0);
    assert_eq!(plan.net_new_bulk, 0);
    let diary = write_diary_csv(&plan.entries, &[], &HashMap::new(), true).unwrap();
    let lines: Vec<&str> = diary.lines().collect();
    assert!(lines[1].contains("2024-01-15"), "enriched row must carry Trakt date: {}", lines[1]);
}

#[test]
fn bulk_boundary_nine_films_is_not_bulk() {
    let history: Vec<WatchedMovie> = (0..9)
        .map(|i| play(&format!("Film {i}"), 2000, 1000 + i, "2024-03-01T10:00:00.000Z"))
        .collect();
    let lib = library(&[]);
    let plan = plan_diary(&history, Some(&lib), &SyncState::new());
    assert_eq!(plan.net_new_bulk, 0);
    assert_eq!(plan.entries.len(), 9);
    assert!(plan.entries.iter().all(|(_, d)| d.is_none()));
}

#[test]
fn bulk_boundary_exactly_ten_films_triggers_bulk() {
    let history: Vec<WatchedMovie> = (0..10)
        .map(|i| play(&format!("Film {i}"), 2000, 1000 + i, "2024-03-01T10:00:00.000Z"))
        .collect();
    let lib = library(&[]);
    let plan = plan_diary(&history, Some(&lib), &SyncState::new());
    assert_eq!(plan.net_new_bulk, 10);
    assert_eq!(plan.entries.len(), 10);
    assert!(plan.entries.iter().all(|(_, d)| *d == Some("")));
}

#[test]
fn lb_export_dateless_film_bulk_day_is_skipped_bulk() {
    // Matrix is dateless on LB; all 10 films are on the same day (bulk cluster).
    let lib = library(&[("The Matrix", 1999, "")]);
    let bulk_day = "2023-09-10T00:00:00.000Z";
    let history = vec![
        play("The Matrix", 1999, 603, bulk_day),
        play("Film B", 2001, 1, bulk_day),
        play("Film C", 2002, 2, bulk_day),
        play("Film D", 2003, 3, bulk_day),
        play("Film E", 2004, 4, bulk_day),
        play("Film F", 2005, 5, bulk_day),
        play("Film G", 2006, 6, bulk_day),
        play("Film H", 2007, 7, bulk_day),
        play("Film I", 2008, 8, bulk_day),
        play("Film J", 2009, 9, bulk_day),
    ];
    let plan = plan_diary(&history, Some(&lib), &SyncState::new());
    assert_eq!(plan.skipped_bulk, 1, "dateless film on bulk day must be skipped");
    assert_eq!(plan.net_new_bulk, 9);
    assert_eq!(plan.entries.len(), 9, "9 net-new bulk rows emitted");
    assert_eq!(plan.skipped_existing, 0);
    assert_eq!(plan.enriched, 0);
}

#[test]
fn skipped_bulk_and_existing_not_marked_in_sync_state() {
    // LB export: Matrix is dated (skipped_existing); Film B is dateless (skipped_bulk).
    let lib = library(&[("The Matrix", 1999, "1999-03-31"), ("Film B", 2001, "")]);
    let bulk_day = "2023-09-10T00:00:00.000Z";
    let history = vec![
        play("The Matrix", 1999, 603, "2024-01-15T20:30:00.000Z"),
        play("Film B", 2001, 1, bulk_day),
        play("Film C", 2002, 2, bulk_day),
        play("Film D", 2003, 3, bulk_day),
        play("Film E", 2004, 4, bulk_day),
        play("Film F", 2005, 5, bulk_day),
        play("Film G", 2006, 6, bulk_day),
        play("Film H", 2007, 7, bulk_day),
        play("Film I", 2008, 8, bulk_day),
        play("Film J", 2009, 9, bulk_day),
        play("Film K", 2010, 10, bulk_day),
    ];
    let s1 = plan_diary(&history, Some(&lib), &SyncState::new());
    assert_eq!(s1.skipped_existing, 1, "Matrix must be skipped_existing");
    assert_eq!(s1.skipped_bulk, 1, "Film B must be skipped_bulk");
    assert_eq!(s1.net_new_bulk, 9);
    assert_eq!(s1.entries.len(), 9);

    // Only emitted films (C-K) are recorded.
    let mut state = SyncState::new();
    state.mark_all(s1.keys);
    let matrix_key = SyncKey::new(
        Direction::TraktToLetterboxd,
        ItemType::Watched,
        ItemRef::Tmdb(603),
        "2024-01-15",
    );
    assert!(!state.contains(&matrix_key), "skipped_existing (Matrix) must not be recorded");
    let film_b_key = SyncKey::new(
        Direction::TraktToLetterboxd,
        ItemType::Watched,
        ItemRef::Tmdb(1),
        "2023-09-10",
    );
    assert!(!state.contains(&film_b_key), "skipped_bulk (Film B) must not be recorded");

    // Second run without LB export: Matrix and Film B are classified again.
    let s2 = plan_diary(&history, None, &state);
    assert_eq!(s2.skipped, 9, "Films C-K (emitted in run 1) must be skipped on run 2");
    assert_eq!(s2.entries.len(), 2, "Matrix and Film B must be emitted on the second run");
}

#[test]
fn already_exported_watched_items_are_skipped() {
    let history = vec![play("The Matrix", 1999, 603, "2024-01-15T20:30:00.000Z")];
    let mut state = SyncState::new();
    state.mark(watched_key(&history[0]));
    let plan = plan_diary(&history, None, &state);
    assert_eq!(plan.skipped, 1);
    assert!(plan.entries.is_empty());
}

#[test]
fn force_re_exports_already_exported_items() {
    let history = vec![play("The Matrix", 1999, 603, "2024-01-15T20:30:00.000Z")];
    let mut state = SyncState::new();
    state.mark(watched_key(&history[0]));
    state.clear_direction(&Direction::TraktToLetterboxd);
    let plan = plan_diary(&history, None, &state);
    assert_eq!(plan.skipped, 0);
    assert_eq!(plan.entries.len(), 1);
}

#[test]
fn state_saved_after_real_run_prevents_re_export() {
    let history = vec![
        play("The Matrix", 1999, 603, "2024-01-15T20:30:00.000Z"),
        play("Dune", 2021, 438631, "2024-01-16T20:30:00.000Z"),
    ];
    let first = plan_diary(&history, None, &SyncState::new());
    assert_eq!(first.entries.len(), 2);
    let mut state = SyncState::new();
    state.mark_all(first.keys);
    let second = plan_diary(&history, None, &state);
    assert!(second.entries.is_empty());
    assert_eq!(second.skipped, 2);
}

#[test]
fn watched_key_uses_the_watch_day() {
    let w = play("The Matrix", 1999, 603, "2024-01-15T20:30:00.000Z");
    assert_eq!(watched_key(&w).as_key(), "T2L|watched|tmdb:603|2024-01-15");
    let untitled = WatchedMovie {
        watched_at: "2024-01-15T20:30:00.000Z".to_string(),
        movie: MovieRecord {
            title: "The Matrix".to_string(),
            year: None,
            trakt_id: None,
            slug: None,
            imdb_id: None,
            tmdb_id: None,
        },
    };
    assert_eq!(
        watched_key(&untitled).as_key(),
        "T2L|watched|title:the_matrix:0|2024-01-15"
    );
}

#[test]
fn already_exported_watchlist_items_are_skipped() {
    let list = vec![
        WatchlistMovie {
            listed_at: "2024-01-01T00:00:00.000Z".to_string(),
            movie: record("Dune", 2021, Some(438631)),
        },
        WatchlistMovie {
            listed_at: "2024-01-02T00:00:00.000Z".to_string(),
            movie: record("Arrival", 2016, Some(329865)),
        },
    ];
    let mut state = SyncState::new();
    state.mark(watchlist_entry_key(&list[0]));
    assert_eq!(watchlist_entry_key(&list[0]).as_key(), "T2L|watchlist|tmdb:438631|");
    let plan = plan_watchlist(&list, &state);
    assert_eq!(plan.skipped, 1);
    assert_eq!(plan.movies.len(), 1);
    assert_eq!(plan.movies[0].movie.title, "Arrival");
}

#[test]
fn two_distinct_films_one_rewatched_gives_correct_ratings_counts() {
    let history = vec![
        play("The Matrix", 1999, 603, "2024-01-15T20:30:00.000Z"),
        play("The Matrix", 1999, 603, "2022-05-10T18:00:00.000Z"),
        play("Inception", 2010, 27205, "2010-07-16T00:00:00.000Z"),
    ];
    let ratings = vec![
        RatedMovie {
            rated_at: "2024-01-01T00:00:00.000Z".to_string(),
            rating: 8,
            movie: record("The Matrix", 1999, Some(603)),
        },
        RatedMovie {
            rated_at: "2024-01-01T00:00:00.000Z".to_string(),
            rating: 9,
            movie: record("Inception", 2010, Some(27205)),
        },
    ];
    let plan = plan_diary(&history, None, &SyncState::new());
    let diary_rows = plan.entries.len() as u32;
    let distinct_ratings = ratings.len() as u32;
    let in_diary = ratings_in_diary(&plan.entries, &ratings);
    assert_eq!(diary_rows, 3, "three diary rows (Matrix x2 + Inception)");
    assert_eq!(distinct_ratings, 2, "distinct_ratings counts unique rated films");
    assert_eq!(in_diary, 3, "ratings_in_diary counts all diary rows that carry a rating");
    assert!(in_diary > distinct_ratings);
}

#[test]
fn t2l_no_notes_reviews_in_diary_is_zero() {
    let history = vec![play("The Matrix", 1999, 603, "2024-01-15T20:30:00.000Z")];
    let plan = plan_diary(&history, None, &SyncState::new());
    let mut notes: HashMap<u64, String> = HashMap::new();
    assert_eq!(reviews_in_diary(&plan.entries, &notes), 0);
    notes.insert(603, "Loved it".to_string());
    assert_eq!(reviews_in_diary(&plan.entries, &notes), 1);
}

#[test]
fn real_world_oracle_all_buckets_scenario() {
    //   skipped_existing (1): Inception on bulk day, dated on LB
    //   skipped_bulk     (1): The Matrix on bulk day, dateless on LB
    //   net_new_bulk     (8): Film B-I on bulk day, not in LB
    //   enriched         (1): Dunno on clean day, dateless on LB
    //   net_new_clean    (1): The Dark Knight on a separate clean day
    let lib = library(&[
        ("Inception", 2010, "2010-07-16"),
        ("The Matrix", 1999, ""),
        ("Dunno", 2000, ""),
    ]);
    let bulk_day = "2023-09-10T00:00:00.000Z";
    let clean_day_1 = "2024-01-15T20:00:00.000Z";
    let clean_day_2 = "2024-01-16T20:00:00.000Z";
    let history = vec![
        play("Inception", 2010, 27205, bulk_day),
        play("The Matrix", 1999, 603, bulk_day),
        play("Film B", 2001, 1, bulk_day),
        play("Film C", 2002, 2, bulk_day),
        play("Film D", 2003, 3, bulk_day),
        play("Film E", 2004, 4, bulk_day),
        play("Film F", 2005, 5, bulk_day),
        play("Film G", 2006, 6, bulk_day),
        play("Film H", 2007, 7, bulk_day),
        play("Film I", 2008, 8, bulk_day),
        play("Dunno", 2000, 999, clean_day_1),
        play("The Dark Knight", 2008, 155, clean_day_2),
    ];
    let plan = plan_diary(&history, Some(&lib), &SyncState::new());
    assert_eq!(plan.skipped_existing, 1, "Inception must be skipped_existing");
    assert_eq!(plan.skipped_bulk, 1, "Matrix must be skipped_bulk");
    assert_eq!(plan.net_new_bulk, 8, "Film B-I must be net_new_bulk");
    assert_eq!(plan.enriched, 1, "Dunno must be enriched");
    assert_eq!(plan.entries.len(), 10, "8 net_new_bulk + 1 enriched + 1 net_new_clean");

    let diary = write_diary_csv(&plan.entries, &[], &HashMap::new(), false).unwrap();
    assert!(!diary.contains("Inception"), "skipped_existing must be absent from diary CSV");
    assert!(!diary.contains("The Matrix"), "skipped_bulk must be absent from diary CSV");
    for line in diary.lines().skip(1) {
        let fields: Vec<&str> = line.split(',').collect();
        let title = fields[0];
        let watched_date = fields[3];
        if title == "Dunno" {
            assert_eq!(watched_date, "2024-01-15", "enriched film must carry Trakt date");
        } else if title == "The Dark Knight" {
            assert_eq!(watched_date, "2024-01-16", "net_new_clean film must carry Trakt date");
        } else {
            assert_eq!(watched_date, "", "net_new_bulk film must have blank WatchedDate, got title={title}");
        }
    }
}

// --- The write phase ---

use trakt_letterboxd::sync_state::{ItemRef, ItemType, SyncKey};
use trakt_letterboxd::sync_to_letterboxd::{export_step, settle_export, ExportAction};

fn t2l_key(kind: ItemType, id: u64) -> SyncKey {
    SyncKey::new(Direction::TraktToLetterboxd, kind, ItemRef::Tmdb(id), "2024-01-01")
}

#[test]
fn export_step_dry_run_writes_and_saves_nothing() {
    assert!(matches!(export_step(true, false, false), ExportAction::Finish));
}

#[test]
fn export_step_writes_files_then_saves_once() {
    assert!(matches!(export_step(false, false, false), ExportAction::WriteFiles));
    assert!(matches!(export_step(false, true, false), ExportAction::Save));
    assert!(matches!(export_step(false, true, true), ExportAction::Finish));
}

#[test]
fn settle_export_records_emitted_rows_only_after_writing() {
    let mut state = SyncState::new();
    let failed = settle_export(
        &mut state,
        vec![t2l_key(ItemType::Watched, 1)],
        vec![t2l_key(ItemType::Watchlist, 2)],
        Err("failed to create diary CSV: denied".to_string()),
    );
    assert_eq!(failed, Err("failed to create diary CSV: denied".to_string()));
    assert!(state.is_empty());

    settle_export(
        &mut state,
        vec![t2l_key(ItemType::Watched, 1)],
        vec![t2l_key(ItemType::Watchlist, 2)],
        Ok(()),
    )
    .unwrap();
    assert!(state.contains(&t2l_key(ItemType::Watched, 1)));
    assert!(state.contains(&t2l_key(ItemType::Watchlist, 2)));
    assert!(!state.contains(&t2l_key(ItemType::Watched, 2)));
    assert_eq!(state.len(), 2);
}
