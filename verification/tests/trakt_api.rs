use std::collections::HashMap;

use trakt_letterboxd::trakt_notes::{add_notes, note_reply, notes_page_url, notes_url, CreateNoteResult};
use trakt_letterboxd::trakt_read::{
    history_page_url, next_page, page_count_from, read_status_check, read_step,
    retry_after_secs, settings_status_check, settings_url, watchlist_page_url, ReadStep,
};
use trakt_letterboxd::trakt_write::{
    add_summary, build_ids, history_add_url, post_step, remove_summary, watchlist_remove_url,
    MovieId, PostStep, SyncSummary,
};

#[test]
fn id_prefers_tmdb_over_imdb() {
    let ids = build_ids(&MovieId {
        tmdb_id: Some(603),
        imdb_id: Some("tt0133093".to_string()),
    });
    assert_eq!(ids.tmdb_id, Some(603));
    assert_eq!(ids.imdb_id, None);
}

#[test]
fn id_falls_back_to_imdb() {
    let ids = build_ids(&MovieId {
        tmdb_id: None,
        imdb_id: Some("tt0133093".to_string()),
    });
    assert_eq!(ids.tmdb_id, None);
    assert_eq!(ids.imdb_id.as_deref(), Some("tt0133093"));
}

#[test]
fn post_outcomes_by_status() {
    assert!(matches!(post_step(200, None), PostStep::Done(1)));
    assert!(matches!(post_step(201, None), PostStep::Done(1)));
    assert!(matches!(post_step(429, Some("7")), PostStep::Retry(7)));
    assert!(matches!(post_step(429, None), PostStep::Retry(1)));
    assert!(matches!(post_step(429, Some("soon")), PostStep::Retry(1)));
    match post_step(500, None) {
        PostStep::Fail(m) => assert_eq!(m, "unexpected HTTP 500"),
        _ => panic!("500 must fail"),
    }
}

#[test]
fn response_summary_counts() {
    assert_eq!(
        add_summary(Some(3), Some(1), Some(2)),
        SyncSummary {
            added: 3,
            updated: 1,
            not_found: 2
        }
    );
    assert_eq!(
        add_summary(None, None, None),
        SyncSummary {
            added: 0,
            updated: 0,
            not_found: 0
        }
    );
    assert_eq!(
        remove_summary(Some(4), Some(1)),
        SyncSummary {
            added: 4,
            updated: 0,
            not_found: 1
        }
    );
}

#[test]
fn write_endpoints() {
    assert_eq!(history_add_url("https://api.trakt.tv"), "https://api.trakt.tv/sync/history");
    assert_eq!(
        watchlist_remove_url("https://api.trakt.tv"),
        "https://api.trakt.tv/sync/watchlist/remove"
    );
}

#[test]
fn note_reply_statuses() {
    assert!(matches!(note_reply(201), Ok(CreateNoteResult::Created)));
    assert!(matches!(note_reply(402), Ok(CreateNoteResult::OverLimit)));
    assert!(matches!(note_reply(422), Ok(CreateNoteResult::OverLimit)));
    assert_eq!(
        note_reply(500).unwrap_err(),
        "unexpected HTTP 500 from POST /notes"
    );
    assert_eq!(notes_url("https://x"), "https://x/notes");
    assert_eq!(
        notes_page_url("https://x", 2),
        "https://x/users/me/notes/movies?page=2&limit=100"
    );
}

#[test]
fn fetch_movie_notes_first_note_per_film_wins() {
    let mut notes: HashMap<u64, String> = HashMap::new();
    add_notes(
        &mut notes,
        vec![
            (Some(603), "first".to_string()),
            (None, "no id".to_string()),
            (Some(603), "second".to_string()),
        ],
    );
    add_notes(&mut notes, vec![(Some(603), "third".to_string()), (Some(1), "x".to_string())]);
    assert_eq!(notes.len(), 2);
    assert_eq!(notes[&603], "first");
    assert_eq!(notes[&1], "x");
}

#[test]
fn paging_and_retry() {
    assert_eq!(page_count_from(Some("3")), 3);
    assert_eq!(page_count_from(Some("x")), 1);
    assert_eq!(page_count_from(None), 1);
    assert_eq!(next_page(1, 3), Some(2));
    assert_eq!(next_page(3, 3), None);
    assert!(matches!(read_step(429, None), ReadStep::Retry(5)));
    assert!(matches!(read_step(429, Some("2")), ReadStep::Retry(2)));
    assert!(matches!(read_step(200, Some("2")), ReadStep::Accept));
    assert_eq!(retry_after_secs(Some("bad"), 9), 9);
    assert_eq!(
        history_page_url("https://api.trakt.tv", 2),
        "https://api.trakt.tv/sync/history/movies?page=2&limit=100"
    );
    assert_eq!(
        watchlist_page_url("https://api.trakt.tv", 1),
        "https://api.trakt.tv/sync/watchlist/movies?page=1&limit=100"
    );
}

#[test]
fn read_errors_name_what_and_status() {
    assert!(read_status_check("history", 200).is_ok());
    assert_eq!(
        read_status_check("history", 500).unwrap_err(),
        "history fetch failed: HTTP 500"
    );
    assert_eq!(settings_url("https://x"), "https://x/users/settings");
    assert_eq!(
        settings_status_check(401).unwrap_err(),
        "failed to fetch user settings: HTTP 401"
    );
}

#[test]
fn retry_after_reads_as_std_parses_an_unsigned_number() {
    assert!(matches!(post_step(429, Some("+12")), PostStep::Retry(12)));
    assert!(matches!(post_step(429, Some("0030")), PostStep::Retry(30)));
    assert!(matches!(post_step(429, Some("")), PostStep::Retry(1)));
    assert!(matches!(post_step(429, Some("+")), PostStep::Retry(1)));
    assert!(matches!(post_step(429, Some("-5")), PostStep::Retry(1)));
    assert!(matches!(post_step(429, Some(" 5")), PostStep::Retry(1)));
    assert!(matches!(
        post_step(429, Some("18446744073709551615")),
        PostStep::Retry(18446744073709551615)
    ));
    assert!(matches!(post_step(429, Some("18446744073709551616")), PostStep::Retry(1)));
}

#[test]
fn page_count_header_past_u32_falls_back_to_one() {
    assert_eq!(page_count_from(Some("4294967295")), 4294967295);
    assert_eq!(page_count_from(Some("4294967296")), 1);
    assert_eq!(page_count_from(Some("+2")), 2);
}
