use trakt_letterboxd::sync_state::{state_path, Direction, ItemRef, ItemType, SyncKey, SyncState};

fn watched_l2t(id: u64, date: &str) -> SyncKey {
    SyncKey::new(
        Direction::LetterboxdToTrakt,
        ItemType::Watched,
        ItemRef::Tmdb(id),
        date,
    )
}

fn watched_t2l(id: u64, date: &str) -> SyncKey {
    SyncKey::new(
        Direction::TraktToLetterboxd,
        ItemType::Watched,
        ItemRef::Tmdb(id),
        date,
    )
}

#[test]
fn mark_and_contains_round_trip() {
    let mut state = SyncState::new();

    let key = watched_l2t(12345, "2024-01-15");
    assert!(!state.contains(&key));

    state.mark(watched_l2t(12345, "2024-01-15"));
    assert!(state.contains(&watched_l2t(12345, "2024-01-15")));
}

#[test]
fn missing_file_returns_empty_state() {
    let state = SyncState::new();
    assert!(state.is_empty());
}

#[test]
fn tmdb_key_and_title_year_key_are_distinct() {
    let tmdb_key = SyncKey::new(
        Direction::LetterboxdToTrakt,
        ItemType::Watched,
        ItemRef::Tmdb(12345),
        "2024-01-15",
    );
    let title_key = SyncKey::new(
        Direction::LetterboxdToTrakt,
        ItemType::Watched,
        ItemRef::TitleYear("The Matrix".to_string(), 1999),
        "2024-01-15",
    );

    let mut state = SyncState::new();
    state.mark(tmdb_key);
    assert!(!state.contains(&title_key));
}

#[test]
fn same_item_two_directions_tracked_independently() {
    let mut state = SyncState::new();

    state.mark(watched_l2t(77, "2024-03-01"));

    assert!(state.contains(&watched_l2t(77, "2024-03-01")));
    assert!(!state.contains(&watched_t2l(77, "2024-03-01")));

    state.mark(watched_t2l(77, "2024-03-01"));
    assert!(state.contains(&watched_t2l(77, "2024-03-01")));
    assert_eq!(state.len(), 2);
}

#[test]
fn clear_direction_removes_only_that_direction() {
    let mut state = SyncState::new();

    state.mark(watched_l2t(1, "2024-01-01"));
    state.mark(watched_t2l(2, "2024-01-02"));

    state.clear_direction(&Direction::LetterboxdToTrakt);

    assert!(!state.contains(&watched_l2t(1, "2024-01-01")));
    assert!(state.contains(&watched_t2l(2, "2024-01-02")));
}

#[test]
fn watchlist_entry_with_empty_date() {
    let mut state = SyncState::new();

    let key = SyncKey::new(
        Direction::LetterboxdToTrakt,
        ItemType::Watchlist,
        ItemRef::Tmdb(500),
        "",
    );
    state.mark(SyncKey::new(
        Direction::LetterboxdToTrakt,
        ItemType::Watchlist,
        ItemRef::Tmdb(500),
        "",
    ));
    assert!(state.contains(&key));
}

#[test]
fn title_year_normalization_is_stable() {
    let k1 = SyncKey::new(
        Direction::TraktToLetterboxd,
        ItemType::Rating,
        ItemRef::TitleYear("The Matrix".to_string(), 1999),
        "2024-01-01",
    );
    let k2 = SyncKey::new(
        Direction::TraktToLetterboxd,
        ItemType::Rating,
        ItemRef::TitleYear("The Matrix".to_string(), 1999),
        "2024-01-01",
    );
    assert_eq!(k1.as_key(), k2.as_key());
}

#[test]
fn title_year_whitespace_normalized_to_same_key() {
    let canonical = SyncKey::new(
        Direction::LetterboxdToTrakt,
        ItemType::Watched,
        ItemRef::TitleYear("The Matrix".to_string(), 1999),
        "1999-03-31",
    );
    let trailing_space = SyncKey::new(
        Direction::LetterboxdToTrakt,
        ItemType::Watched,
        ItemRef::TitleYear("the matrix ".to_string(), 1999),
        "1999-03-31",
    );
    let double_space = SyncKey::new(
        Direction::LetterboxdToTrakt,
        ItemType::Watched,
        ItemRef::TitleYear("the  matrix".to_string(), 1999),
        "1999-03-31",
    );
    assert_eq!(
        canonical.as_key(),
        trailing_space.as_key(),
        "trailing whitespace must normalize to the same key"
    );
    assert_eq!(
        canonical.as_key(),
        double_space.as_key(),
        "internal double-space must collapse to the same key"
    );
}

#[test]
fn mark_is_idempotent() {
    let mut state = SyncState::new();

    state.mark(watched_l2t(42, "2024-01-01"));
    state.mark(watched_l2t(42, "2024-01-01"));

    assert_eq!(
        state.len(),
        1,
        "marking the same key twice must not double-count"
    );
}

#[test]
fn tmdb_zero_and_empty_title_are_stable_no_panic() {
    let zero = SyncKey::new(
        Direction::LetterboxdToTrakt,
        ItemType::Watched,
        ItemRef::Tmdb(0),
        "2024-01-01",
    );
    let key_str = zero.as_key();
    assert!(key_str.contains("tmdb:0"));
    let zero2 = SyncKey::new(
        Direction::LetterboxdToTrakt,
        ItemType::Watched,
        ItemRef::Tmdb(0),
        "2024-01-01",
    );
    assert_eq!(zero.as_key(), zero2.as_key());

    let empty_title = SyncKey::new(
        Direction::LetterboxdToTrakt,
        ItemType::Watched,
        ItemRef::TitleYear(String::new(), 1999),
        "2024-01-01",
    );
    let empty_str = empty_title.as_key();
    assert!(!empty_str.is_empty());
    let empty_title2 = SyncKey::new(
        Direction::LetterboxdToTrakt,
        ItemType::Watched,
        ItemRef::TitleYear(String::new(), 1999),
        "2024-01-01",
    );
    assert_eq!(empty_title.as_key(), empty_title2.as_key());

    let mut state = SyncState::new();
    state.mark(SyncKey::new(
        Direction::LetterboxdToTrakt,
        ItemType::Watched,
        ItemRef::Tmdb(0),
        "2024-01-01",
    ));
    state.mark(SyncKey::new(
        Direction::LetterboxdToTrakt,
        ItemType::Watched,
        ItemRef::TitleYear(String::new(), 1999),
        "2024-01-01",
    ));
    assert_eq!(state.len(), 2);
}

#[test]
fn key_text_has_documented_shape() {
    assert_eq!(
        watched_l2t(12345, "2024-01-15").as_key(),
        "L2T|watched|tmdb:12345|2024-01-15"
    );
    let k = SyncKey::new(
        Direction::TraktToLetterboxd,
        ItemType::Watchlist,
        ItemRef::TitleYear("  The   Matrix ".to_string(), 1999),
        "",
    );
    assert_eq!(k.as_key(), "T2L|watchlist|title:the_matrix:1999|");
}

#[test]
fn keys_lists_each_key_once_in_order() {
    let state = SyncState::from_keys(vec![
        "L2T|watched|tmdb:1|2024-01-01".to_string(),
        "T2L|watched|tmdb:2|2024-01-02".to_string(),
        "L2T|watched|tmdb:1|2024-01-01".to_string(),
    ]);
    assert_eq!(state.len(), 2);
    assert_eq!(
        state.keys(),
        vec![
            "L2T|watched|tmdb:1|2024-01-01".to_string(),
            "T2L|watched|tmdb:2|2024-01-02".to_string()
        ]
    );
    assert!(state.contains(&watched_l2t(1, "2024-01-01")));
}

#[test]
fn mark_all_records_every_key() {
    let mut state = SyncState::new();
    state.mark_all(vec![watched_l2t(1, "2024-01-01"), watched_l2t(2, "2024-01-02")]);
    assert_eq!(state.len(), 2);
    assert!(state.contains(&watched_l2t(2, "2024-01-02")));
}

#[test]
fn clear_direction_on_forced_run_leaves_nothing_of_that_direction() {
    let mut state = SyncState::new();
    state.mark(watched_l2t(1, "2024-01-01"));
    state.mark(watched_l2t(2, "2024-01-02"));
    state.clear_direction(&Direction::LetterboxdToTrakt);
    assert!(state.is_empty());
}

#[test]
fn state_file_lives_in_data_dir() {
    assert_eq!(state_path("/tmp/data"), "/tmp/data/sync_state.json");
}

#[test]
fn persistence_round_trip() {
    // What a save writes (the keys) and a load reads back (a store of them).
    let mut state = SyncState::new();
    state.mark(watched_l2t(42, "2024-06-01"));
    state.mark(watched_l2t(99, "2024-06-02"));
    let state = SyncState::from_keys(state.keys());
    assert!(state.contains(&watched_l2t(42, "2024-06-01")));
    assert!(state.contains(&watched_l2t(99, "2024-06-02")));
    assert!(!state.contains(&watched_l2t(1, "2024-06-01")));
    assert_eq!(state.len(), 2);
}

#[test]
fn large_state_save_load_all_present() {
    let mut state = SyncState::new();
    for i in 0u64..1000 {
        state.mark(watched_l2t(i, "2024-01-01"));
    }
    assert_eq!(state.len(), 1000);
    let loaded = SyncState::from_keys(state.keys());
    assert_eq!(loaded.len(), 1000);
    for i in 0u64..1000 {
        assert!(loaded.contains(&watched_l2t(i, "2024-01-01")));
    }
}
