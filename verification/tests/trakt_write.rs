use std::collections::VecDeque;

use trakt_letterboxd::trakt_write::{add_summary, post_step, remove_summary, PostStep, SyncSummary};

/// Canned replies to sync POSTs: (status, body, Retry-After).
type Reply = (u16, String, Option<String>);

/// Posts until Trakt accepts, as the write client does, recording each wait.
fn post(replies: &mut VecDeque<Reply>, delays: &mut Vec<u64>) -> Result<String, String> {
    loop {
        let (status, body, retry_after) = replies.pop_front().ok_or("no more mock responses")?;
        match post_step(status, retry_after.as_deref()) {
            PostStep::Done(pause) => {
                delays.push(pause);
                return Ok(body);
            }
            PostStep::Retry(secs) => delays.push(secs),
            PostStep::Fail(m) => return Err(m),
        }
    }
}

fn count(v: &serde_json::Value, block: &str) -> Option<u32> {
    v[block]["movies"].as_u64().map(|n| n as u32)
}

fn not_found(v: &serde_json::Value) -> Option<usize> {
    v["not_found"]["movies"].as_array().map(|a| a.len())
}

/// The summary of an add to history or the watchlist.
fn add_reply(body: &str) -> SyncSummary {
    let v: serde_json::Value = serde_json::from_str(body).unwrap();
    add_summary(count(&v, "added"), count(&v, "existing"), not_found(&v))
}

fn remove_reply(body: &str) -> SyncSummary {
    let v: serde_json::Value = serde_json::from_str(body).unwrap();
    remove_summary(count(&v, "deleted"), not_found(&v))
}

fn history_add_resp(added: u32, existing: u32) -> String {
    format!(
        r#"{{"added":{{"movies":{added}}},"existing":{{"movies":{existing}}},"not_found":{{"movies":[]}}}}"#
    )
}

#[test]
fn rate_limit_retry_on_429_with_retry_after() {
    let mut replies: VecDeque<Reply> = VecDeque::from(vec![
        (429, "{}".to_string(), Some("3".to_string())),
        (200, history_add_resp(1, 0), None),
    ]);
    let mut delays = Vec::new();
    let summary = add_reply(&post(&mut replies, &mut delays).unwrap());
    assert_eq!(summary.added, 1);
    assert_eq!(delays, vec![3u64, 1u64]);
}

#[test]
fn rate_limit_retry_on_429_default_delay() {
    let mut replies: VecDeque<Reply> = VecDeque::from(vec![
        (429, "{}".to_string(), None),
        (200, history_add_resp(1, 0), None),
    ]);
    let mut delays = Vec::new();
    post(&mut replies, &mut delays).unwrap();
    assert_eq!(delays, vec![1u64, 1u64]);
}

#[test]
fn rate_limit_sleep_called_after_success() {
    let mut replies: VecDeque<Reply> = VecDeque::from(vec![(200, history_add_resp(1, 0), None)]);
    let mut delays = Vec::new();
    post(&mut replies, &mut delays).unwrap();
    assert_eq!(delays, vec![1u64]);
}

#[test]
fn response_summary_not_found_count() {
    let resp = r#"{"added":{"movies":1},"not_found":{"movies":[{"ids":{"tmdb":999}},{"ids":{"tmdb":888}}]}}"#;
    let mut replies: VecDeque<Reply> = VecDeque::from(vec![(200, resp.to_string(), None)]);
    let summary = add_reply(&post(&mut replies, &mut Vec::new()).unwrap());
    assert_eq!(summary.added, 1);
    assert_eq!(summary.not_found, 2);
}

#[test]
fn unexpected_http_status_returns_error() {
    let mut replies: VecDeque<Reply> =
        VecDeque::from(vec![(500, "internal error".to_string(), None)]);
    let err = post(&mut replies, &mut Vec::new()).unwrap_err();
    assert!(err.contains("500"), "expected 500 in error: {err}");
}

#[test]
fn existing_count_maps_to_updated_for_history_add() {
    let resp = r#"{"added":{"movies":2},"existing":{"movies":3},"not_found":{"movies":[]}}"#;
    let summary = add_reply(resp);
    assert_eq!(summary.added, 2);
    assert_eq!(
        summary.updated, 3,
        "'existing' from Trakt must map to SyncSummary.updated"
    );
    assert_eq!(summary.not_found, 0);
}

#[test]
fn existing_count_maps_to_updated_for_watchlist_add() {
    let resp = r#"{"added":{"movies":1},"existing":{"movies":4},"not_found":{"movies":[]}}"#;
    let summary = add_reply(resp);
    assert_eq!(summary.added, 1);
    assert_eq!(
        summary.updated, 4,
        "'existing' from Trakt must map to SyncSummary.updated"
    );
    assert_eq!(summary.not_found, 0);
}

#[test]
fn remove_history_response_maps_deleted_and_not_found() {
    let resp = r#"{"deleted":{"movies":3},"not_found":{"movies":[{"ids":{"tmdb":999}},{"ids":{"tmdb":888}}]}}"#;
    let summary = remove_reply(resp);
    assert_eq!(summary.added, 3, "'deleted' must map to SyncSummary.added");
    assert_eq!(
        summary.updated, 0,
        "remove operations always yield updated=0"
    );
    assert_eq!(
        summary.not_found, 2,
        "not_found count must match array length"
    );
}
