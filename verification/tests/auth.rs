use std::time::{SystemTime, UNIX_EPOCH};

use trakt_letterboxd::auth::{
    device_code_check, get_valid_token, poll_step, refresh_check, timed_out, token_need,
    token_path, PollStep, StoredTokens, TokenNeed,
};

#[test]
fn is_expired_past_expiry() {
    let tokens = StoredTokens {
        access_token: "a".to_string(),
        refresh_token: "r".to_string(),
        created_at: 0,
        expires_in: 1,
    };
    assert!(tokens.is_expired());
}

#[test]
fn is_not_expired_far_from_expiry() {
    let now = SystemTime::now()
        .duration_since(UNIX_EPOCH)
        .unwrap()
        .as_secs();
    let tokens = StoredTokens {
        access_token: "a".to_string(),
        refresh_token: "r".to_string(),
        created_at: now,
        expires_in: 7776000,
    };
    assert!(!tokens.is_expired());
}

#[test]
fn expiry_margin_is_five_minutes() {
    let tokens = StoredTokens {
        access_token: "a".to_string(),
        refresh_token: "r".to_string(),
        created_at: 1000,
        expires_in: 1000,
    };
    assert!(!tokens.is_expired_at(1699));
    assert!(tokens.is_expired_at(1700));
    let huge = StoredTokens {
        access_token: "a".to_string(),
        refresh_token: "r".to_string(),
        created_at: u64::MAX,
        expires_in: u64::MAX,
    };
    assert!(!huge.is_expired_at(u64::MAX));
}

#[test]
fn get_valid_token_errors_without_auth() {
    match get_valid_token(None) {
        TokenNeed::Missing(m) => {
            assert_eq!(m, "not authenticated — run `trakt-letterboxd auth` first")
        }
        _ => panic!("expected the not-authenticated error"),
    }
}

#[test]
fn get_valid_token_returns_existing_when_fresh() {
    let tokens = StoredTokens {
        access_token: "access1".to_string(),
        refresh_token: "refresh1".to_string(),
        created_at: 1_000_000,
        expires_in: 7776000,
    };
    match token_need(Some(&tokens), 1_000_100) {
        TokenNeed::Use(a) => assert_eq!(a, "access1"),
        _ => panic!("fresh token must be used as is"),
    }
}

#[test]
fn get_valid_token_refreshes_expired() {
    let tokens = StoredTokens {
        access_token: "old".to_string(),
        refresh_token: "refresh1".to_string(),
        created_at: 0,
        expires_in: 1,
    };
    match get_valid_token(Some(&tokens)) {
        TokenNeed::Refresh(r) => assert_eq!(r, "refresh1"),
        _ => panic!("expired token must be refreshed"),
    }
}

#[test]
fn device_flow_poll_statuses() {
    assert!(matches!(poll_step(200, 5), PollStep::Issued));
    assert!(matches!(poll_step(400, 5), PollStep::Pending));
    assert!(matches!(poll_step(429, 5), PollStep::SlowDown(10)));
    assert!(matches!(poll_step(429, u64::MAX), PollStep::SlowDown(u64::MAX)));
    let msg = |s: u16| match poll_step(s, 5) {
        PollStep::Fail(m) => m,
        _ => panic!("status {s} must end the flow"),
    };
    assert_eq!(msg(404), "device code not found");
    assert_eq!(msg(409), "device code already used");
    assert_eq!(msg(410), "device code expired");
    assert_eq!(msg(418), "authorization denied by user");
    assert_eq!(msg(500), "unexpected status from token endpoint: 500");
}

#[test]
fn device_flow_times_out_without_infinite_loop() {
    assert!(!timed_out(599, 600));
    assert!(timed_out(600, 600));
}

#[test]
fn device_code_and_refresh_failures_name_the_status() {
    assert!(device_code_check(200).is_ok());
    assert_eq!(
        device_code_check(503).unwrap_err(),
        "failed to get device code: HTTP 503"
    );
    assert!(refresh_check(200).is_ok());
    assert_eq!(refresh_check(401).unwrap_err(), "token refresh failed: HTTP 401");
}

#[test]
fn tokens_live_in_data_dir() {
    assert_eq!(token_path("/tmp/data"), "/tmp/data/tokens.json");
}
