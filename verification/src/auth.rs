//! Trakt authorisation: stored tokens, when they count as expired, and the
//! decisions of the OAuth device flow.
use vstd::prelude::*;
use crate::text::{decimal, decimal_string, join_path, joined_path, owned};

verus! {

pub struct StoredTokens {
    pub access_token: String,
    pub refresh_token: String,
    pub created_at: u64,
    pub expires_in: u64,
}

/// Seconds before expiry at which a token is already treated as expired,
/// so that it is refreshed before a request can fail on it.
pub const EXPIRY_MARGIN_SECS: u64 = 300;

/// A token is expired at `now` (seconds since the Unix epoch) once `now`
/// is within the margin of its expiry.
pub open spec fn expired_at(t: StoredTokens, now: u64) -> bool {
    now + EXPIRY_MARGIN_SECS >= t.created_at + t.expires_in
}

/// The seconds since the Unix epoch on this machine's clock (0 when the
/// clock reads before the epoch). Nothing is claimed of the value.
#[verifier::external_body]
fn unix_now() -> (res: u64) {
    std::time::SystemTime::now()
        .duration_since(std::time::UNIX_EPOCH)
        .unwrap_or_default()
        .as_secs()
}

impl StoredTokens {
    /// Whether the token is expired at `now`.
    pub fn is_expired_at(&self, now: u64) -> (res: bool)
        ensures
            res == expired_at(*self, now),
    {
        (now as u128) + (EXPIRY_MARGIN_SECS as u128) >= (self.created_at as u128) + (
        self.expires_in as u128)
    }

    /// Whether the token is expired now. Treat as expired when within 5
    /// minutes of expiry to allow proactive refresh.
    pub fn is_expired(&self) -> (res: bool)
        ensures
            self.created_at + self.expires_in <= EXPIRY_MARGIN_SECS ==> res,
            exists|now: u64| res == expired_at(*self, now),
    {
        let now = unix_now();
        self.is_expired_at(now)
    }
}

/// Where the tokens are kept: `tokens.json` in the data directory.
pub fn token_path(data_dir: &str) -> (res: String)
    ensures
        res@ == joined_path(data_dir@, "tokens.json"@),
{
    join_path(data_dir, "tokens.json")
}

// ---------------------------------------------------------------------------
// The device flow
// ---------------------------------------------------------------------------

/// Trakt's device-code endpoint.
pub open spec fn device_code_url() -> Seq<char> {
    "https://api.trakt.tv/oauth/device/code"@
}

/// Trakt's device-token endpoint, polled until the user decides.
pub open spec fn device_token_url() -> Seq<char> {
    "https://api.trakt.tv/oauth/device/token"@
}

/// Trakt's token endpoint, for refreshes.
pub open spec fn token_url() -> Seq<char> {
    "https://api.trakt.tv/oauth/token"@
}

/// The redirect URI of an out-of-band (device) client.
pub open spec fn oob_redirect_uri() -> Seq<char> {
    "urn:ietf:wg:oauth:2.0:oob"@
}

/// `failed to get device code: HTTP {status}`
pub open spec fn device_code_error_text(status: u16) -> Seq<char> {
    "failed to get device code: HTTP "@ + decimal(status as nat)
}

/// Whether the device-code request succeeded (HTTP 200), else the error.
pub fn device_code_check(status: u16) -> (res: Result<(), String>)
    ensures
        status == 200 ==> res is Ok,
        status != 200 ==> (res matches Err(m) && m@ == device_code_error_text(status)),
{
    if status == 200 {
        Ok(())
    } else {
        let mut m = owned("failed to get device code: HTTP ");
        m.append(decimal_string(status as u64).as_str());
        proof {
            reveal_strlit("failed to get device code: HTTP ");
        }
        Err(m)
    }
}

/// `token refresh failed: HTTP {status}`
pub open spec fn refresh_error_text(status: u16) -> Seq<char> {
    "token refresh failed: HTTP "@ + decimal(status as nat)
}

/// Whether a refresh succeeded (HTTP 200), else the error.
pub fn refresh_check(status: u16) -> (res: Result<(), String>)
    ensures
        status == 200 ==> res is Ok,
        status != 200 ==> (res matches Err(m) && m@ == refresh_error_text(status)),
{
    if status == 200 {
        Ok(())
    } else {
        let mut m = owned("token refresh failed: HTTP ");
        m.append(decimal_string(status as u64).as_str());
        proof {
            reveal_strlit("token refresh failed: HTTP ");
        }
        Err(m)
    }
}

/// Whether the user has run out of time to enter the code: `elapsed`
/// seconds since polling began reach the code's lifetime.
pub fn timed_out(elapsed: u64, expires_in: u64) -> (res: bool)
    ensures
        res == (elapsed >= expires_in),
{
    elapsed >= expires_in
}

/// `authorization timed out`
pub fn timed_out_text() -> (res: String)
    ensures
        res@ == "authorization timed out"@,
{
    owned("authorization timed out")
}

/// What one poll of the device-token endpoint leads to.
pub enum PollStep {
    /// 200: the tokens are in the body.
    Issued,
    /// 400: the user has not decided yet; poll again after the interval.
    Pending,
    /// 429: polling too fast; poll again at this (longer) interval.
    SlowDown(u64),
    /// Anything else ends the flow with this message.
    Fail(String),
}

/// `unexpected status from token endpoint: {status}`
pub open spec fn unexpected_poll_text(status: u16) -> Seq<char> {
    "unexpected status from token endpoint: "@ + decimal(status as nat)
}

/// The message that ends the flow for a poll status, if it ends it.
pub open spec fn poll_failure(status: u16) -> Option<Seq<char>> {
    if status == 200 || status == 400 || status == 429 {
        None
    } else if status == 404 {
        Some("device code not found"@)
    } else if status == 409 {
        Some("device code already used"@)
    } else if status == 410 {
        Some("device code expired"@)
    } else if status == 418 {
        Some("authorization denied by user"@)
    } else {
        Some(unexpected_poll_text(status))
    }
}

/// The polling interval after a 429: five seconds longer, up to `u64::MAX`.
pub open spec fn slower(interval: u64) -> u64 {
    if interval + 5 > u64::MAX {
        u64::MAX
    } else {
        (interval + 5) as u64
    }
}

/// Decides what follows a poll of the device-token endpoint.
pub fn poll_step(status: u16, interval: u64) -> (res: PollStep)
    ensures
        status == 200 ==> res is Issued,
        status == 400 ==> res is Pending,
        status == 429 ==> res == PollStep::SlowDown(slower(interval)),
        poll_failure(status) matches Some(m) ==> (res matches PollStep::Fail(t) && t@ == m),
{
    proof {
        reveal_strlit("device code not found");
        reveal_strlit("device code already used");
        reveal_strlit("device code expired");
        reveal_strlit("authorization denied by user");
        reveal_strlit("unexpected status from token endpoint: ");
    }
    if status == 200 {
        PollStep::Issued
    } else if status == 400 {
        PollStep::Pending
    } else if status == 429 {
        PollStep::SlowDown(interval.saturating_add(5))
    } else if status == 404 {
        PollStep::Fail(owned("device code not found"))
    } else if status == 409 {
        PollStep::Fail(owned("device code already used"))
    } else if status == 410 {
        PollStep::Fail(owned("device code expired"))
    } else if status == 418 {
        PollStep::Fail(owned("authorization denied by user"))
    } else {
        let mut m = owned("unexpected status from token endpoint: ");
        m.append(decimal_string(status as u64).as_str());
        PollStep::Fail(m)
    }
}

// ---------------------------------------------------------------------------
// Choosing the token for a request
// ---------------------------------------------------------------------------

/// `not authenticated — run `trakt-letterboxd auth` first`
pub open spec fn not_authenticated_text() -> Seq<char> {
    "not authenticated \u{2014} run `trakt-letterboxd auth` first"@
}

/// What a request needs before it can be sent.
pub enum TokenNeed {
    /// No stored tokens: the user has to authorise first.
    Missing(String),
    /// The stored token is expired: refresh it with this refresh token.
    Refresh(String),
    /// The stored access token is good to use.
    Use(String),
}

/// Decides, from the stored tokens and the time `now`, whether a request
/// can use the stored access token or needs a refresh first.
pub fn token_need(tokens: Option<&StoredTokens>, now: u64) -> (res: TokenNeed)
    ensures
        tokens matches Some(t) ==> ((res is Refresh) == (now + 300 >= t.created_at
            + t.expires_in)),
        match tokens {
            None => res matches TokenNeed::Missing(m) && m@ == not_authenticated_text(),
            Some(t) => if expired_at(*t, now) {
                res matches TokenNeed::Refresh(r) && r@ == t.refresh_token@
            } else {
                res matches TokenNeed::Use(a) && a@ == t.access_token@
            },
        },
{
    match tokens {
        None => {
            proof {
                reveal_strlit("not authenticated \u{2014} run `trakt-letterboxd auth` first");
            }
            TokenNeed::Missing(owned("not authenticated \u{2014} run `trakt-letterboxd auth` first"))
        },
        Some(t) => {
            if t.is_expired_at(now) {
                TokenNeed::Refresh(t.refresh_token.clone())
            } else {
                TokenNeed::Use(t.access_token.clone())
            }
        },
    }
}

/// Some reading of the clock makes the token's expiry `expired`.
pub open spec fn expired_at_some_time(t: StoredTokens, expired: bool) -> bool {
    exists|now: u64| #[trigger] expired_at(t, now) == expired
}

/// Returns what a request needs: the stored access token, a refresh first
/// (when the token is expired by this machine's clock), or authorisation.
/// Call this before every authenticated Trakt API request.
pub fn get_valid_token(tokens: Option<&StoredTokens>) -> (res: TokenNeed)
    ensures
        tokens is None ==> (res matches TokenNeed::Missing(m) && m@ == not_authenticated_text()),
        tokens matches Some(t) ==> (res is Refresh || res is Use),
        tokens matches Some(t) ==> (res matches TokenNeed::Refresh(r) ==> r@ == t.refresh_token@),
        tokens matches Some(t) ==> (res matches TokenNeed::Use(a) ==> a@ == t.access_token@),
        tokens matches Some(t) ==> expired_at_some_time(*t, res is Refresh),
        tokens matches Some(t) ==> (t.created_at + t.expires_in <= EXPIRY_MARGIN_SECS ==> (res matches TokenNeed::Refresh(r) && r@ == t.refresh_token@)),
{
    let now = unix_now();
    let res = token_need(tokens, now);
    proof {
        if let Some(t) = tokens {
            assert(expired_at(*t, now) == (res is Refresh));
        }
    }
    res
}

/// A token is expired at a clock reading exactly when the reading plus the
/// five-minute margin reaches its creation time plus its lifetime; once
/// expired at a reading, it is expired at every later one.
pub proof fn law_expiry_follows_the_clock(t: StoredTokens, now: u64, later: u64)
    ensures
        expired_at(t, now) == (now + 300 >= t.created_at + t.expires_in),
        (now <= later && expired_at(t, now)) ==> expired_at(t, later),
{
}

} // verus!
