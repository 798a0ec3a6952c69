//! The HTTP client the sync talks to Trakt through.
use vstd::prelude::*;
use std::collections::HashMap;

verus! {

/// A reply from Trakt: status, body and headers (names in lower case).
pub struct HttpResponse {
    pub status: u16,
    pub body: String,
    pub headers: HashMap<String, String>,
}

/// Sends requests to Trakt. Nothing is assumed of the replies.
pub trait TraktHttpClient {
    /// POST a JSON body without authorisation (the OAuth endpoints).
    fn post_json(&self, url: &str, body: &str) -> Result<HttpResponse, String>;

    /// POST a JSON body with the user's access token.
    fn post_json_auth(&self, url: &str, body: &str, access_token: &str) -> Result<
        HttpResponse,
        String,
    >;

    /// GET with the user's access token.
    fn get(&self, url: &str, access_token: &str) -> Result<HttpResponse, String>;
}

} // verus!
