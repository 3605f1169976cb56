//! HTTP exchanges as the library sees them: the request it wants made, and
//! what came back. The program performs the request; the library decides what
//! to ask and what the answer means.

use vstd::prelude::*;
use crate::text::{push_str, to_string};

verus! {

/// A GET request: URL and extra headers, in order.
#[derive(Debug)]
pub struct HttpGet {
    pub url: String,
    pub headers: Vec<(String, String)>,
}

/// The outcome of a request whose body is read as `T` (parsed JSON or text).
#[derive(Debug)]
pub enum Fetched<T> {
    /// A success status; the body, read.
    Body(T),
    /// A success status, but the body could not be read as `T`; the reason.
    Unreadable(String),
    /// An error status code, with the error's text.
    Status(u16, String),
    /// No response (connection, TLS, timeout), with the error's text.
    Transport(String),
}

/// A GET request without extra headers.
pub fn get_request(url: String) -> (r: HttpGet)
    ensures
        r.url@ == url@,
        r.headers@.len() == 0,
{
    HttpGet { url, headers: Vec::new() }
}

/// `prefix` followed by `detail`.
pub fn message(prefix: &str, detail: &str) -> (r: String)
    ensures
        r@ == prefix@ + detail@,
{
    let mut out = to_string(prefix);
    push_str(&mut out, detail);
    out
}

/// POSTs a JSON payload with `ureq` (`post`, `set` for each header,
/// `send_json`) and reads the reply body as JSON (`into_json`). A status of
/// 400 or above comes back as `Status` with the code and the error's text, a
/// failure to connect as `Transport`, an unreadable body as `Unreadable`.
/// What the server answers is not stated.
#[verifier::external_body]
pub(crate) fn post_json(url: &str, headers: &Vec<(String, String)>, payload: serde_json::Value) -> Fetched<
    serde_json::Value,
> {
    let mut request = ureq::post(url);
    for (name, value) in headers {
        request = request.set(name, value);
    }
    match request.send_json(payload) {
        Ok(response) => match response.into_json::<serde_json::Value>() {
            Ok(v) => Fetched::Body(v),
            Err(e) => Fetched::Unreadable(e.to_string()),
        },
        Err(ureq::Error::Status(code, response)) => Fetched::Status(code, ureq::Error::Status(code, response).to_string()),
        Err(e) => Fetched::Transport(e.to_string()),
    }
}

} // verus!
