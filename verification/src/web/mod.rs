//! Built-in academic web search and fetch. Sources are official public REST
//! APIs only: OpenAlex, CrossRef, Semantic Scholar, arXiv; the fetch path
//! cascades open-access PDF resolvers (Unpaywall, DOAJ, CORE).

pub mod sources;

use vstd::prelude::*;
use crate::cli::{called, replied, Exchange, RpcCaller};
use crate::json::{as_str, get, Json, JsonV};
use crate::paper::opt_view;
use crate::text::{is_blank, to_string, trim};

verus! {

/// Credentials for the web sources, read from Zotero's settings.
pub struct WebConfig {
    pub mailto: Option<String>,
    pub core_api_key: Option<String>,
}

/// The setting `key` in a `settings.getRaw` reply: its string value, unless
/// that is blank.
pub open spec fn setting_in(reply: JsonV, key: Seq<char>) -> Option<Seq<char>> {
    match get(reply, key) {
        Some(v) => match as_str(v) {
            Some(s) => if trim(s).len() > 0 {
                Some(s)
            } else {
                None
            },
            None => None,
        },
        None => None,
    }
}

/// The `settings.getRaw` parameters for a key.
pub open spec fn raw_setting_params(key: Seq<char>) -> JsonV {
    JsonV::Object(seq![("key"@, JsonV::Str(key))])
}

/// Reads one setting from the reply to `settings.getRaw`; a failed call and a
/// blank value both mean "unset".
pub fn setting_from_reply(reply: &Result<Json, String>, key: &str) -> (r: Option<String>)
    ensures
        opt_view(r) == match reply {
            Ok(v) => setting_in(v@, key@),
            Err(_) => None,
        },
{
    match reply {
        Ok(v) => match v.get(key) {
            Some(x) => match x.as_str() {
                Some(s) => if is_blank(s) {
                    None
                } else {
                    Some(to_string(s))
                },
                None => None,
            },
            None => None,
        },
        Err(_) => None,
    }
}

/// The parameters that ask `settings.getRaw` for `key`.
pub fn raw_setting_request(key: &str) -> (r: Json)
    ensures
        r@ == raw_setting_params(key@),
{
    let mut members: Vec<(String, Json)> = Vec::new();
    members.push((to_string("key"), Json::str(key)));
    let r = Json::Object(members);
    assert((r@->Object_0) =~= seq![("key"@, JsonV::Str(key@))]);
    r
}

/// A setting as the reply to the last call gives it; a failed call means
/// "unset".
pub open spec fn setting_after(after: Seq<Exchange>, key: Seq<char>) -> Option<Seq<char>> {
    match replied(after) {
        Ok(v) => setting_in(v, key),
        Err(_) => None,
    }
}

/// Reads one setting from Zotero with one `settings.getRaw` call; every
/// failure (Zotero not running, an RPC error, a blank value) degrades to
/// `None`, since the public APIs work without credentials.
pub fn fetch_setting<C: RpcCaller>(client: &mut C, key: &str) -> (r: Option<String>)
    ensures
        called(
            old(client).exchanges(),
            final(client).exchanges(),
            "settings.getRaw"@,
            Some(raw_setting_params(key@)),
        ),
        opt_view(r) == setting_after(final(client).exchanges(), key@),
{
    let reply = client.call("settings.getRaw", Some(raw_setting_request(key)));
    assert(client.exchanges().drop_last() =~= old(client).exchanges());
    setting_from_reply(&reply, key)
}

/// Reads the web-source credentials: the polite-pool address and the CORE
/// API key.
pub fn load_web_config<C: RpcCaller>(client: &mut C) -> (r: WebConfig)
    ensures
        ({
            let before = old(client).exchanges();
            let after = final(client).exchanges();
            let mid = after.drop_last();
            &&& called(before, mid, "settings.getRaw"@, Some(raw_setting_params("source.mailto"@)))
            &&& called(mid, after, "settings.getRaw"@, Some(raw_setting_params("source.core.apiKey"@)))
            &&& opt_view(r.mailto) == setting_after(mid, "source.mailto"@)
            &&& opt_view(r.core_api_key) == setting_after(after, "source.core.apiKey"@)
        }),
{
    let mailto = fetch_setting(client, "source.mailto");
    let ghost mid = client.exchanges();
    let core_api_key = fetch_setting(client, "source.core.apiKey");
    WebConfig { mailto, core_api_key }
}

} // verus!
