//! JSON-RPC client for the Zotron endpoint inside Zotero, and the HTTP
//! transport used for OCR and embedding providers.

use vstd::prelude::*;
use crate::http::{post_json, Fetched};
use crate::json::{as_i64, as_str, at, get, json_from_value, json_to_value, Json, JsonNumber, JsonV, NumberV};
use crate::paper::opt_view;
use crate::text::{
    ascii_lower, chars_of, i64_to_string, push_str, signed_decimal, str_eq, to_string, trim,
    trim_exec,
};
use crate::http::message;
use crate::cli::{exchange, opt_json, rpc_result, Exchange};

verus! {

/// A client error.
#[derive(Debug, Clone, PartialEq, Eq)]
pub enum RpcError {
    Connection(String),
    Protocol(String),
    JsonRpc { code: i64, message: String },
}

/// The text of an error: the message, or `[code] message` for a JSON-RPC
/// error.
pub open spec fn error_text(e: RpcError) -> Seq<char> {
    match e {
        RpcError::Connection(m) => m@,
        RpcError::Protocol(m) => m@,
        RpcError::JsonRpc { code, message } => "["@ + signed_decimal(code as int) + "] "@ + message@,
    }
}

impl RpcError {
    /// The error's text (what its `Display` shows).
    pub fn to_string(&self) -> (r: String)
        ensures
            r@ == error_text(*self),
    {
        match self {
            RpcError::Connection(m) => to_string(m.as_str()),
            RpcError::Protocol(m) => to_string(m.as_str()),
            RpcError::JsonRpc { code, message } => {
                let mut out = to_string("[");
                let c = i64_to_string(*code);
                push_str(&mut out, c.as_str());
                push_str(&mut out, "] ");
                push_str(&mut out, message.as_str());
                out
            },
        }
    }
}

/// One post a transport made: the URL, the payload, and what came back (the
/// reply document, or the error).
pub struct Post {
    pub url: Seq<char>,
    pub payload: JsonV,
    pub reply: Result<JsonV, RpcError>,
}

/// A transport result by its view.
pub open spec fn reply_view(r: Result<Json, RpcError>) -> Result<JsonV, RpcError> {
    match r {
        Ok(v) => Ok(v@),
        Err(e) => Err(e),
    }
}

/// The boundary to the endpoint, so that wire payloads can be checked
/// without a live Zotero. A transport keeps, as a ghost, the posts it has
/// made; a stand-in written in plain Rust keeps none and stands outside this
/// contract.
pub trait Transport {
    /// The posts made so far, oldest first. The empty default is what a
    /// plain-Rust stand-in has; such a stand-in cannot meet `post_json`'s
    /// contract, and nothing verified here relies on one.
    closed spec fn posts(&self) -> Seq<Post> {
        Seq::empty()
    }

    /// Posts `payload` to `url` and returns the reply document or an error;
    /// the post joins the record.
    fn post_json(&mut self, url: &str, payload: &Json) -> (r: Result<Json, RpcError>)
        ensures
            final(self).posts() == old(self).posts().push(
                Post { url: url@, payload: payload@, reply: reply_view(r) },
            ),
    ;
}

/// The blocking HTTP transport to the local Zotron endpoint.
pub struct UreqTransport {
    posted: Ghost<Seq<Post>>,
}

impl UreqTransport {
    /// A transport that has posted nothing yet.
    pub fn new() -> (r: Self)
        ensures
            r.posts() == Seq::<Post>::empty(),
    {
        UreqTransport { posted: Ghost(Seq::empty()) }
    }
}

/// An error text that begins with `prefix`.
pub open spec fn prefixed_by(m: Seq<char>, prefix: Seq<char>) -> bool {
    m.len() >= prefix.len() && m.take(prefix.len() as int) == prefix
}

fn connection_error(e: &str) -> (r: RpcError)
    ensures
        r matches RpcError::Connection(m) && prefixed_by(m@, "Cannot connect to Zotero: "@),
{
    let m = message("Cannot connect to Zotero: ", e);
    proof {
        reveal_strlit("Cannot connect to Zotero: ");
    }
    assert(m@.take(26) =~= "Cannot connect to Zotero: "@);
    RpcError::Connection(m)
}

impl Transport for UreqTransport {
    closed spec fn posts(&self) -> Seq<Post> {
        self.posted@
    }

    /// POSTs the payload; a failed request is a connection error, an
    /// unreadable reply a protocol error.
    fn post_json(&mut self, url: &str, payload: &Json) -> (r: Result<Json, RpcError>)
        ensures
            r matches Err(e) ==> match e {
                RpcError::Connection(m) => prefixed_by(m@, "Cannot connect to Zotero: "@),
                RpcError::Protocol(m) => prefixed_by(m@, "Invalid JSON-RPC response: "@),
                RpcError::JsonRpc { .. } => false,
            },
    {
        let headers: Vec<(String, String)> = Vec::new();
        let r = match post_json(url, &headers, json_to_value(payload)) {
            Fetched::Body(v) => Ok(json_from_value(v)),
            Fetched::Unreadable(e) => {
                let m = message("Invalid JSON-RPC response: ", e.as_str());
                proof {
                    reveal_strlit("Invalid JSON-RPC response: ");
                }
                assert(m@.take(27) =~= "Invalid JSON-RPC response: "@);
                Err(RpcError::Protocol(m))
            },
            Fetched::Status(_, e) => Err(connection_error(e.as_str())),
            Fetched::Transport(e) => Err(connection_error(e.as_str())),
        };
        self.posted = Ghost(self.posted@.push(Post { url: url@, payload: payload@, reply: reply_view(r) }));
        r
    }
}

/// The request object the client posts for a call: protocol version,
/// method, parameters (`{}` when there are none) and id.
pub open spec fn request_json(id: u64, method: Seq<char>, params: Option<JsonV>) -> JsonV {
    JsonV::Object(
        seq![
            ("jsonrpc"@, JsonV::Str("2.0"@)),
            ("method"@, JsonV::Str(method)),
            ("params"@, match params {
                Some(p) => p,
                None => JsonV::Object(seq![]),
            }),
            ("id"@, JsonV::Number(NumberV::PosInt(id))),
        ],
    )
}

/// The result member of a reply: `{}` when it is absent or null.
pub open spec fn result_of(reply: JsonV) -> JsonV {
    match get(reply, "result"@) {
        Some(v) => if v is Null {
            JsonV::Object(seq![])
        } else {
            v
        },
        None => JsonV::Object(seq![]),
    }
}

/// What a call returns for the endpoint's reply: the JSON-RPC error it
/// carries, with its code and message, or else its result. A reply that is no
/// object, or whose error lacks an integer code or a string message, is a
/// protocol error.
pub open spec fn reply_ok(reply: JsonV, r: Result<Json, RpcError>) -> bool {
    if !(reply is Object) {
        r matches Err(RpcError::Protocol(m)) && m@ == "Invalid JSON-RPC response: expected an object"@
    } else if !(at(reply, "error"@) is Null) {
        let err = at(reply, "error"@);
        match (as_i64(at(err, "code"@)), as_str(at(err, "message"@))) {
            (Some(code), Some(msg)) => r matches Err(RpcError::JsonRpc { code: c, message }) && c
                == code && message@ == msg,
            _ => r matches Err(RpcError::Protocol(m)) && m@
                == "Invalid JSON-RPC response: malformed error"@,
        }
    } else {
        r matches Ok(x) && x@ == result_of(reply)
    }
}

/// The id after `id`: one more, wrapping around after `u64::MAX`.
pub open spec fn next_after(id: u64) -> u64 {
    if id < u64::MAX {
        (id + 1) as u64
    } else {
        0
    }
}

/// The stateful JSON-RPC client; request ids count up from 1.
pub struct ZoteroRpc<T> {
    url: String,
    transport: T,
    next_id: u64,
    log: Ghost<Seq<Exchange>>,
}

impl ZoteroRpc<UreqTransport> {
    /// A client for the endpoint at `url` over HTTP.
    pub fn new(url: &str) -> (r: Self)
        ensures
            r.url() == url@,
            r.next_id() == 1,
            r.history() == Seq::<Exchange>::empty(),
            r.transport_spec().posts() == Seq::<Post>::empty(),
    {
        Self::with_transport(url, UreqTransport::new())
    }
}

impl<T> ZoteroRpc<T> {
    pub closed spec fn url(&self) -> Seq<char> {
        self.url@
    }

    /// The id the next call will carry.
    pub closed spec fn next_id(&self) -> u64 {
        self.next_id
    }

    pub closed spec fn transport_spec(&self) -> T {
        self.transport
    }

    /// The calls this client has made, oldest first.
    pub closed spec fn history(&self) -> Seq<Exchange> {
        self.log@
    }

    /// A client for the endpoint at `url` over `transport`.
    pub fn with_transport(url: &str, transport: T) -> (r: Self)
        ensures
            r.url() == url@,
            r.next_id() == 1,
            r.transport_spec() == transport,
            r.history() == Seq::<Exchange>::empty(),
    {
        ZoteroRpc { url: to_string(url), transport, next_id: 1, log: Ghost(Seq::empty()) }
    }

    /// The transport, for inspection.
    pub fn transport(&self) -> (r: &T)
        ensures
            *r == self.transport_spec(),
    {
        &self.transport
    }

    /// The request object for the next call, taking its id. Ids wrap around
    /// after `u64::MAX`.
    pub fn next_request(&mut self, method: &str, params: Option<Json>) -> (r: Json)
        ensures
            r@ == request_json(
                old(self).next_id(),
                method@,
                match params {
                    Some(p) => Some(p@),
                    None => None,
                },
            ),
            final(self).next_id() == next_after(old(self).next_id()),
            final(self).url() == old(self).url(),
            final(self).transport_spec() == old(self).transport_spec(),
            final(self).history() == old(self).history(),
    {
        let id = self.next_id;
        self.next_id = if self.next_id < u64::MAX {
            self.next_id + 1
        } else {
            0
        };
        request_payload(id, method, params)
    }
}

/// The request object of a call with this id.
pub fn request_payload(id: u64, method: &str, params: Option<Json>) -> (r: Json)
    ensures
        r@ == request_json(
            id,
            method@,
            match params {
                Some(p) => Some(p@),
                None => None,
            },
        ),
{
    let ghost pv = match params {
        Some(ref p) => Some(p@),
        None => None,
    };
    let p = match params {
        Some(p) => p,
        None => {
            let e = Json::Object(Vec::new());
            assert((e@->Object_0) =~= Seq::<(Seq<char>, JsonV)>::empty());
            e
        },
    };
    let ghost pview = p@;
    assert(pview == match pv {
        Some(x) => x,
        None => JsonV::Object(seq![]),
    });
    let mut members: Vec<(String, Json)> = Vec::new();
    members.push((to_string("jsonrpc"), Json::str("2.0")));
    members.push((to_string("method"), Json::str(method)));
    members.push((to_string("params"), p));
    members.push((to_string("id"), Json::uint(id)));
    let r = Json::Object(members);
    proof {
        let m = r@->Object_0;
        let c = request_json(id, method@, pv)->Object_0;
        assert(m.len() == 4);
        assert(m[2].1 == pview);
        assert(m =~= c);
    }
    r
}

/// Reads the endpoint's reply to a call.
pub fn read_reply(reply: Json) -> (r: Result<Json, RpcError>)
    ensures
        reply_ok(reply@, r),
{
    if !reply.is_object() {
        return Err(RpcError::Protocol(to_string("Invalid JSON-RPC response: expected an object")));
    }
    let err = reply.at("error");
    if !err.is_null() {
        let code = err.at("code").as_i64();
        let msg = err.at("message");
        return match (code, msg.as_str()) {
            (Some(c), Some(m)) => Err(RpcError::JsonRpc { code: c, message: to_string(m) }),
            _ => Err(RpcError::Protocol(to_string("Invalid JSON-RPC response: malformed error"))),
        };
    }
    match reply.get("result") {
        Some(res) => if res.is_null() {
            let r = Json::Object(Vec::new());
            assert((r@->Object_0) =~= Seq::<(Seq<char>, JsonV)>::empty());
            Ok(r)
        } else {
            Ok(res.clone_json())
        },
        None => {
            let r = Json::Object(Vec::new());
            assert((r@->Object_0) =~= Seq::<(Seq<char>, JsonV)>::empty());
            Ok(r)
        },
    }
}

impl<T: Transport> ZoteroRpc<T> {
    /// Calls `method`: posts the request object of `next_request` to the
    /// endpoint and reads the reply with `read_reply`. A transport error is
    /// returned as it is. The call joins the client's history.
    pub fn call(&mut self, method: &str, params: Option<Json>) -> (r: Result<Json, RpcError>)
        ensures
            final(self).transport_spec().posts() == old(self).transport_spec().posts().push(
                Post {
                    url: old(self).url(),
                    payload: request_json(old(self).next_id(), method@, opt_json(params)),
                    reply: final(self).transport_spec().posts().last().reply,
                },
            ),
            match final(self).transport_spec().posts().last().reply {
                Ok(reply) => reply_ok(reply, r),
                Err(e) => r == Err::<Json, RpcError>(e),
            },
            final(self).next_id() == next_after(old(self).next_id()),
            final(self).url() == old(self).url(),
            final(self).history() == old(self).history().push(
                exchange(method@, opt_json(params), rpc_result(r)),
            ),
    {
        let ghost pv = opt_json(params);
        let payload = self.next_request(method, params);
        let url = to_string(self.url.as_str());
        let r = match self.transport.post_json(url.as_str(), &payload) {
            Ok(reply) => read_reply(reply),
            Err(e) => Err(e),
        };
        self.log = Ghost(self.log@.push(exchange(method@, pv, rpc_result(r))));
        r
    }
}

/// A live HTTP call to an OCR or embedding provider, as the provider's
/// request builder describes it.
#[derive(Debug)]
pub struct ProviderHttpInvocation {
    pub provider: String,
    pub style: String,
    pub method: String,
    pub url: Option<String>,
    pub auth_header_name: Option<String>,
    pub auth_header_value: Option<String>,
    pub body: Json,
}

/// The blocking HTTP transport for live provider calls. Credentials stay out
/// of request builders: a caller injects one here, or passes an explicit
/// header value in the invocation.
pub struct UreqProviderHttpTransport {
    api_key: Option<String>,
    sent: Ghost<Seq<ProviderPost>>,
}

/// One provider request this transport sent: the URL, the authentication
/// header (name and value) when there is one, and the body.
pub struct ProviderPost {
    pub url: Seq<char>,
    pub header: Option<(Seq<char>, Seq<char>)>,
    pub body: JsonV,
}

impl Default for UreqProviderHttpTransport {
    /// A transport without an injected credential, as `new` gives.
    fn default() -> (r: Self)
        ensures
            r.key() is None,
            r.sent() == Seq::<ProviderPost>::empty(),
    {
        Self::new()
    }
}
/// How a provider call goes before any network traffic: the URL and the
/// authentication header to send, or the error that stops it.
pub open spec fn provider_plan(inv: ProviderHttpInvocation, api_key: Option<Seq<char>>) -> Result<
    (Seq<char>, Option<(Seq<char>, Seq<char>)>),
    Seq<char>,
> {
    let p = inv.provider@;
    if ascii_upper(inv.method@) != "POST"@ {
        Err("provider "@ + p + " uses unsupported HTTP method "@ + inv.method@)
    } else {
        match inv.url {
            None => Err("provider "@ + p + " missing request URL"@),
            Some(url) => match inv.auth_header_name {
                None => Ok((url@, None)),
                Some(h) => match (match opt_view(inv.auth_header_value) {
                    Some(v) => Some(v),
                    None => api_key,
                }) {
                    Some(v) => Ok((url@, Some((h@, v)))),
                    None => Err("provider "@ + p + " requires "@ + h@
                        + " but no credential was supplied"@),
                },
            },
        }
    }
}

/// ASCII upper-casing.
pub open spec fn ascii_upper(s: Seq<char>) -> Seq<char> {
    s.map_values(|c: char| if 'a' <= c <= 'z' { ((c as u32) - 32) as char } else { c })
}

fn ascii_upper_exec(s: &str) -> (r: String)
    ensures
        r@ == ascii_upper(s@),
{
    let v = chars_of(s);
    let mut out = String::new();
    let mut i: usize = 0;
    while i < v.len()
        invariant
            i <= v@.len(),
            out@ == ascii_upper(v@.take(i as int)),
        decreases v.len() - i,
    {
        let c = v[i];
        let u = if 'a' <= c && c <= 'z' {
            crate::text::char_from_ascii(((c as u32) - 32) as u8)
        } else {
            c
        };
        assert(u == if 'a' <= c <= 'z' { ((c as u32) - 32) as char } else { c });
        out.push(u);
        assert(ascii_upper(v@.take(i + 1)) =~= ascii_upper(v@.take(i as int)).push(u));
        i += 1;
    }
    assert(v@.take(v@.len() as int) =~= v@);
    out
}

/// An error of a provider call that was sent: the request failed, or the
/// reply was no JSON.
pub open spec fn provider_failure(provider: Seq<char>, m: Seq<char>) -> bool {
    prefixed_by(m, "provider "@ + provider + " request failed: "@) || prefixed_by(
        m,
        "provider "@ + provider + " returned invalid JSON: "@,
    )
}

fn request_failed(provider: &str, e: &str) -> (r: String)
    ensures
        r@ == "provider "@ + provider@ + " request failed: "@ + e@,
{
    let mut m = message("provider ", provider);
    push_str(&mut m, " request failed: ");
    push_str(&mut m, e);
    m
}

impl UreqProviderHttpTransport {
    pub closed spec fn key(&self) -> Option<Seq<char>> {
        opt_view(self.api_key)
    }

    /// The requests sent so far, oldest first.
    pub closed spec fn sent(&self) -> Seq<ProviderPost> {
        self.sent@
    }

    /// A transport without an injected credential.
    pub fn new() -> (r: Self)
        ensures
            r.key() is None,
            r.sent() == Seq::<ProviderPost>::empty(),
    {
        UreqProviderHttpTransport { api_key: None, sent: Ghost(Seq::empty()) }
    }

    /// A transport that sends `api_key` as the authentication header value.
    pub fn with_api_key(api_key: String) -> (r: Self)
        ensures
            r.key() == Some(api_key@),
            r.sent() == Seq::<ProviderPost>::empty(),
    {
        UreqProviderHttpTransport { api_key: Some(api_key), sent: Ghost(Seq::empty()) }
    }

    /// A transport that sends `Bearer {token}`.
    pub fn with_bearer_token(token: &str) -> (r: Self)
        ensures
            r.key() == Some("Bearer "@ + token@),
    {
        Self::with_api_key(message("Bearer ", token))
    }

    /// The injected credential.
    pub fn api_key(&self) -> (r: Option<&str>)
        ensures
            match r {
                Some(k) => self.key() == Some(k@),
                None => self.key() is None,
            },
    {
        match &self.api_key {
            Some(k) => Some(k.as_str()),
            None => None,
        }
    }

    /// Checks an invocation before any network traffic: only POST is
    /// supported, a URL is needed, and a declared authentication header
    /// needs a value from the invocation or the injected credential.
    pub fn plan(&self, invocation: &ProviderHttpInvocation) -> (r: Result<
        (String, Option<(String, String)>),
        String,
    >)
        ensures
            match (r, provider_plan(*invocation, self.key())) {
                (Ok((u, h)), Ok((pu, ph))) => u@ == pu && match (h, ph) {
                    (Some((n, v)), Some((pn, pv))) => n@ == pn && v@ == pv,
                    (None, None) => true,
                    _ => false,
                },
                (Err(e), Err(pe)) => e@ == pe,
                _ => false,
            },
    {
        let p = invocation.provider.as_str();
        let upper = ascii_upper_exec(invocation.method.as_str());
        if !str_eq(upper.as_str(), "POST") {
            let mut m = message("provider ", p);
            push_str(&mut m, " uses unsupported HTTP method ");
            push_str(&mut m, invocation.method.as_str());
            return Err(m);
        }
        let url = match &invocation.url {
            Some(u) => u,
            None => {
                let mut m = message("provider ", p);
                push_str(&mut m, " missing request URL");
                return Err(m);
            },
        };
        match &invocation.auth_header_name {
            None => Ok((to_string(url.as_str()), None)),
            Some(h) => {
                let value = match &invocation.auth_header_value {
                    Some(v) => Some(v),
                    None => match &self.api_key {
                        Some(k) => Some(k),
                        None => None,
                    },
                };
                match value {
                    Some(v) => Ok(
                        (to_string(url.as_str()), Some((to_string(h.as_str()), to_string(v.as_str())))),
                    ),
                    None => {
                        let mut m = message("provider ", p);
                        push_str(&mut m, " requires ");
                        push_str(&mut m, h.as_str());
                        push_str(&mut m, " but no credential was supplied");
                        Err(m)
                    },
                }
            },
        }
    }

    /// Makes the provider call: the checks of `plan`, then a POST of the
    /// body to the planned URL with the planned header; a failed request or
    /// an unreadable reply is an error naming the provider. What the
    /// provider answers is its own.
    pub fn post_json(&mut self, invocation: &ProviderHttpInvocation) -> (r: Result<Json, String>)
        ensures
            final(self).key() == old(self).key(),
            match provider_plan(*invocation, old(self).key()) {
                Err(e) => r matches Err(m) && m@ == e && final(self).sent() == old(self).sent(),
                Ok((url, header)) => {
                    &&& final(self).sent() == old(self).sent().push(
                        ProviderPost { url, header, body: invocation.body@ },
                    )
                    &&& r matches Err(m) ==> provider_failure(invocation.provider@, m@)
                },
            },
    {
        let (url, header) = match self.plan(invocation) {
            Ok(x) => x,
            Err(e) => return Err(e),
        };
        let ghost hv: Option<(Seq<char>, Seq<char>)> = match header {
            Some(ref h) => Some((h.0@, h.1@)),
            None => None,
        };
        let mut headers: Vec<(String, String)> = Vec::new();
        match header {
            Some(h) => headers.push(h),
            None => {},
        }
        let p = invocation.provider.as_str();
        self.sent = Ghost(self.sent@.push(ProviderPost { url: url@, header: hv, body: invocation.body@ }));
        match post_json(url.as_str(), &headers, json_to_value(&invocation.body)) {
            Fetched::Body(v) => Ok(json_from_value(v)),
            Fetched::Unreadable(e) => {
                let mut m = message("provider ", p);
                push_str(&mut m, " returned invalid JSON: ");
                push_str(&mut m, e.as_str());
                let ghost pre = "provider "@ + p@ + " returned invalid JSON: "@;
                assert(m@.take(pre.len() as int) =~= pre);
                Err(m)
            },
            Fetched::Status(_, e) => {
                let m = request_failed(p, e.as_str());
                let ghost pre = "provider "@ + p@ + " request failed: "@;
                assert(m@.take(pre.len() as int) =~= pre);
                Err(m)
            },
            Fetched::Transport(e) => {
                let m = request_failed(p, e.as_str());
                let ghost pre = "provider "@ + p@ + " request failed: "@;
                assert(m@.take(pre.len() as int) =~= pre);
                Err(m)
            },
        }
    }
}

/// Runs local OCR providers that print JSON on stdout. Starting the process
/// is the program's; the messages it reports are decided here.
#[derive(Debug, Default, Clone, Copy)]
pub struct StdProviderCommandRunner;

impl StdProviderCommandRunner {
    /// The program of a command line: its first word.
    pub fn program(command: &Vec<String>) -> (r: Result<String, String>)
        ensures
            command@.len() == 0 ==> (r matches Err(e) && e@ == "provider command is empty"@),
            command@.len() > 0 ==> (r matches Ok(p) && p@ == command@[0]@),
    {
        if command.len() == 0 {
            Err(to_string("provider command is empty"))
        } else {
            Ok(to_string(command[0].as_str()))
        }
    }

    /// The error for a command that exited unsuccessfully: with its trimmed
    /// standard error when there is any.
    pub fn exit_failure(program: &str, status: &str, stderr: &str) -> (r: String)
        ensures
            trim(stderr@).len() == 0 ==> r@ == "provider command "@ + program@ + " exited with "@
                + status@,
            trim(stderr@).len() > 0 ==> r@ == "provider command "@ + program@ + " exited with "@
                + status@ + ": "@ + trim(stderr@),
    {
        let t = trim_exec(stderr);
        let mut m = message("provider command ", program);
        push_str(&mut m, " exited with ");
        push_str(&mut m, status);
        if !t.as_str().is_empty() {
            push_str(&mut m, ": ");
            push_str(&mut m, t.as_str());
        }
        m
    }

    /// The error for a command that could not be started.
    pub fn start_failure(program: &str, error: &str) -> (r: String)
        ensures
            r@ == "provider command "@ + program@ + " failed to start: "@ + error@,
    {
        let mut m = message("provider command ", program);
        push_str(&mut m, " failed to start: ");
        push_str(&mut m, error);
        m
    }

    /// The error for output that is not JSON.
    pub fn invalid_json(program: &str, error: &str) -> (r: String)
        ensures
            r@ == "provider command "@ + program@ + " returned invalid JSON: "@ + error@,
    {
        let mut m = message("provider command ", program);
        push_str(&mut m, " returned invalid JSON: ");
        push_str(&mut m, error);
        m
    }
}

} // verus!
