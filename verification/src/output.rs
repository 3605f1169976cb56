//! Output helpers: structured error JSON with differentiated exit codes, and
//! list-envelope normalization.

use vstd::prelude::*;
use crate::render::{push_quoted, quoted, render, rendered};
use crate::json::{
    as_array, as_u64, at, compact_json, get, json_text, key_index, members_get, set_member,
    with_member, Json, JsonNumber, JsonV, NumberV,
};
use crate::text::{
    chars_of, find, find_exec, i64_to_string, is_ws_exec, lemma_find_from_spec, push_str,
    signed_decimal, skip_ws, skip_ws_back, starts_with, starts_with_exec, string_of,
    string_of_range, to_string, trim_end, trim_start,
};

verus! {

/// Process exit code for caller-side errors (bad params): JSON-RPC `-32602`.
pub const EXIT_CALLER_ERROR: i32 = 2;

/// Process exit code for runtime/server errors: JSON-RPC `-32603` and the rest.
pub const EXIT_RUNTIME_ERROR: i32 = 1;

/// The error envelope `{"error":{"code":..,"message":..}}` as compact JSON:
/// no spaces, the two strings quoted and escaped.
pub open spec fn error_envelope_text(code: Seq<char>, message: Seq<char>) -> Seq<char> {
    "{\"error\":{\"code\":"@ + quoted(code) + ",\"message\":"@ + quoted(message) + "}}"@
}

/// The error envelope for this code and message (see `error_envelope_text`).
fn error_envelope(code: &str, message: &str) -> (r: String)
    ensures
        r@ == error_envelope_text(code@, message@),
{
    let mut out = to_string("{\"error\":{\"code\":");
    push_quoted(&mut out, code);
    push_str(&mut out, ",\"message\":");
    push_quoted(&mut out, message);
    push_str(&mut out, "}}");
    assert(out@ =~= error_envelope_text(code@, message@));
    out
}

/// `message` after a `[code]` prefix and the whitespace behind it, when the
/// prefix is there.
pub open spec fn after_rpc_code(message: Seq<char>, code: int) -> Option<Seq<char>> {
    let prefix = seq!['['] + signed_decimal(code) + seq![']'];
    if starts_with(message, prefix) {
        Some(trim_start(message.skip(prefix.len() as int)))
    } else {
        None
    }
}

/// A character allowed in a machine error code.
pub open spec fn is_code_char(c: char) -> bool {
    ('A' <= c <= 'Z') || ('0' <= c <= '9') || c == '_'
}

/// `CODE: rest` with a non-empty code of upper-case letters, digits and `_`:
/// the code and the rest without its leading whitespace.
pub open spec fn code_split(message: Seq<char>) -> Option<(Seq<char>, Seq<char>)> {
    match find(message, seq![':']) {
        None => None,
        Some(i) => {
            let code = message.take(i);
            if code.len() > 0 && forall|k: int| 0 <= k < code.len() ==> is_code_char(#[trigger] code[k]) {
                Some((code, trim_start(message.skip(i + 1))))
            } else {
                None
            }
        },
    }
}

/// The envelope code, message and exit code for an error string.
pub open spec fn classification(message: Seq<char>) -> (Seq<char>, Seq<char>, i32) {
    let m = trim_end(message);
    match after_rpc_code(m, -32602) {
        Some(rest) => ("CALLER_ERROR"@, rest, EXIT_CALLER_ERROR),
        None => match after_rpc_code(m, -32603) {
            Some(rest) => ("RUNTIME_ERROR"@, rest, EXIT_RUNTIME_ERROR),
            None => match code_split(m) {
                Some((code, rest)) => (code, rest, EXIT_RUNTIME_ERROR),
                None => ("RUNTIME_ERROR"@, m, EXIT_RUNTIME_ERROR),
            },
        },
    }
}

/// Strips a `[<code>] ` prefix produced by `RpcError::JsonRpc`'s display,
/// returning the remaining message when `code` matches.
pub fn strip_json_rpc_code(message: &str, code: i64) -> (r: Option<String>)
    ensures
        r matches Some(s) ==> after_rpc_code(message@, code as int) == Some(s@),
        r is None ==> after_rpc_code(message@, code as int) is None,
{
    let digits = i64_to_string(code);
    let mut prefix: Vec<char> = Vec::new();
    prefix.push('[');
    let dv = chars_of(digits.as_str());
    let mut k: usize = 0;
    while k < dv.len()
        invariant
            k <= dv@.len(),
            prefix@ == seq!['['] + dv@.take(k as int),
        decreases dv.len() - k,
    {
        prefix.push(dv[k]);
        k += 1;
        assert(prefix@ =~= seq!['['] + dv@.take(k as int));
    }
    prefix.push(']');
    assert(dv@.take(dv@.len() as int) =~= dv@);
    assert(prefix@ =~= seq!['['] + signed_decimal(code as int) + seq![']']);
    let m = chars_of(message);
    if !starts_with_exec(&m, &prefix) {
        return None;
    }
    let from = prefix.len();
    let start = skip_ws(&m, from);
    assert(m@.skip(from as int) =~= m@.subrange(from as int, m@.len() as int));
    Some(string_of_range(&m, start, m.len()))
}

/// Splits `CODE: message` into the code and the message.
pub fn split_error_code(message: &str) -> (r: Option<(String, String)>)
    ensures
        r matches Some((c, m)) ==> code_split(message@) == Some((c@, m@)),
        r is None ==> code_split(message@) is None,
{
    let m = chars_of(message);
    let mut colon: Vec<char> = Vec::new();
    colon.push(':');
    assert(colon@ =~= seq![':']);
    let i = match find_exec(&m, &colon) {
        Some(i) => i,
        None => return None,
    };
    proof {
        lemma_find_from_spec(m@, colon@, 0);
    }
    if i == 0 {
        assert(m@.take(0).len() == 0);
        return None;
    }
    let mut k: usize = 0;
    while k < i
        invariant
            k <= i <= m@.len(),
            m@ == message@,
            find(m@, seq![':']) == Some(i as int),
            forall|j: int| 0 <= j < k ==> is_code_char(#[trigger] m@[j]),
        decreases i - k,
    {
        let c = m[k];
        if !(('A' <= c && c <= 'Z') || ('0' <= c && c <= '9') || c == '_') {
            proof {
                assert(m@.take(i as int)[k as int] == c);
                assert(!is_code_char(m@.take(i as int)[k as int]));
            }
            return None;
        }
        k += 1;
    }
    assert(forall|j: int| 0 <= j < m@.take(i as int).len() ==> is_code_char(
        #[trigger] m@.take(i as int)[j],
    ));
    let code = string_of_range(&m, 0, i);
    let start = skip_ws(&m, i + 1);
    assert(m@.skip(i + 1) =~= m@.subrange(i + 1, m@.len() as int));
    assert(m@.take(i as int) =~= m@.subrange(0, i as int));
    Some((code, string_of_range(&m, start, m.len())))
}

/// Classifies a CLI error string into a structured JSON envelope plus a
/// process exit code. JSON-RPC errors arrive displayed as `[-32602] <message>`:
/// `-32602` becomes `CALLER_ERROR` with exit code 2, `-32603` becomes
/// `RUNTIME_ERROR`; a leading `CODE:` names the code; anything else is a
/// `RUNTIME_ERROR`. Trailing whitespace is ignored.
pub fn classify_error(message: &str) -> (r: (String, i32))
    ensures
        r.0@ == error_envelope_text(classification(message@).0, classification(message@).1),
        r.1 == classification(message@).2,
{
    let v = chars_of(message);
    let end = skip_ws_back(&v, 0, v.len());
    assert(v@.subrange(0, v@.len() as int) =~= v@);
    let trimmed = string_of_range(&v, 0, end);
    proof {
        if end == 0 {
            assert(trim_end(v@).len() == 0);
            assert(trimmed@ =~= trim_end(v@));
        }
    }
    let m = trimmed.as_str();
    match strip_json_rpc_code(m, -32602) {
        Some(rest) => return (error_envelope("CALLER_ERROR", rest.as_str()), EXIT_CALLER_ERROR),
        None => {},
    }
    match strip_json_rpc_code(m, -32603) {
        Some(rest) => return (error_envelope("RUNTIME_ERROR", rest.as_str()), EXIT_RUNTIME_ERROR),
        None => {},
    }
    match split_error_code(m) {
        Some((code, rest)) => (error_envelope(code.as_str(), rest.as_str()), EXIT_RUNTIME_ERROR),
        None => (error_envelope("RUNTIME_ERROR", m), EXIT_RUNTIME_ERROR),
    }
}

/// The structured error JSON for a CLI error string.
pub fn format_error_json(message: &str) -> (r: String)
    ensures
        r@ == error_envelope_text(classification(message@).0, classification(message@).1),
{
    classify_error(message).0
}

/// A non-negative JSON integer.
pub open spec fn nat_json(n: int) -> JsonV {
    JsonV::Number(NumberV::PosInt(n as u64))
}

/// The paging members set on top of `base`: `total`, `limit` when given,
/// `offset`, and `hasMore`.
pub open spec fn with_paging(
    base: Seq<(Seq<char>, JsonV)>,
    total: int,
    limit: Option<u64>,
    offset: u64,
    has_more: bool,
) -> Seq<(Seq<char>, JsonV)> {
    let m1 = with_member(base, "total"@, nat_json(total));
    let m2 = match limit {
        Some(l) => with_member(m1, "limit"@, nat_json(l as int)),
        None => m1,
    };
    with_member(with_member(m2, "offset"@, nat_json(offset as int)), "hasMore"@, JsonV::Bool(has_more))
}

/// A list response in the list envelope: a bare array becomes
/// `{list_key: items, total, limit?, offset, hasMore: false}`; an object that
/// holds `list_key` gets `total` (its own, else the number of items),
/// `limit`, `offset` and `hasMore` (whether items remain past this page);
/// anything else is left as it is.
pub open spec fn list_envelope(value: JsonV, list_key: Seq<char>, limit: Option<u64>, offset: u64) -> JsonV {
    match value {
        JsonV::Array(items) => JsonV::Object(
            with_paging(
                with_member(seq![], list_key, JsonV::Array(items)),
                items.len() as int,
                limit,
                offset,
                false,
            ),
        ),
        JsonV::Object(members) => match members_get(members, list_key) {
            None => value,
            Some(list) => {
                let items_len: int = match as_array(list) {
                    Some(a) => a.len() as int,
                    None => 0,
                };
                let total: int = match as_u64(at(value, "total"@)) {
                    Some(t) => t as int,
                    None => items_len,
                };
                JsonV::Object(with_paging(members, total, limit, offset, offset + items_len < total))
            },
        },
        _ => value,
    }
}

fn add_paging(
    members: &mut Vec<(String, Json)>,
    total: u64,
    limit: Option<u64>,
    offset: u64,
    has_more: bool,
)
    ensures
        final(members)@.map_values(|m: (String, Json)| (m.0@, m.1@)) == with_paging(
            old(members)@.map_values(|m: (String, Json)| (m.0@, m.1@)),
            total as int,
            limit,
            offset,
            has_more,
        ),
{
    set_member(members, "total", Json::uint(total));
    match limit {
        Some(l) => set_member(members, "limit", Json::uint(l)),
        None => {},
    }
    set_member(members, "offset", Json::uint(offset));
    set_member(members, "hasMore", Json::Bool(has_more));
}

/// Puts a list response into the list envelope (see `list_envelope`).
pub fn normalize_list_envelope(value: Json, list_key: &str, limit: Option<u64>, offset: u64) -> (r: Json)
    ensures
        r@ == list_envelope(value@, list_key@, limit, offset),
{
    let ghost vv = value@;
    match value {
        Json::Array(items) => {
            assert((vv->Array_0) =~= items@.map_values(|x: Json| x@));
            let n = items.len() as u64;
            let mut members: Vec<(String, Json)> = Vec::new();
            assert(members@.map_values(|m: (String, Json)| (m.0@, m.1@)) =~= Seq::<(Seq<char>, JsonV)>::empty());
            let list = Json::arr(items);
            set_member(&mut members, list_key, list);
            add_paging(&mut members, n, limit, offset, false);
            let r = Json::Object(members);
            assert((r@->Object_0) =~= members@.map_values(|m: (String, Json)| (m.0@, m.1@)));
            r
        },
        Json::Object(mut members) => {
            let ghost mv = members@.map_values(|m: (String, Json)| (m.0@, m.1@));
            assert(mv =~= (vv->Object_0));
            let whole = Json::Object(members);
            assert(whole@ == vv);
            let items_len: u64 = match whole.get(list_key) {
                None => return whole,
                Some(list) => match list.as_array() {
                    Some(a) => a.len() as u64,
                    None => 0,
                },
            };
            let total = match whole.at("total").as_u64() {
                Some(t) => t,
                None => items_len,
            };
            let has_more = items_len < total && offset < total - items_len;
            let mut members = match whole {
                Json::Object(m) => m,
                _ => Vec::new(),
            };
            add_paging(&mut members, total, limit, offset, has_more);
            let r = Json::Object(members);
            assert((r@->Object_0) =~= members@.map_values(|m: (String, Json)| (m.0@, m.1@)));
            r
        },
        other => other,
    }
}

/// A caller error (JSON-RPC `-32602`) and only that exits with code 2;
/// every other error exits with code 1.
pub proof fn law_exit_codes(message: Seq<char>)
    ensures
        classification(message).2 == EXIT_CALLER_ERROR <==> after_rpc_code(trim_end(message), -32602)
            is Some,
        classification(message).2 == EXIT_CALLER_ERROR || classification(message).2
            == EXIT_RUNTIME_ERROR,
{
}

/// A bare list always gets the envelope: its items under `list_key`, with
/// `total` their number and `hasMore` false.
pub proof fn law_bare_list_envelope(items: Seq<JsonV>, list_key: Seq<char>, limit: Option<u64>, offset: u64)
    requires
        list_key != "total"@,
        list_key != "limit"@,
        list_key != "offset"@,
        list_key != "hasMore"@,
    ensures
        ({
            let env = list_envelope(JsonV::Array(items), list_key, limit, offset);
            &&& env is Object
            &&& members_get(env->Object_0, list_key) == Some(JsonV::Array(items))
            &&& members_get(env->Object_0, "total"@) == Some(nat_json(items.len() as int))
            &&& members_get(env->Object_0, "hasMore"@) == Some(JsonV::Bool(false))
        }),
{
    reveal_strlit("total");
    reveal_strlit("limit");
    reveal_strlit("offset");
    reveal_strlit("hasMore");
    assert("limit"@ != "total"@) by {
        assert("limit"@[0] != "total"@[0]);
    }
    assert("offset"@ != "total"@) by {
        assert("offset"@[0] != "total"@[0]);
    }
    assert("offset"@ != "limit"@) by {
        assert("offset"@[0] != "limit"@[0]);
    }
    assert("hasMore"@ != "total"@) by {
        assert("hasMore"@[0] != "total"@[0]);
    }
    assert("hasMore"@ != "limit"@) by {
        assert("hasMore"@[0] != "limit"@[0]);
    }
    assert("hasMore"@ != "offset"@) by {
        assert("hasMore"@[0] != "offset"@[0]);
    }
    let m0 = with_member(seq![], list_key, JsonV::Array(items));
    crate::json::lemma_key_index(seq![], list_key);
    assert(m0 =~= seq![(list_key, JsonV::Array(items))]);
    let m1 = with_member(m0, "total"@, nat_json(items.len() as int));
    crate::json::lemma_key_index(m0, "total"@);
    assert(m1 =~= seq![(list_key, JsonV::Array(items)), ("total"@, nat_json(items.len() as int))]);
    let m2 = match limit {
        Some(l) => with_member(m1, "limit"@, nat_json(l as int)),
        None => m1,
    };
    if let Some(l) = limit {
        crate::json::lemma_key_index(m1, "limit"@);
        assert(m2 =~= m1.push(("limit"@, nat_json(l as int))));
    }
    let m3 = with_member(m2, "offset"@, nat_json(offset as int));
    crate::json::lemma_key_index(m2, "offset"@);
    assert(m2[0].0 == list_key);
    assert(m3 =~= m2.push(("offset"@, nat_json(offset as int))));
    let m4 = with_member(m3, "hasMore"@, JsonV::Bool(false));
    crate::json::lemma_key_index(m3, "hasMore"@);
    assert(m4 =~= m3.push(("hasMore"@, JsonV::Bool(false))));
    assert(list_envelope(JsonV::Array(items), list_key, limit, offset) == JsonV::Object(m4));
    assert(m4[0] == (list_key, JsonV::Array(items)));
    assert(m4[1] == ("total"@, nat_json(items.len() as int)));
    assert(m4[m4.len() - 1] == ("hasMore"@, JsonV::Bool(false)));
    assert(key_index(m4, list_key) == Some(0int));
    assert(key_index(m4, "total"@) == Some(1int)) by {
        crate::json::lemma_key_index(m4, "total"@);
        assert(m4[0].0 != "total"@);
    }
    assert forall|j: int| 0 <= j < m4.len() - 1 implies m4[j].0 != "hasMore"@ by {
        if j >= 2 {
            if limit is Some && j == 2 {
                assert(m4[j].0 == "limit"@);
            } else {
                assert(m4[j].0 == "offset"@);
            }
        }
    }
    assert(key_index(m4, "hasMore"@) == Some(m4.len() - 1)) by {
        crate::json::lemma_key_index(m4, "hasMore"@);
    }
    crate::json::lemma_members_get_index(m4, list_key);
    crate::json::lemma_key_index(m4, list_key);
    crate::json::lemma_members_get_index(m4, "total"@);
    crate::json::lemma_key_index(m4, "total"@);
    crate::json::lemma_members_get_index(m4, "hasMore"@);
    crate::json::lemma_key_index(m4, "hasMore"@);
}

/// The text that `format_json` prints: the document on one line (see
/// `rendered`) and a newline.
pub open spec fn json_output(v: JsonV) -> Seq<char> {
    rendered(v) + "\n"@
}

/// Prints a value as JSON on a line.
pub fn format_json(value: &Json) -> (r: Result<String, String>)
    ensures
        r matches Ok(s) && s@ == json_output(value@),
{
    let mut out = render(value);
    push_str(&mut out, "\n");
    Ok(out)
}

/// The text that `raw_value_output` prints: a string verbatim (export content
/// such as BibTeX), nothing for null, compact JSON for anything else; then a
/// newline.
pub open spec fn raw_output(v: JsonV) -> Seq<char> {
    match v {
        JsonV::Null => "\n"@,
        JsonV::Str(s) => s + "\n"@,
        _ => compact_json(v) + "\n"@,
    }
}

/// Prints a value raw (see `raw_output`).
pub fn raw_value_output(value: &Json) -> (r: Result<String, String>)
    ensures
        r matches Ok(s) && s@ == raw_output(value@),
{
    let mut out = match value {
        Json::Null => String::new(),
        Json::Str(content) => to_string(content.as_str()),
        _ => json_text(value),
    };
    push_str(&mut out, "\n");
    Ok(out)
}

} // verus!
