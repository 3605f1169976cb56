//! Naming collections: by numeric id, key, exact name or a unique fuzzy
//! match on the normalized name.

use vstd::prelude::*;
use crate::cli::{called, json_result, replied, Exchange, RpcCaller};
use crate::json::{as_array, as_i64, as_str, at, get, Json, JsonNumber, JsonV, NumberV};
use crate::http::message;
use crate::text::{
    chars_of, collapse_ws, collapse_ws_exec, contains, contains_exec, debug_quote, debug_text,
    parse_i64, parsed_i64, push_str, str_eq, to_lowercase, to_string, trim, trim_exec,
    unicode_lower,
};

verus! {

/// A collection name with its runs of whitespace collapsed to one space,
/// trimmed, and lower-cased.
pub open spec fn normalized_name(name: Seq<char>) -> Seq<char> {
    unicode_lower(collapse_ws(name))
}

/// Normalizes a collection name for fuzzy matching.
pub fn normalize_collection_name(name: &str) -> (r: String)
    ensures
        r@ == normalized_name(name@),
{
    let v = chars_of(name);
    let collapsed = collapse_ws_exec(&v);
    to_lowercase(collapsed.as_str())
}

/// A JSON integer for an `i64`.
pub open spec fn int_json(n: i64) -> JsonV {
    if n >= 0 {
        JsonV::Number(NumberV::PosInt(n as u64))
    } else {
        JsonV::Number(NumberV::NegInt(n))
    }
}

pub fn int_value(n: i64) -> (r: Json)
    ensures
        r@ == int_json(n),
{
    if n >= 0 {
        Json::Number(JsonNumber::PosInt(n as u64))
    } else {
        Json::Number(JsonNumber::NegInt(n))
    }
}

/// The key of a collection record.
pub open spec fn key_of(c: JsonV) -> Result<JsonV, Seq<char>> {
    match get(c, "key"@) {
        Some(k) => Ok(k),
        None => Err("collection result is missing key"@),
    }
}

/// The key of a collection record, or an error when it has none.
pub fn collection_key(collection: &Json) -> (r: Result<Json, String>)
    ensures
        json_result(r) == key_of(collection@),
{
    match collection.get("key") {
        Some(k) => Ok(k.clone_json()),
        None => Err(to_string("collection result is missing key")),
    }
}

/// The list in a `collections.list` reply: its `items`, or the reply itself
/// when it is an array.
pub open spec fn listed(reply: JsonV) -> Option<Seq<JsonV>> {
    match as_array(at(reply, "items"@)) {
        Some(a) => Some(a),
        None => as_array(reply),
    }
}

/// The first collection whose key is `k`.
pub open spec fn first_keyed(items: Seq<JsonV>, k: Seq<char>) -> Option<JsonV>
    decreases items.len(),
{
    if items.len() == 0 {
        None
    } else {
        match first_keyed(items.drop_last(), k) {
            Some(c) => Some(c),
            None => if as_str(at(items.last(), "key"@)) == Some(k) {
                Some(items.last())
            } else {
                None
            },
        }
    }
}

/// The collections named exactly `n`, in order.
pub open spec fn named(items: Seq<JsonV>, n: Seq<char>) -> Seq<JsonV>
    decreases items.len(),
{
    if items.len() == 0 {
        seq![]
    } else {
        named(items.drop_last(), n) + if as_str(at(items.last(), "name"@)) == Some(n) {
            seq![items.last()]
        } else {
            seq![]
        }
    }
}

/// The collections whose normalized name contains `needle`, in order.
pub open spec fn fuzzy(items: Seq<JsonV>, needle: Seq<char>) -> Seq<JsonV>
    decreases items.len(),
{
    if items.len() == 0 {
        seq![]
    } else {
        fuzzy(items.drop_last(), needle) + match as_str(at(items.last(), "name"@)) {
            Some(n) => if contains(normalized_name(n), needle) {
                seq![items.last()]
            } else {
                seq![]
            },
            None => seq![],
        }
    }
}

/// Which collection a (trimmed) name denotes in a `collections.list` reply: a
/// collection with that key, else the only one with that exact name, else the
/// only one whose normalized name contains the normalized name.
pub open spec fn resolved_in(reply: JsonV, t: Seq<char>) -> Result<JsonV, Seq<char>> {
    match listed(reply) {
        None => Err("collections.list returned non-array result"@),
        Some(items) => match first_keyed(items, t) {
            Some(c) => key_of(c),
            None => {
                let exact = named(items, t);
                if exact.len() == 1 {
                    key_of(exact[0])
                } else {
                    let fz = fuzzy(items, normalized_name(t));
                    if fz.len() == 1 {
                        key_of(fz[0])
                    } else if fz.len() == 0 {
                        Err("COLLECTION_NOT_FOUND: No collection named "@ + debug_text(t))
                    } else {
                        Err("COLLECTION_AMBIGUOUS: Multiple collections match "@ + debug_text(t))
                    }
                }
            },
        },
    }
}

fn str_member_is(v: &Json, key: &str, want: &str) -> (r: bool)
    ensures
        r == (as_str(at(v@, key@)) == Some(want@)),
{
    let x = v.at(key);
    match x.as_str() {
        Some(s) => str_eq(s, want),
        None => false,
    }
}

/// Resolves a (trimmed) collection name against a `collections.list` reply.
pub fn resolve_collection_in(reply: &Json, trimmed: &str) -> (r: Result<Json, String>)
    ensures
        json_result(r) == resolved_in(reply@, trimmed@),
{
    let list = reply.at("items");
    let items: &Vec<Json> = match list.as_array() {
        Some(a) => a,
        None => match reply.as_array() {
            Some(a) => a,
            None => return Err(to_string("collections.list returned non-array result")),
        },
    };
    let ghost iv = items@.map_values(|x: Json| x@);
    assert(listed(reply@) == Some(iv));
    let mut i: usize = 0;
    while i < items.len()
        invariant
            i <= items@.len(),
            iv == items@.map_values(|x: Json| x@),
            listed(reply@) == Some(iv),
            first_keyed(iv.take(i as int), trimmed@) is None,
        decreases items.len() - i,
    {
        proof {
            assert(iv.take(i + 1).drop_last() =~= iv.take(i as int));
            assert(iv.take(i + 1).last() == items@[i as int]@);
        }
        if str_member_is(&items[i], "key", trimmed) {
            proof {
                assert(first_keyed(iv.take(i + 1), trimmed@) == Some(items@[i as int]@));
                lemma_first_keyed_prefix(iv, i + 1, trimmed@);
            }
            return collection_key(&items[i]);
        }
        i += 1;
    }
    assert(iv.take(items@.len() as int) =~= iv);
    let mut exact: Vec<usize> = Vec::new();
    let needle = normalize_collection_name(trimmed);
    let mut fz: Vec<usize> = Vec::new();
    let mut k: usize = 0;
    while k < items.len()
        invariant
            k <= items@.len(),
            iv == items@.map_values(|x: Json| x@),
            needle@ == normalized_name(trimmed@),
            forall|j: int| 0 <= j < exact@.len() ==> #[trigger] exact@[j] < items@.len(),
            exact@.map_values(|x: usize| iv[x as int]) == named(iv.take(k as int), trimmed@),
            forall|j: int| 0 <= j < fz@.len() ==> #[trigger] fz@[j] < items@.len(),
            fz@.map_values(|x: usize| iv[x as int]) == fuzzy(iv.take(k as int), needle@),
        decreases items.len() - k,
    {
        proof {
            assert(iv.take(k + 1).drop_last() =~= iv.take(k as int));
            assert(iv.take(k + 1).last() == items@[k as int]@);
        }
        let ghost ne = named(iv.take(k as int), trimmed@);
        let ghost nf = fuzzy(iv.take(k as int), needle@);
        if str_member_is(&items[k], "name", trimmed) {
            exact.push(k);
            assert(named(iv.take(k + 1), trimmed@) =~= ne.push(iv[k as int]));
            assert(exact@.map_values(|x: usize| iv[x as int]) =~= ne.push(iv[k as int]));
        } else {
            assert(named(iv.take(k + 1), trimmed@) =~= ne);
        }
        let name = items[k].at("name");
        match name.as_str() {
            Some(n) => {
                let nn = normalize_collection_name(n);
                let a = chars_of(nn.as_str());
                let b = chars_of(needle.as_str());
                if contains_exec(&a, &b) {
                    fz.push(k);
                    assert(fuzzy(iv.take(k + 1), needle@) =~= nf.push(iv[k as int]));
                    assert(fz@.map_values(|x: usize| iv[x as int]) =~= nf.push(iv[k as int]));
                } else {
                    assert(fuzzy(iv.take(k + 1), needle@) =~= nf);
                }
            },
            None => {
                assert(fuzzy(iv.take(k + 1), needle@) =~= nf);
            },
        }
        k += 1;
    }
    assert(iv.take(items@.len() as int) =~= iv);
    if exact.len() == 1 {
        assert(exact@.map_values(|x: usize| iv[x as int])[0] == iv[exact@[0] as int]);
        return collection_key(&items[exact[0]]);
    }
    if fz.len() == 1 {
        assert(fz@.map_values(|x: usize| iv[x as int])[0] == iv[fz@[0] as int]);
        return collection_key(&items[fz[0]]);
    }
    let q = debug_quote(trimmed);
    if fz.len() == 0 {
        Err(message("COLLECTION_NOT_FOUND: No collection named ", q.as_str()))
    } else {
        Err(message("COLLECTION_AMBIGUOUS: Multiple collections match ", q.as_str()))
    }
}

proof fn lemma_first_keyed_prefix(items: Seq<JsonV>, n: int, k: Seq<char>)
    requires
        0 <= n <= items.len(),
        first_keyed(items.take(n), k) is Some,
    ensures
        first_keyed(items, k) == first_keyed(items.take(n), k),
    decreases items.len() - n,
{
    if n < items.len() {
        assert(items.take(n + 1).drop_last() =~= items.take(n));
        lemma_first_keyed_prefix(items, n + 1, k);
    } else {
        assert(items.take(n) =~= items);
    }
}

/// How many calls resolving `name` makes: none for a numeric id, else one
/// `collections.list`.
pub open spec fn resolve_steps(name: Seq<char>) -> nat {
    if parsed_i64(trim(name)) is Some {
        0
    } else {
        1
    }
}

/// What resolving `name` gives: the numeric id itself, or the collection that
/// the `collections.list` reply (the last call in `after`) names.
pub open spec fn resolution(name: Seq<char>, after: Seq<Exchange>) -> Result<JsonV, Seq<char>> {
    let t = trim(name);
    match parsed_i64(t) {
        Some(id) => Ok(int_json(id)),
        None => match replied(after) {
            Ok(v) => resolved_in(v, t),
            Err(e) => Err(e),
        },
    }
}

/// The calls that resolving `name` makes: none for a numeric id, else one
/// `collections.list` without parameters.
pub open spec fn resolving(before: Seq<Exchange>, after: Seq<Exchange>, name: Seq<char>) -> bool {
    if resolve_steps(name) == 0 {
        after == before
    } else {
        called(before, after, "collections.list"@, None)
    }
}

/// Resolves a collection given by numeric id, key or name to its key (a
/// numeric id is taken as it is, without asking Zotero).
pub fn resolve_collection<C: RpcCaller>(client: &mut C, name_or_id: &str) -> (r: Result<
    Json,
    String,
>)
    ensures
        resolving(old(client).exchanges(), final(client).exchanges(), name_or_id@),
        json_result(r) == resolution(name_or_id@, final(client).exchanges()),
{
    let trimmed = trim_exec(name_or_id);
    match parse_i64(trimmed.as_str()) {
        Some(id) => {
            return Ok(int_value(id));
        },
        None => {},
    }
    let reply = client.call("collections.list", None);
    assert(client.exchanges().drop_last() =~= old(client).exchanges());
    match reply {
        Ok(reply) => resolve_collection_in(&reply, trimmed.as_str()),
        Err(e) => Err(e),
    }
}

/// The key an operation that changes a collection may use: the resolved key,
/// unless it is the library root (key 0).
pub open spec fn mutable_key(
    name: Seq<char>,
    operation: Seq<char>,
    key: Result<JsonV, Seq<char>>,
) -> Result<JsonV, Seq<char>> {
    match key {
        Ok(k) => if as_i64(k) == Some(0i64) {
            Err(
                "COLLECTION_NOT_FOUND: "@ + debug_text(name) + " resolved to library root (cannot "@
                    + operation + ")"@,
            )
        } else {
            Ok(k)
        },
        Err(e) => Err(e),
    }
}

/// Resolves a collection that an operation will change: the library root
/// (key 0) is refused.
pub fn resolve_mutable_collection<C: RpcCaller>(
    client: &mut C,
    name_or_id: &str,
    operation: &str,
) -> (r: Result<Json, String>)
    ensures
        resolving(old(client).exchanges(), final(client).exchanges(), name_or_id@),
        json_result(r) == mutable_key(
            name_or_id@,
            operation@,
            resolution(name_or_id@, final(client).exchanges()),
        ),
{
    let key = match resolve_collection(client, name_or_id) {
        Ok(k) => k,
        Err(e) => return Err(e),
    };
    if key.as_i64() == Some(0) {
        let q = debug_quote(name_or_id);
        let mut m = message("COLLECTION_NOT_FOUND: ", q.as_str());
        push_str(&mut m, " resolved to library root (cannot ");
        push_str(&mut m, operation);
        push_str(&mut m, ")");
        return Err(m);
    }
    Ok(key)
}

} // verus!
