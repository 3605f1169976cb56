//! `zotron search`: lookup by identifier, full-text search, filtered
//! (advanced) search, and quick search with its evidence artifacts left out.
//!
//! Whether a title names one of the plugin's evidence artifacts (OCR output,
//! chunks, embeddings stored as attachments) is decided outside the library:
//! a quick search hands its reply back as `Searched::Quick`, the caller
//! judges the titles `quick_titles` lists, and `finish_quick_search` does the
//! rest.

use vstd::prelude::*;
use crate::cli::{called, replied, Exchange, RpcCaller};
use crate::cli::collections::{resolution, resolve_collection, resolve_steps};
use crate::cli::commands::{ask, lemma_resolved_part, resolved_part, resolves_first};
use crate::cli::items::{collection_items, items_of};
use crate::cli::search::{quick_item_matches, quick_matches};
use crate::json::{
    as_str, at, find_member, lemma_key_index, lemma_members_get_index, members_get, members_view,
    obj1, obj2, obj3, object_of, push_member, set_member, with_member, Json, JsonV, NumberV,
};
use crate::output::{list_envelope, normalize_list_envelope};
use crate::text::to_string;

verus! {

/// The arguments of `zotron search`.
#[derive(Debug)]
pub struct SearchArgs {
    pub query: Option<String>,
    pub fulltext: bool,
    pub author: Option<String>,
    pub after: Option<String>,
    pub before: Option<String>,
    pub journal: Option<String>,
    pub tag: Option<String>,
    pub doi: Option<String>,
    pub isbn: Option<String>,
    pub issn: Option<String>,
    pub collection: Option<String>,
    pub limit: u64,
    pub offset: u64,
}

/// Where a search stands after its calls: finished, or a quick search's
/// reply still holding evidence artifacts.
#[derive(Debug)]
pub enum Searched {
    Done(Json),
    Quick { reply: Json, query: String, limit: u64, in_collection: bool },
}

/// A search's outcome by its view.
pub enum SearchedV {
    Done(JsonV),
    Quick { reply: JsonV, query: Seq<char>, limit: u64, in_collection: bool },
}

pub open spec fn searched_view(r: Result<Searched, String>) -> Result<SearchedV, Seq<char>> {
    match r {
        Ok(Searched::Done(v)) => Ok(SearchedV::Done(v@)),
        Ok(Searched::Quick { reply, query, limit, in_collection }) => Ok(
            SearchedV::Quick { reply: reply@, query: query@, limit, in_collection },
        ),
        Err(e) => Err(e@),
    }
}

/// A reply put in the list envelope and finished; an error passes through.
pub open spec fn done_enveloped(reply: Result<JsonV, Seq<char>>, limit: Option<u64>, offset: u64) -> Result<
    SearchedV,
    Seq<char>,
> {
    match reply {
        Ok(v) => Ok(SearchedV::Done(list_envelope(v, "items"@, limit, offset))),
        Err(e) => Err(e),
    }
}

/// A quick search's reply, kept for its artifacts to be judged.
pub open spec fn quick_reply(reply: Result<JsonV, Seq<char>>, query: Seq<char>, limit: u64, in_collection: bool) -> Result<
    SearchedV,
    Seq<char>,
> {
    match reply {
        Ok(v) => Ok(SearchedV::Quick { reply: v, query, limit, in_collection }),
        Err(e) => Err(e),
    }
}

/// The parameters of `search.byIdentifier`: the DOI, ISBN and ISSN given.
pub open spec fn identifier_params(a: SearchArgs) -> JsonV {
    let m1: Seq<(Seq<char>, JsonV)> = match a.doi {
        Some(d) => seq![("doi"@, JsonV::Str(d@))],
        None => seq![],
    };
    let m2 = match a.isbn {
        Some(x) => m1.push(("isbn"@, JsonV::Str(x@))),
        None => m1,
    };
    JsonV::Object(
        match a.issn {
            Some(x) => m2.push(("issn"@, JsonV::Str(x@))),
            None => m2,
        },
    )
}

/// One condition of an advanced search.
pub open spec fn condition(field: Seq<char>, operator: Seq<char>, value: Seq<char>) -> JsonV {
    obj3("field"@, JsonV::Str(field), "operator"@, JsonV::Str(operator), "value"@, JsonV::Str(value))
}

/// The condition on `field` when a value is given.
pub open spec fn opt_condition(value: Option<String>, field: Seq<char>, operator: Seq<char>) -> Seq<JsonV> {
    match value {
        Some(v) => seq![condition(field, operator, v@)],
        None => seq![],
    }
}

/// The conditions of a filtered search, in this order: the query (title,
/// creator or year), author, dates after and before, journal, tag.
pub open spec fn filter_conditions(a: SearchArgs) -> Seq<JsonV> {
    opt_condition(a.query, "quicksearch-titleCreatorYear"@, "contains"@) + opt_condition(
        a.author,
        "creator"@,
        "contains"@,
    ) + opt_condition(a.after, "date"@, "isAfter"@) + opt_condition(a.before, "date"@, "isBefore"@)
        + opt_condition(a.journal, "publicationTitle"@, "contains"@) + opt_condition(
        a.tag,
        "tag"@,
        "is"@,
    )
}

/// The parameters of `search.advanced`.
pub open spec fn advanced_params(a: SearchArgs) -> JsonV {
    JsonV::Object(
        seq![
            ("conditions"@, JsonV::Array(filter_conditions(a))),
            ("operator"@, JsonV::Str("and"@)),
            ("limit"@, JsonV::Number(NumberV::PosInt(a.limit))),
            ("offset"@, JsonV::Number(NumberV::PosInt(a.offset))),
        ],
    )
}

pub open spec fn has_identifier(a: SearchArgs) -> bool {
    a.doi is Some || a.isbn is Some || a.issn is Some
}

pub open spec fn has_filters(a: SearchArgs) -> bool {
    a.author is Some || a.after is Some || a.before is Some || a.journal is Some || a.tag is Some
}

/// A collection named by `c` is resolved first; with its key, `rest` holds
/// of the calls after the resolution.
pub open spec fn after_resolving(
    before: Seq<Exchange>,
    after: Seq<Exchange>,
    c: Seq<char>,
    o: Result<SearchedV, Seq<char>>,
    rest: spec_fn(Seq<Exchange>, JsonV) -> bool,
) -> bool {
    let mid = resolved_part(before, after, c);
    &&& resolves_first(before, after, c)
    &&& match resolution(c, mid) {
        Err(e) => after == mid && o == Err::<SearchedV, Seq<char>>(e),
        Ok(k) => rest(mid, k),
    }
}

/// What `zotron search` does, by its calls and its outcome:
/// - with a DOI, ISBN or ISSN: one `search.byIdentifier` call;
/// - with `--fulltext`: the query is required; the collection, when given, is
///   resolved first; then one `search.fulltext` call;
/// - with any filter: one `search.advanced` call with the conditions;
/// - else the query is required; a collection's items (`collections.getItems`
///   after resolving it) or `search.quick` give a reply to finish.
pub open spec fn search_ran(
    a: SearchArgs,
    before: Seq<Exchange>,
    after: Seq<Exchange>,
    o: Result<SearchedV, Seq<char>>,
) -> bool {
    if has_identifier(a) {
        called(before, after, "search.byIdentifier"@, Some(identifier_params(a))) && o
            == done_enveloped(replied(after), None, 0)
    } else if a.fulltext {
        match a.query {
            None => after == before && o == Err::<SearchedV, Seq<char>>(
                "INVALID_ARGS: --fulltext requires a search query"@,
            ),
            Some(q) => {
                let base = obj2("query"@, JsonV::Str(q@), "limit"@, JsonV::Number(NumberV::PosInt(a.limit)));
                match a.collection {
                    None => called(before, after, "search.fulltext"@, Some(base)) && o == done_enveloped(
                        replied(after),
                        Some(a.limit),
                        0,
                    ),
                    Some(c) => after_resolving(
                        before,
                        after,
                        c@,
                        o,
                        |mid: Seq<Exchange>, k: JsonV|
                            called(
                                mid,
                                after,
                                "search.fulltext"@,
                                Some(
                                    obj3(
                                        "query"@,
                                        JsonV::Str(q@),
                                        "limit"@,
                                        JsonV::Number(NumberV::PosInt(a.limit)),
                                        "collection"@,
                                        k,
                                    ),
                                ),
                            ) && o == done_enveloped(replied(after), Some(a.limit), 0),
                    ),
                }
            },
        }
    } else if has_filters(a) {
        called(before, after, "search.advanced"@, Some(advanced_params(a))) && o == done_enveloped(
            replied(after),
            Some(a.limit),
            a.offset,
        )
    } else {
        match a.query {
            None => after == before && o == Err::<SearchedV, Seq<char>>(
                "INVALID_ARGS: provide a search query, or use --doi/--isbn/--issn for identifier lookup"@,
            ),
            Some(q) => match a.collection {
                None => called(
                    before,
                    after,
                    "search.quick"@,
                    Some(obj2("query"@, JsonV::Str(q@), "limit"@, JsonV::Number(NumberV::PosInt(a.limit)))),
                ) && o == quick_reply(replied(after), q@, a.limit, false),
                Some(c) => after_resolving(
                    before,
                    after,
                    c@,
                    o,
                    |mid: Seq<Exchange>, k: JsonV|
                        called(mid, after, "collections.getItems"@, Some(obj1("key"@, k))) && o
                            == quick_reply(replied(after), q@, a.limit, true),
                ),
            },
        }
    }
}

/// Appends the condition on `field` when a value is given.
fn push_condition(conds: &mut Vec<Json>, value: &Option<String>, field: &str, operator: &str)
    ensures
        final(conds)@.map_values(|c: Json| c@) == old(conds)@.map_values(|c: Json| c@) + opt_condition(
            *value,
            field@,
            operator@,
        ),
{
    let ghost before = conds@.map_values(|c: Json| c@);
    match value {
        Some(v) => {
            let c = Json::object3("field", Json::str(field), "operator", Json::str(operator), "value", Json::str(v.as_str()));
            conds.push(c);
            assert(conds@.map_values(|c: Json| c@) =~= before + opt_condition(*value, field@, operator@));
        },
        None => {
            assert(conds@.map_values(|c: Json| c@) =~= before + opt_condition(*value, field@, operator@));
        },
    }
}

/// Runs the calls of `zotron search` (see `search_ran`). A quick search comes
/// back as `Searched::Quick`, to be finished by `finish_quick_search`.
pub fn run_search<C: RpcCaller>(args: SearchArgs, client: &mut C) -> (r: Result<Searched, String>)
    ensures
        search_ran(args, old(client).exchanges(), final(client).exchanges(), searched_view(r)),
{
    let ghost before = client.exchanges();
    if args.doi.is_some() || args.isbn.is_some() || args.issn.is_some() {
        let mut m: Vec<(String, Json)> = Vec::new();
        match &args.doi {
            Some(d) => push_member(&mut m, "doi", Json::str(d.as_str())),
            None => {},
        }
        match &args.isbn {
            Some(x) => push_member(&mut m, "isbn", Json::str(x.as_str())),
            None => {},
        }
        match &args.issn {
            Some(x) => push_member(&mut m, "issn", Json::str(x.as_str())),
            None => {},
        }
        assert(members_view(m@) =~= identifier_params(args)->Object_0);
        let reply = ask(client, "search.byIdentifier", Some(object_of(m)));
        return match reply {
            Ok(v) => Ok(Searched::Done(normalize_list_envelope(v, "items", None, 0))),
            Err(e) => Err(e),
        };
    }
    if args.fulltext {
        let q = match &args.query {
            Some(q) => q,
            None => return Err(to_string("INVALID_ARGS: --fulltext requires a search query")),
        };
        let params = match &args.collection {
            None => Json::object2("query", Json::str(q.as_str()), "limit", Json::uint(args.limit)),
            Some(c) => {
                let key = resolve_collection(client, c.as_str());
                let ghost mid = client.exchanges();
                proof {
                    lemma_resolved_part(before, mid, mid, c@);
                }
                match key {
                    Ok(k) => Json::object3(
                        "query",
                        Json::str(q.as_str()),
                        "limit",
                        Json::uint(args.limit),
                        "collection",
                        k,
                    ),
                    Err(e) => return Err(e),
                }
            },
        };
        let ghost mid = client.exchanges();
        let reply = ask(client, "search.fulltext", Some(params));
        proof {
            match args.collection {
                Some(c) => lemma_resolved_part(before, mid, client.exchanges(), c@),
                None => {},
            }
        }
        return match reply {
            Ok(v) => Ok(Searched::Done(normalize_list_envelope(v, "items", Some(args.limit), 0))),
            Err(e) => Err(e),
        };
    }
    if args.author.is_some() || args.after.is_some() || args.before.is_some() || args.journal.is_some()
        || args.tag.is_some() {
        let mut conds: Vec<Json> = Vec::new();
        push_condition(&mut conds, &args.query, "quicksearch-titleCreatorYear", "contains");
        push_condition(&mut conds, &args.author, "creator", "contains");
        push_condition(&mut conds, &args.after, "date", "isAfter");
        push_condition(&mut conds, &args.before, "date", "isBefore");
        push_condition(&mut conds, &args.journal, "publicationTitle", "contains");
        push_condition(&mut conds, &args.tag, "tag", "is");
        assert(conds@.map_values(|c: Json| c@) =~= filter_conditions(args));
        let mut m: Vec<(String, Json)> = Vec::new();
        push_member(&mut m, "conditions", Json::arr(conds));
        push_member(&mut m, "operator", Json::str("and"));
        push_member(&mut m, "limit", Json::uint(args.limit));
        push_member(&mut m, "offset", Json::uint(args.offset));
        assert(members_view(m@) =~= advanced_params(args)->Object_0);
        let reply = ask(client, "search.advanced", Some(object_of(m)));
        return match reply {
            Ok(v) => Ok(Searched::Done(normalize_list_envelope(v, "items", Some(args.limit), args.offset))),
            Err(e) => Err(e),
        };
    }
    let q = match &args.query {
        Some(q) => q,
        None => return Err(
            to_string(
                "INVALID_ARGS: provide a search query, or use --doi/--isbn/--issn for identifier lookup",
            ),
        ),
    };
    match &args.collection {
        Some(c) => {
            let key = resolve_collection(client, c.as_str());
            let ghost mid = client.exchanges();
            proof {
                lemma_resolved_part(before, mid, mid, c@);
            }
            let k = match key {
                Ok(k) => k,
                Err(e) => return Err(e),
            };
            let reply = ask(client, "collections.getItems", Some(Json::object1("key", k)));
            proof {
                lemma_resolved_part(before, mid, client.exchanges(), c@);
            }
            match reply {
                Ok(v) => Ok(Searched::Quick { reply: v, query: to_string(q.as_str()), limit: args.limit, in_collection: true }),
                Err(e) => Err(e),
            }
        },
        None => {
            let params = Json::object2("query", Json::str(q.as_str()), "limit", Json::uint(args.limit));
            let reply = ask(client, "search.quick", Some(params));
            match reply {
                Ok(v) => Ok(Searched::Quick { reply: v, query: to_string(q.as_str()), limit: args.limit, in_collection: false }),
                Err(e) => Err(e),
            }
        },
    }
}

// ---------------------------------------------------------------------------
// Finishing a quick search.
// ---------------------------------------------------------------------------

/// Item `i` is an evidence artifact: it has a title, and the verdict on that
/// title (`artifacts[i]`) says so; a missing verdict counts as no.
pub open spec fn artifact_at(items: Seq<JsonV>, artifacts: Seq<bool>, i: int) -> bool {
    &&& as_str(at(items[i], "title"@)) is Some
    &&& 0 <= i < artifacts.len()
    &&& artifacts[i]
}

/// The items that are not evidence artifacts, in order.
pub open spec fn without_artifacts(items: Seq<JsonV>, artifacts: Seq<bool>) -> Seq<JsonV>
    decreases items.len(),
{
    if items.len() == 0 {
        seq![]
    } else {
        let rest = without_artifacts(items.drop_last(), artifacts);
        if artifact_at(items, artifacts, items.len() - 1) {
            rest
        } else {
            rest.push(items.last())
        }
    }
}

/// A `search.quick` reply without evidence artifacts: its `items` filtered
/// and its `total`, when it has one, set to how many remain; a reply without
/// an `items` array is left as it is.
pub open spec fn artifacts_filtered(value: JsonV, artifacts: Seq<bool>) -> JsonV {
    match value {
        JsonV::Object(m) => match members_get(m, "items"@) {
            Some(JsonV::Array(items)) => {
                let kept = without_artifacts(items, artifacts);
                let m1 = with_member(m, "items"@, JsonV::Array(kept));
                JsonV::Object(
                    if members_get(m, "total"@) is Some {
                        with_member(m1, "total"@, JsonV::Number(NumberV::PosInt(kept.len() as u64)))
                    } else {
                        m1
                    },
                )
            },
            _ => value,
        },
        _ => value,
    }
}

/// The items of a collection that are not evidence artifacts and match the
/// query, in order.
pub open spec fn quick_kept(items: Seq<JsonV>, artifacts: Seq<bool>, query: Seq<char>) -> Seq<JsonV>
    decreases items.len(),
{
    if items.len() == 0 {
        seq![]
    } else {
        let rest = quick_kept(items.drop_last(), artifacts, query);
        if !artifact_at(items, artifacts, items.len() - 1) && quick_matches(items.last(), query) {
            rest.push(items.last())
        } else {
            rest
        }
    }
}

/// The items of a collection listing.
pub open spec fn listing(response: JsonV) -> Seq<JsonV> {
    match items_of(response) {
        Some(a) => a,
        None => seq![],
    }
}

/// A quick search inside a collection: the matching items, at most `limit`
/// of them, and how many matched.
pub open spec fn collection_quick_json(response: JsonV, query: Seq<char>, limit: u64, artifacts: Seq<bool>) -> JsonV {
    let matched = quick_kept(listing(response), artifacts, query);
    let shown = if matched.len() > limit {
        matched.take(limit as int)
    } else {
        matched
    };
    obj2("items"@, JsonV::Array(shown), "total"@, JsonV::Number(NumberV::PosInt(matched.len() as u64)))
}

/// The items a quick search's artifact verdicts are about, in order.
pub open spec fn quick_items(reply: JsonV, in_collection: bool) -> Seq<JsonV> {
    if in_collection {
        listing(reply)
    } else {
        match at(reply, "items"@) {
            JsonV::Array(a) => a,
            _ => seq![],
        }
    }
}

/// The result of a quick search, its artifacts left out, in the list
/// envelope.
pub open spec fn quick_result(
    reply: JsonV,
    query: Seq<char>,
    limit: u64,
    in_collection: bool,
    artifacts: Seq<bool>,
) -> JsonV {
    list_envelope(
        if in_collection {
            collection_quick_json(reply, query, limit, artifacts)
        } else {
            artifacts_filtered(reply, artifacts)
        },
        "items"@,
        Some(limit),
        0,
    )
}

/// The title of an item, when it has a string one.
fn title_of(item: &Json) -> (r: Option<String>)
    ensures
        match r {
            Some(t) => as_str(at(item@, "title"@)) == Some(t@),
            None => as_str(at(item@, "title"@)) is None,
        },
{
    let t = item.at("title");
    match t.as_str() {
        Some(s) => Some(to_string(s)),
        None => None,
    }
}

/// Whether item `i` of `items` is an evidence artifact (see `artifact_at`).
fn artifact_exec(items: &Vec<Json>, artifacts: &Vec<bool>, i: usize) -> (r: bool)
    requires
        i < items@.len(),
    ensures
        r == artifact_at(items@.map_values(|x: Json| x@), artifacts@, i as int),
{
    let t = title_of(&items[i]);
    t.is_some() && i < artifacts.len() && artifacts[i]
}

/// The titles of the items a quick search's verdicts are about, in order;
/// the caller answers, title by title, whether it names an evidence
/// artifact.
pub fn quick_titles(reply: &Json, in_collection: bool) -> (r: Vec<Option<String>>)
    ensures
        r@.len() == quick_items(reply@, in_collection).len(),
        forall|i: int|
            0 <= i < r@.len() ==> match #[trigger] r@[i] {
                Some(t) => as_str(at(quick_items(reply@, in_collection)[i], "title"@)) == Some(t@),
                None => as_str(at(quick_items(reply@, in_collection)[i], "title"@)) is None,
            },
{
    let items: Vec<Json> = if in_collection {
        collection_items(reply)
    } else {
        match reply.at("items") {
            Json::Array(a) => a,
            _ => Vec::new(),
        }
    };
    let ghost iv = quick_items(reply@, in_collection);
    assert(items@.map_values(|x: Json| x@) =~= iv);
    let mut out: Vec<Option<String>> = Vec::new();
    let mut i: usize = 0;
    while i < items.len()
        invariant
            i <= items@.len(),
            iv == items@.map_values(|x: Json| x@),
            out@.len() == i,
            forall|j: int|
                0 <= j < i ==> match #[trigger] out@[j] {
                    Some(t) => as_str(at(iv[j], "title"@)) == Some(t@),
                    None => as_str(at(iv[j], "title"@)) is None,
                },
        decreases items.len() - i,
    {
        let t = title_of(&items[i]);
        out.push(t);
        i += 1;
    }
    out
}

/// Drops the evidence artifacts from a `search.quick` reply (see
/// `artifacts_filtered`).
pub fn filter_search_artifacts(value: Json, artifacts: &Vec<bool>) -> (r: Json)
    ensures
        r@ == artifacts_filtered(value@, artifacts@),
{
    let ghost vv = value@;
    let list = value.at("items");
    let ghost lv = list@;
    let items = match list {
        Json::Array(a) => a,
        _ => return value,
    };
    let ghost iv = items@.map_values(|x: Json| x@);
    assert(lv->Array_0 =~= iv);
    let mut kept: Vec<Json> = Vec::new();
    let mut i: usize = 0;
    while i < items.len()
        invariant
            i <= items@.len(),
            iv == items@.map_values(|x: Json| x@),
            kept@.map_values(|x: Json| x@) == without_artifacts(iv.take(i as int), artifacts@),
        decreases items.len() - i,
    {
        let is_artifact = artifact_exec(&items, artifacts, i);
        proof {
            assert(iv.take(i + 1).drop_last() =~= iv.take(i as int));
            assert(iv.take(i + 1).last() == iv[i as int]);
            assert(artifact_at(iv.take(i + 1), artifacts@, i as int) == artifact_at(iv, artifacts@, i as int));
        }
        if !is_artifact {
            let ghost before = kept@.map_values(|x: Json| x@);
            kept.push(items[i].clone_json());
            assert(kept@.map_values(|x: Json| x@) =~= before.push(iv[i as int]));
        }
        i += 1;
    }
    assert(iv.take(items@.len() as int) =~= iv);
    let ghost kv = without_artifacts(iv, artifacts@);
    let n = kept.len() as u64;
    match value {
        Json::Object(members) => {
            let mut m = members;
            let ghost m0 = members_view(m@);
            proof {
                assert(m0 =~= vv->Object_0);
                lemma_members_get_index(m0, "total"@);
                lemma_key_index(m0, "total"@);
            }
            assert(members_get(m0, "items"@) == Some(JsonV::Array(iv)));
            let has_total = find_member(&m, "total").is_some();
            assert(has_total == (members_get(m0, "total"@) is Some));
            set_member(&mut m, "items", Json::arr(kept));
            assert(members_view(m@) == with_member(m0, "items"@, JsonV::Array(kv)));
            if has_total {
                set_member(&mut m, "total", Json::uint(n));
            }
            object_of(m)
        },
        other => other,
    }
}

/// A quick search inside a collection (see `collection_quick_json`).
pub fn collection_quick_search_response(response: &Json, query: &str, limit: u64, artifacts: &Vec<bool>) -> (r: Json)
    ensures
        r@ == collection_quick_json(response@, query@, limit, artifacts@),
{
    let items = collection_items(response);
    let ghost iv = items@.map_values(|x: Json| x@);
    assert(iv == listing(response@));
    let mut matched: Vec<Json> = Vec::new();
    let mut i: usize = 0;
    while i < items.len()
        invariant
            i <= items@.len(),
            iv == items@.map_values(|x: Json| x@),
            matched@.map_values(|x: Json| x@) == quick_kept(iv.take(i as int), artifacts@, query@),
        decreases items.len() - i,
    {
        let is_artifact = artifact_exec(&items, artifacts, i);
        proof {
            assert(iv.take(i + 1).drop_last() =~= iv.take(i as int));
            assert(iv.take(i + 1).last() == iv[i as int]);
            assert(artifact_at(iv.take(i + 1), artifacts@, i as int) == artifact_at(iv, artifacts@, i as int));
        }
        if !is_artifact && quick_item_matches(&items[i], query) {
            let ghost before = matched@.map_values(|x: Json| x@);
            matched.push(items[i].clone_json());
            assert(matched@.map_values(|x: Json| x@) =~= before.push(iv[i as int]));
        }
        i += 1;
    }
    assert(iv.take(items@.len() as int) =~= iv);
    let total = matched.len() as u64;
    if (matched.len() as u64) > limit {
        let ghost mv = matched@.map_values(|x: Json| x@);
        matched.truncate(limit as usize);
        assert(matched@.map_values(|x: Json| x@) =~= mv.take(limit as int));
    }
    Json::object2("items", Json::arr(matched), "total", Json::uint(total))
}

/// Finishes a quick search: drops the evidence artifacts (`artifacts[i]` is
/// the verdict on the title of item `i` listed by `quick_titles`) and puts
/// the result in the list envelope.
pub fn finish_quick_search(reply: Json, query: &str, limit: u64, in_collection: bool, artifacts: &Vec<bool>) -> (r: Json)
    ensures
        r@ == quick_result(reply@, query@, limit, in_collection, artifacts@),
{
    let value = if in_collection {
        collection_quick_search_response(&reply, query, limit, artifacts)
    } else {
        filter_search_artifacts(reply, artifacts)
    };
    normalize_list_envelope(value, "items", Some(limit), 0)
}

/// Law: a quick search keeps exactly the items of the reply that are not
/// evidence artifacts: each item it keeps is one of them, and each of them is
/// kept.
pub proof fn law_quick_search_drops_artifacts(items: Seq<JsonV>, artifacts: Seq<bool>)
    ensures
        forall|k: int|
            #![trigger without_artifacts(items, artifacts)[k]]
            0 <= k < without_artifacts(items, artifacts).len() ==> exists|i: int|
                0 <= i < items.len() && #[trigger] items[i] == without_artifacts(items, artifacts)[k]
                    && !artifact_at(items, artifacts, i),
        forall|i: int|
            0 <= i < items.len() && !artifact_at(items, artifacts, i) ==> exists|k: int|
                0 <= k < without_artifacts(items, artifacts).len() && #[trigger] without_artifacts(
                    items,
                    artifacts,
                )[k] == items[i],
    decreases items.len(),
{
    if items.len() > 0 {
        let d = items.drop_last();
        let n = items.len() - 1;
        law_quick_search_drops_artifacts(d, artifacts);
        let w = without_artifacts(items, artifacts);
        let wd = without_artifacts(d, artifacts);
        assert forall|i: int| 0 <= i < d.len() implies artifact_at(d, artifacts, i) == artifact_at(
            items,
            artifacts,
            i,
        ) && d[i] == items[i] by {
            assert(d[i] == items[i]);
        }
        assert forall|k: int| #![trigger w[k]] 0 <= k < w.len() implies exists|i: int|
            0 <= i < items.len() && #[trigger] items[i] == w[k] && !artifact_at(items, artifacts, i) by {
            if k < wd.len() {
                assert(w[k] == wd[k]);
                let i = choose|i: int| 0 <= i < d.len() && #[trigger] d[i] == wd[k] && !artifact_at(d, artifacts, i);
                assert(items[i] == w[k]);
            } else {
                assert(w[k] == items[n]);
            }
        }
        assert forall|i: int| 0 <= i < items.len() && !artifact_at(items, artifacts, i) implies exists|k: int|
            0 <= k < w.len() && #[trigger] w[k] == items[i] by {
            if i < n {
                assert(!artifact_at(d, artifacts, i));
                assert(d[i] == items[i]);
                let k = choose|k: int| 0 <= k < wd.len() && #[trigger] wd[k] == d[i];
                assert(w[k] == wd[k]);
            } else {
                assert(w[wd.len() as int] == items[n]);
            }
        }
    }
}

/// Law: a quick search inside a collection keeps exactly the items that are
/// not evidence artifacts and match every term of the query.
pub proof fn law_collection_quick_search_keeps_matches(items: Seq<JsonV>, artifacts: Seq<bool>, query: Seq<char>)
    ensures
        forall|k: int|
            #![trigger quick_kept(items, artifacts, query)[k]]
            0 <= k < quick_kept(items, artifacts, query).len() ==> exists|i: int|
                0 <= i < items.len() && #[trigger] items[i] == quick_kept(items, artifacts, query)[k]
                    && !artifact_at(items, artifacts, i) && quick_matches(items[i], query),
        forall|i: int|
            0 <= i < items.len() && !artifact_at(items, artifacts, i) && quick_matches(items[i], query)
                ==> exists|k: int|
                0 <= k < quick_kept(items, artifacts, query).len() && #[trigger] quick_kept(
                    items,
                    artifacts,
                    query,
                )[k] == items[i],
    decreases items.len(),
{
    if items.len() > 0 {
        let d = items.drop_last();
        let n = items.len() - 1;
        law_collection_quick_search_keeps_matches(d, artifacts, query);
        let w = quick_kept(items, artifacts, query);
        let wd = quick_kept(d, artifacts, query);
        assert forall|i: int| 0 <= i < d.len() implies artifact_at(d, artifacts, i) == artifact_at(
            items,
            artifacts,
            i,
        ) && d[i] == items[i] by {
            assert(d[i] == items[i]);
        }
        assert forall|k: int| #![trigger w[k]] 0 <= k < w.len() implies exists|i: int|
            0 <= i < items.len() && #[trigger] items[i] == w[k] && !artifact_at(items, artifacts, i)
                && quick_matches(items[i], query) by {
            if k < wd.len() {
                assert(w[k] == wd[k]);
                let i = choose|i: int|
                    0 <= i < d.len() && #[trigger] d[i] == wd[k] && !artifact_at(d, artifacts, i)
                        && quick_matches(d[i], query);
                assert(items[i] == w[k]);
            } else {
                assert(w[k] == items[n]);
            }
        }
        assert forall|i: int|
            0 <= i < items.len() && !artifact_at(items, artifacts, i) && quick_matches(
                items[i],
                query,
            ) implies exists|k: int| 0 <= k < w.len() && #[trigger] w[k] == items[i] by {
            if i < n {
                assert(!artifact_at(d, artifacts, i));
                assert(d[i] == items[i]);
                let k = choose|k: int| 0 <= k < wd.len() && #[trigger] wd[k] == d[i];
                assert(w[k] == wd[k]);
            } else {
                assert(w[wd.len() as int] == items[n]);
            }
        }
    }
}

} // verus!
