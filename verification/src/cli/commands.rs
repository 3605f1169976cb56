//! The per-noun commands (collections, items, tags, notes, annotations,
//! settings, system, saved searches, export): each turns a command into its
//! RPC calls and shapes the replies. Every contract says which calls a
//! command makes, in order and with which parameters, and what it returns
//! for the replies it gets.

use vstd::prelude::*;
use crate::cli::collections::{
    mutable_key, resolution, resolve_collection, resolve_mutable_collection, resolve_steps,
    resolving,
};
use crate::cli::items::dry_run_json;
use crate::cli::items::{
    paginate_rpc, paging, Paging, extends, made_since, is_library_root, library_root, push_json, push_result, to_xpi_payload, xpi_payload, collection_items, dry_run_value, first_hit_key, first_key, has_pdf_attachment, items_of,
    lists_pdf, response_items, embedded_pdf, take_embedded_pdf, without_member,
};
use crate::paper::opt_view;
use crate::cli::{called, json_result, opt_json, replied, Exchange, RpcCaller};
use crate::json::{as_array, as_i64, as_str, at, debug_json, get, json_debug, members_view, object_of, push_member, push_opt_str, json_parse, parse_json, set_member, with_member, obj1, obj2, obj3, str_values, Json, JsonV, NumberV};
use crate::cli::collections::{int_json, int_value};
use crate::cli::search::{
    condition_of, parse_search_condition, position_check, validate_annotation_position,
};
use crate::text::{chars_of, push_str, utf8_len, utf8_len_at_least, debug_quote, debug_text, find, find_exec, str_eq, string_of_range};
use crate::output::{
    format_json, json_output, list_envelope, normalize_list_envelope, raw_output, raw_value_output,
};
use crate::text::to_string;
use crate::http::message;

verus! {

// ---------------------------------------------------------------------------
// Calls and their outcomes.
// ---------------------------------------------------------------------------

/// `after` is `before` and one call of `method` with `params`, and `r` is
/// its reply.
pub open spec fn answered(
    before: Seq<Exchange>,
    after: Seq<Exchange>,
    method: Seq<char>,
    params: Option<JsonV>,
    r: Result<JsonV, Seq<char>>,
) -> bool {
    called(before, after, method, params) && r == replied(after)
}

/// A list reply put in its envelope (see `normalize_list_envelope`); an error
/// passes through.
pub open spec fn enveloped(reply: Result<JsonV, Seq<char>>, limit: Option<u64>, offset: u64) -> Result<
    JsonV,
    Seq<char>,
> {
    match reply {
        Ok(v) => Ok(list_envelope(v, "items"@, limit, offset)),
        Err(e) => Err(e),
    }
}

/// A list call: one call of `method` with `params`, its reply enveloped.
pub open spec fn listed_call(
    before: Seq<Exchange>,
    after: Seq<Exchange>,
    method: Seq<char>,
    params: Option<JsonV>,
    limit: Option<u64>,
    offset: u64,
    r: Result<JsonV, Seq<char>>,
) -> bool {
    called(before, after, method, params) && r == enveloped(replied(after), limit, offset)
}

/// A mutation: a dry run answers without calling; otherwise one call of
/// `method` with `params`, and its reply.
pub open spec fn mutated(
    before: Seq<Exchange>,
    after: Seq<Exchange>,
    method: Seq<char>,
    params: JsonV,
    dry_run: bool,
    r: Result<JsonV, Seq<char>>,
) -> bool {
    if dry_run {
        after == before && r == Ok::<JsonV, Seq<char>>(dry_run_json(method, params))
    } else {
        answered(before, after, method, Some(params), r)
    }
}

pub proof fn lemma_called_extends(before: Seq<Exchange>, after: Seq<Exchange>, m: Seq<char>, p: Option<JsonV>)
    requires
        called(before, after, m, p),
    ensures
        after.subrange(0, before.len() as int) == before,
{
    assert(after.subrange(0, before.len() as int) =~= after.drop_last());
}

/// Makes one call.
pub fn ask<C: RpcCaller>(client: &mut C, method: &str, params: Option<Json>) -> (r: Result<
    Json,
    String,
>)
    ensures
        answered(
            old(client).exchanges(),
            final(client).exchanges(),
            method@,
            opt_json(params),
            json_result(r),
        ),
{
    let r = client.call(method, params);
    assert(client.exchanges().drop_last() =~= old(client).exchanges());
    r
}

/// Calls `method` with `params`, or on a dry run answers what it would call.
pub fn run_mutation_command<C: RpcCaller>(
    client: &mut C,
    method: &str,
    params: Json,
    dry_run: bool,
) -> (r: Result<Json, String>)
    ensures
        mutated(
            old(client).exchanges(),
            final(client).exchanges(),
            method@,
            params@,
            dry_run,
            json_result(r),
        ),
{
    if dry_run {
        Ok(dry_run_value(method, params))
    } else {
        ask(client, method, Some(params))
    }
}

/// A call whose reply is enveloped as a list.
fn ask_list<C: RpcCaller>(
    client: &mut C,
    method: &str,
    params: Option<Json>,
    limit: Option<u64>,
    offset: u64,
) -> (r: Result<Json, String>)
    ensures
        listed_call(
            old(client).exchanges(),
            final(client).exchanges(),
            method@,
            opt_json(params),
            limit,
            offset,
            json_result(r),
        ),
{
    match ask(client, method, params) {
        Ok(v) => Ok(normalize_list_envelope(v, "items", limit, offset)),
        Err(e) => Err(e),
    }
}

// ---------------------------------------------------------------------------
// Collections.
// ---------------------------------------------------------------------------

/// The `collections` commands.
pub enum CollectionsCommand {
    List,
    Tree,
    Get { name_or_id: String },
    GetItems { name_or_id: String, limit: Option<u64>, offset: u64 },
    Stats { name_or_id: String },
    Rename { old_name: String, new_name: String, dry_run: bool },
    Create { name: String, parent: Option<String>, dry_run: bool },
    Delete { name_or_id: String, dry_run: bool },
    AddItems { collection: String, item_keys: Vec<String>, dry_run: bool },
    RemoveItems { collection: String, item_keys: Vec<String>, dry_run: bool },
}

/// The calls in `after` that resolving `name` made, after `before`.
pub open spec fn resolved_part(before: Seq<Exchange>, after: Seq<Exchange>, name: Seq<char>) -> Seq<
    Exchange,
> {
    after.subrange(0, (before.len() + resolve_steps(name)) as int)
}

/// `after` begins with the calls that resolve `name`.
pub open spec fn resolves_first(before: Seq<Exchange>, after: Seq<Exchange>, name: Seq<char>) -> bool {
    after.len() >= before.len() + resolve_steps(name) && resolving(
        before,
        resolved_part(before, after, name),
        name,
    )
}

/// A collection named by `name` is resolved first (refusing the library root
/// when `operation` is given); on success the key goes on to `rest`.
pub open spec fn key_then(
    name: Seq<char>,
    operation: Option<Seq<char>>,
    mid: Seq<Exchange>,
) -> Result<JsonV, Seq<char>> {
    let key = resolution(name, mid);
    match operation {
        Some(op) => mutable_key(name, op, key),
        None => key,
    }
}

/// The parameters of `collections.getItems`: the key, then `limit` when
/// given and `offset` when positive.
pub open spec fn get_items_params(key: JsonV, limit: Option<u64>, offset: u64) -> JsonV {
    let m1 = seq![("key"@, key)];
    let m2 = match limit {
        Some(l) => m1.push(("limit"@, JsonV::Number(NumberV::PosInt(l)))),
        None => m1,
    };
    JsonV::Object(
        if offset > 0 {
            m2.push(("offset"@, JsonV::Number(NumberV::PosInt(offset))))
        } else {
            m2
        },
    )
}

/// What a `collections` command does: its calls (`before` to `after`) and its
/// result `r` for the replies it got.
pub open spec fn collections_ran(
    cmd: CollectionsCommand,
    before: Seq<Exchange>,
    after: Seq<Exchange>,
    r: Result<JsonV, Seq<char>>,
) -> bool {
    match cmd {
        CollectionsCommand::List => listed_call(
            before,
            after,
            "collections.list"@,
            None,
            None,
            0,
            r,
        ),
        CollectionsCommand::Tree => answered(before, after, "collections.tree"@, None, r),
        CollectionsCommand::Get { name_or_id } => {
            let mid = resolved_part(before, after, name_or_id@);
            &&& resolves_first(before, after, name_or_id@)
            &&& match key_then(name_or_id@, None, mid) {
                Err(e) => after == mid && r == Err::<JsonV, Seq<char>>(e),
                Ok(k) => answered(mid, after, "collections.get"@, Some(obj1("key"@, k)), r),
            }
        },
        CollectionsCommand::GetItems { name_or_id, limit, offset } => {
            let mid = resolved_part(before, after, name_or_id@);
            &&& resolves_first(before, after, name_or_id@)
            &&& match key_then(name_or_id@, None, mid) {
                Err(e) => after == mid && r == Err::<JsonV, Seq<char>>(e),
                Ok(k) => listed_call(
                    mid,
                    after,
                    "collections.getItems"@,
                    Some(get_items_params(k, limit, offset)),
                    limit,
                    offset,
                    r,
                ),
            }
        },
        CollectionsCommand::Stats { name_or_id } => {
            let mid = resolved_part(before, after, name_or_id@);
            &&& resolves_first(before, after, name_or_id@)
            &&& match key_then(name_or_id@, None, mid) {
                Err(e) => after == mid && r == Err::<JsonV, Seq<char>>(e),
                Ok(k) => answered(mid, after, "collections.stats"@, Some(obj1("key"@, k)), r),
            }
        },
        CollectionsCommand::Rename { old_name, new_name, dry_run } => {
            let mid = resolved_part(before, after, old_name@);
            &&& resolves_first(before, after, old_name@)
            &&& match key_then(old_name@, Some("rename"@), mid) {
                Err(e) => after == mid && r == Err::<JsonV, Seq<char>>(e),
                Ok(k) => mutated(
                    mid,
                    after,
                    "collections.rename"@,
                    obj2("key"@, k, "name"@, JsonV::Str(new_name@)),
                    dry_run,
                    r,
                ),
            }
        },
        CollectionsCommand::Create { name, parent, dry_run } => match parent {
            None => mutated(
                before,
                after,
                "collections.create"@,
                obj1("name"@, JsonV::Str(name@)),
                dry_run,
                r,
            ),
            Some(p) => {
                let mid = resolved_part(before, after, p@);
                &&& resolves_first(before, after, p@)
                &&& match key_then(p@, Some("use as parent"@), mid) {
                    Err(e) => after == mid && r == Err::<JsonV, Seq<char>>(e),
                    Ok(k) => mutated(
                        mid,
                        after,
                        "collections.create"@,
                        obj2("name"@, JsonV::Str(name@), "parentKey"@, k),
                        dry_run,
                        r,
                    ),
                }
            },
        },
        CollectionsCommand::Delete { name_or_id, dry_run } => {
            let mid = resolved_part(before, after, name_or_id@);
            &&& resolves_first(before, after, name_or_id@)
            &&& match key_then(name_or_id@, Some("delete"@), mid) {
                Err(e) => after == mid && r == Err::<JsonV, Seq<char>>(e),
                Ok(k) => mutated(
                    mid,
                    after,
                    "collections.delete"@,
                    obj1("key"@, k),
                    dry_run,
                    r,
                ),
            }
        },
        CollectionsCommand::AddItems { collection, item_keys, dry_run } => {
            let mid = resolved_part(before, after, collection@);
            &&& resolves_first(before, after, collection@)
            &&& match key_then(collection@, Some("add to"@), mid) {
                Err(e) => after == mid && r == Err::<JsonV, Seq<char>>(e),
                Ok(k) => mutated(
                    mid,
                    after,
                    "collections.addItems"@,
                    obj2("key"@, k, "keys"@, JsonV::Array(str_values(item_keys@))),
                    dry_run,
                    r,
                ),
            }
        },
        CollectionsCommand::RemoveItems { collection, item_keys, dry_run } => {
            let mid = resolved_part(before, after, collection@);
            &&& resolves_first(before, after, collection@)
            &&& match key_then(collection@, Some("operate on"@), mid) {
                Err(e) => after == mid && r == Err::<JsonV, Seq<char>>(e),
                Ok(k) => mutated(
                    mid,
                    after,
                    "collections.removeItems"@,
                    obj2("key"@, k, "keys"@, JsonV::Array(str_values(item_keys@))),
                    dry_run,
                    r,
                ),
            }
        },
    }
}

/// The calls that resolve a name are the start of everything after them.
pub proof fn lemma_resolved_part(
    before: Seq<Exchange>,
    mid: Seq<Exchange>,
    after: Seq<Exchange>,
    name: Seq<char>,
)
    requires
        resolving(before, mid, name),
        after == mid || (after.len() == mid.len() + 1 && after.drop_last() == mid),
    ensures
        resolved_part(before, after, name) == mid,
        resolves_first(before, after, name),
{
    assert(mid.len() == before.len() + resolve_steps(name));
    if after == mid {
        assert(after.subrange(0, mid.len() as int) =~= mid);
    } else {
        assert(after.subrange(0, mid.len() as int) =~= after.drop_last());
    }
}

fn get_items_request(key: Json, limit: Option<u64>, offset: u64) -> (r: Json)
    ensures
        r@ == get_items_params(key@, limit, offset),
{
    let ghost kv = key@;
    let mut m: Vec<(String, Json)> = Vec::new();
    m.push((to_string("key"), key));
    let ghost m1 = m@.map_values(|x: (String, Json)| (x.0@, x.1@));
    assert(m1 =~= seq![("key"@, kv)]);
    match limit {
        Some(l) => {
            m.push((to_string("limit"), Json::uint(l)));
        },
        None => {},
    }
    let ghost m2 = m@.map_values(|x: (String, Json)| (x.0@, x.1@));
    assert(m2 =~= match limit {
        Some(l) => m1.push(("limit"@, JsonV::Number(NumberV::PosInt(l)))),
        None => m1,
    });
    if offset > 0 {
        m.push((to_string("offset"), Json::uint(offset)));
    }
    let r = Json::Object(m);
    assert((r@->Object_0) =~= if offset > 0 {
        m2.push(("offset"@, JsonV::Number(NumberV::PosInt(offset))))
    } else {
        m2
    });
    r
}

/// Runs a `collections` command.
pub fn run_collections_command<C: RpcCaller>(command: CollectionsCommand, client: &mut C) -> (r:
    Result<Json, String>)
    ensures
        collections_ran(command, old(client).exchanges(), final(client).exchanges(), json_result(r)),
{
    let ghost before = client.exchanges();
    match command {
        CollectionsCommand::List => ask_list(client, "collections.list", None, None, 0),
        CollectionsCommand::Tree => ask(client, "collections.tree", None),
        CollectionsCommand::Get { name_or_id } => {
            let key = resolve_collection(client, name_or_id.as_str());
            let ghost mid = client.exchanges();
            let r = match key {
                Err(e) => Err(e),
                Ok(k) => ask(client, "collections.get", Some(Json::object1("key", k))),
            };
            proof {
                lemma_resolved_part(before, mid, client.exchanges(), name_or_id@);
            }
            r
        },
        CollectionsCommand::GetItems { name_or_id, limit, offset } => {
            let key = resolve_collection(client, name_or_id.as_str());
            let ghost mid = client.exchanges();
            let r = match key {
                Err(e) => Err(e),
                Ok(k) => ask_list(
                    client,
                    "collections.getItems",
                    Some(get_items_request(k, limit, offset)),
                    limit,
                    offset,
                ),
            };
            proof {
                lemma_resolved_part(before, mid, client.exchanges(), name_or_id@);
            }
            r
        },
        CollectionsCommand::Stats { name_or_id } => {
            let key = resolve_collection(client, name_or_id.as_str());
            let ghost mid = client.exchanges();
            let r = match key {
                Err(e) => Err(e),
                Ok(k) => ask(client, "collections.stats", Some(Json::object1("key", k))),
            };
            proof {
                lemma_resolved_part(before, mid, client.exchanges(), name_or_id@);
            }
            r
        },
        CollectionsCommand::Rename { old_name, new_name, dry_run } => {
            let key = resolve_mutable_collection(client, old_name.as_str(), "rename");
            let ghost mid = client.exchanges();
            let r = match key {
                Err(e) => Err(e),
                Ok(k) => run_mutation_command(
                    client,
                    "collections.rename",
                    Json::object2("key", k, "name", Json::str(new_name.as_str())),
                    dry_run,
                ),
            };
            proof {
                lemma_resolved_part(before, mid, client.exchanges(), old_name@);
            }
            r
        },
        CollectionsCommand::Create { name, parent, dry_run } => match parent {
            None => run_mutation_command(
                client,
                "collections.create",
                Json::object1("name", Json::str(name.as_str())),
                dry_run,
            ),
            Some(p) => {
                let key = resolve_mutable_collection(client, p.as_str(), "use as parent");
                let ghost mid = client.exchanges();
                let r = match key {
                    Err(e) => Err(e),
                    Ok(k) => run_mutation_command(
                        client,
                        "collections.create",
                        Json::object2("name", Json::str(name.as_str()), "parentKey", k),
                        dry_run,
                    ),
                };
                proof {
                    lemma_resolved_part(before, mid, client.exchanges(), p@);
                }
                r
            },
        },
        CollectionsCommand::Delete { name_or_id, dry_run } => {
            let key = resolve_mutable_collection(client, name_or_id.as_str(), "delete");
            let ghost mid = client.exchanges();
            let r = match key {
                Err(e) => Err(e),
                Ok(k) => run_mutation_command(
                    client,
                    "collections.delete",
                    Json::object1("key", k),
                    dry_run,
                ),
            };
            proof {
                lemma_resolved_part(before, mid, client.exchanges(), name_or_id@);
            }
            r
        },
        CollectionsCommand::AddItems { collection, item_keys, dry_run } => {
            let key = resolve_mutable_collection(client, collection.as_str(), "add to");
            let ghost mid = client.exchanges();
            let r = match key {
                Err(e) => Err(e),
                Ok(k) => run_mutation_command(
                    client,
                    "collections.addItems",
                    Json::object2("key", k, "keys", Json::str_array(&item_keys)),
                    dry_run,
                ),
            };
            proof {
                lemma_resolved_part(before, mid, client.exchanges(), collection@);
            }
            r
        },
        CollectionsCommand::RemoveItems { collection, item_keys, dry_run } => {
            let key = resolve_mutable_collection(client, collection.as_str(), "operate on");
            let ghost mid = client.exchanges();
            let r = match key {
                Err(e) => Err(e),
                Ok(k) => run_mutation_command(
                    client,
                    "collections.removeItems",
                    Json::object2("key", k, "keys", Json::str_array(&item_keys)),
                    dry_run,
                ),
            };
            proof {
                lemma_resolved_part(before, mid, client.exchanges(), collection@);
            }
            r
        },
    }
}

// ---------------------------------------------------------------------------
// Tags.
// ---------------------------------------------------------------------------

/// The `tags` commands.
pub enum TagsCommand {
    List { limit: u64 },
    Rename { old: String, new: String, dry_run: bool },
    Delete { tag: String, dry_run: bool },
    Add { keys: Vec<String>, tags: Vec<String>, dry_run: bool },
    Remove { keys: Vec<String>, tags: Vec<String>, dry_run: bool },
}

pub open spec fn uint_json(n: u64) -> JsonV {
    JsonV::Number(NumberV::PosInt(n))
}

pub open spec fn strs(v: Vec<String>) -> JsonV {
    JsonV::Array(str_values(v@))
}

/// Adding or removing tags: `single` on one item, else `tags.batchUpdate`
/// with the tags under `batch_field`.
pub open spec fn tag_edit(
    keys: Vec<String>,
    tags: Vec<String>,
    single: Seq<char>,
    batch_field: Seq<char>,
) -> (Seq<char>, JsonV) {
    if keys@.len() == 1 {
        (single, obj2("key"@, JsonV::Str(keys@[0]@), "tags"@, strs(tags)))
    } else {
        ("tags.batchUpdate"@, obj2("keys"@, strs(keys), batch_field, strs(tags)))
    }
}

/// What a `tags` command does.
pub open spec fn tags_ran(
    cmd: TagsCommand,
    before: Seq<Exchange>,
    after: Seq<Exchange>,
    r: Result<JsonV, Seq<char>>,
) -> bool {
    match cmd {
        TagsCommand::List { limit } => listed_call(
            before,
            after,
            "tags.list"@,
            Some(obj1("limit"@, uint_json(limit))),
            Some(limit),
            0,
            r,
        ),
        TagsCommand::Rename { old, new, dry_run } => mutated(
            before,
            after,
            "tags.rename"@,
            obj2("oldName"@, JsonV::Str(old@), "newName"@, JsonV::Str(new@)),
            dry_run,
            r,
        ),
        TagsCommand::Delete { tag, dry_run } => mutated(
            before,
            after,
            "tags.delete"@,
            obj1("tag"@, JsonV::Str(tag@)),
            dry_run,
            r,
        ),
        TagsCommand::Add { keys, tags, dry_run } => {
            let (m, p) = tag_edit(keys, tags, "tags.add"@, "add"@);
            mutated(before, after, m, p, dry_run, r)
        },
        TagsCommand::Remove { keys, tags, dry_run } => {
            let (m, p) = tag_edit(keys, tags, "tags.remove"@, "remove"@);
            mutated(before, after, m, p, dry_run, r)
        },
    }
}

fn run_tag_edit<C: RpcCaller>(
    client: &mut C,
    keys: Vec<String>,
    tags: Vec<String>,
    single: &str,
    batch_field: &str,
    dry_run: bool,
) -> (r: Result<Json, String>)
    ensures
        ({
            let (m, p) = tag_edit(keys, tags, single@, batch_field@);
            mutated(old(client).exchanges(), final(client).exchanges(), m, p, dry_run, json_result(r))
        }),
{
    if keys.len() == 1 {
        run_mutation_command(
            client,
            single,
            Json::object2("key", Json::str(keys[0].as_str()), "tags", Json::str_array(&tags)),
            dry_run,
        )
    } else {
        run_mutation_command(
            client,
            "tags.batchUpdate",
            Json::object2("keys", Json::str_array(&keys), batch_field, Json::str_array(&tags)),
            dry_run,
        )
    }
}

/// Runs a `tags` command.
pub fn run_tags_command<C: RpcCaller>(command: TagsCommand, client: &mut C) -> (r: Result<
    Json,
    String,
>)
    ensures
        tags_ran(command, old(client).exchanges(), final(client).exchanges(), json_result(r)),
{
    match command {
        TagsCommand::List { limit } => ask_list(
            client,
            "tags.list",
            Some(Json::object1("limit", Json::uint(limit))),
            Some(limit),
            0,
        ),
        TagsCommand::Rename { old, new, dry_run } => run_mutation_command(
            client,
            "tags.rename",
            Json::object2("oldName", Json::str(old.as_str()), "newName", Json::str(new.as_str())),
            dry_run,
        ),
        TagsCommand::Delete { tag, dry_run } => run_mutation_command(
            client,
            "tags.delete",
            Json::object1("tag", Json::str(tag.as_str())),
            dry_run,
        ),
        TagsCommand::Add { keys, tags, dry_run } => run_tag_edit(
            client,
            keys,
            tags,
            "tags.add",
            "add",
            dry_run,
        ),
        TagsCommand::Remove { keys, tags, dry_run } => run_tag_edit(
            client,
            keys,
            tags,
            "tags.remove",
            "remove",
            dry_run,
        ),
    }
}

// ---------------------------------------------------------------------------
// Notes.
// ---------------------------------------------------------------------------

/// The `notes` commands.
pub enum NotesCommand {
    List { parent: String, limit: u64, offset: u64 },
    Get { note_key: String },
    Create { parent: String, content: String, tags: Vec<String>, dry_run: bool },
    Update { note_key: String, content: String, dry_run: bool },
    Delete { note_key: String, dry_run: bool },
    Search { query: String, limit: u64 },
}

/// The parameters of `notes.create`: the parent and content, and the tags
/// when there are any.
pub open spec fn note_params(parent: Seq<char>, content: Seq<char>, tags: Vec<String>) -> JsonV {
    let base = seq![("parentKey"@, JsonV::Str(parent)), ("content"@, JsonV::Str(content))];
    JsonV::Object(
        if tags@.len() == 0 {
            base
        } else {
            base.push(("tags"@, strs(tags)))
        },
    )
}

/// What a `notes` command does. Deleting a note goes through
/// `items.delete`.
pub open spec fn notes_ran(
    cmd: NotesCommand,
    before: Seq<Exchange>,
    after: Seq<Exchange>,
    r: Result<JsonV, Seq<char>>,
) -> bool {
    match cmd {
        NotesCommand::List { parent, limit, offset } => listed_call(
            before,
            after,
            "notes.list"@,
            Some(obj1("parentKey"@, JsonV::Str(parent@))),
            Some(limit),
            offset,
            r,
        ),
        NotesCommand::Get { note_key } => answered(
            before,
            after,
            "notes.get"@,
            Some(obj1("key"@, JsonV::Str(note_key@))),
            r,
        ),
        NotesCommand::Create { parent, content, tags, dry_run } => mutated(
            before,
            after,
            "notes.create"@,
            note_params(parent@, content@, tags),
            dry_run,
            r,
        ),
        NotesCommand::Update { note_key, content, dry_run } => mutated(
            before,
            after,
            "notes.update"@,
            obj2("key"@, JsonV::Str(note_key@), "content"@, JsonV::Str(content@)),
            dry_run,
            r,
        ),
        NotesCommand::Delete { note_key, dry_run } => mutated(
            before,
            after,
            "items.delete"@,
            obj1("key"@, JsonV::Str(note_key@)),
            dry_run,
            r,
        ),
        NotesCommand::Search { query, limit } => listed_call(
            before,
            after,
            "notes.search"@,
            Some(obj2("query"@, JsonV::Str(query@), "limit"@, uint_json(limit))),
            Some(limit),
            0,
            r,
        ),
    }
}

fn note_request(parent: &str, content: &str, tags: &Vec<String>) -> (r: Json)
    ensures
        r@ == note_params(parent@, content@, *tags),
{
    let mut m: Vec<(String, Json)> = Vec::new();
    m.push((to_string("parentKey"), Json::str(parent)));
    m.push((to_string("content"), Json::str(content)));
    let ghost base = m@.map_values(|x: (String, Json)| (x.0@, x.1@));
    assert(base =~= seq![("parentKey"@, JsonV::Str(parent@)), ("content"@, JsonV::Str(content@))]);
    if tags.len() > 0 {
        m.push((to_string("tags"), Json::str_array(tags)));
    }
    let r = Json::Object(m);
    assert((r@->Object_0) =~= if tags@.len() == 0 {
        base
    } else {
        base.push(("tags"@, strs(*tags)))
    });
    r
}

/// Runs a `notes` command.
pub fn run_notes_command<C: RpcCaller>(command: NotesCommand, client: &mut C) -> (r: Result<
    Json,
    String,
>)
    ensures
        notes_ran(command, old(client).exchanges(), final(client).exchanges(), json_result(r)),
{
    match command {
        NotesCommand::List { parent, limit, offset } => ask_list(
            client,
            "notes.list",
            Some(Json::object1("parentKey", Json::str(parent.as_str()))),
            Some(limit),
            offset,
        ),
        NotesCommand::Get { note_key } => ask(
            client,
            "notes.get",
            Some(Json::object1("key", Json::str(note_key.as_str()))),
        ),
        NotesCommand::Create { parent, content, tags, dry_run } => run_mutation_command(
            client,
            "notes.create",
            note_request(parent.as_str(), content.as_str(), &tags),
            dry_run,
        ),
        NotesCommand::Update { note_key, content, dry_run } => run_mutation_command(
            client,
            "notes.update",
            Json::object2("key", Json::str(note_key.as_str()), "content", Json::str(content.as_str())),
            dry_run,
        ),
        NotesCommand::Delete { note_key, dry_run } => run_mutation_command(
            client,
            "items.delete",
            Json::object1("key", Json::str(note_key.as_str())),
            dry_run,
        ),
        NotesCommand::Search { query, limit } => ask_list(
            client,
            "notes.search",
            Some(Json::object2("query", Json::str(query.as_str()), "limit", Json::uint(limit))),
            Some(limit),
            0,
        ),
    }
}

// ---------------------------------------------------------------------------
// System.
// ---------------------------------------------------------------------------

/// The `system` commands.
pub enum SystemCommand {
    Version,
    Libraries,
    LibraryStats { library: Option<i64> },
    Schema { item_type: Option<String> },
    CurrentCollection,
    Methods { method: Option<String> },
}

/// The elements of an array; nothing for any other value.
pub open spec fn array_or_empty(v: JsonV) -> Seq<JsonV> {
    match as_array(v) {
        Some(a) => a,
        None => seq![],
    }
}

/// The members `key` of the records that have one, in order.
pub open spec fn picked(items: Seq<JsonV>, key: Seq<char>) -> Seq<JsonV>
    decreases items.len(),
{
    if items.len() == 0 {
        seq![]
    } else {
        picked(items.drop_last(), key) + match get(items.last(), key) {
            Some(v) => seq![v],
            None => seq![],
        }
    }
}

/// The members `key` of the records in an array reply.
pub fn pick_members(v: &Json, key: &str) -> (r: Vec<Json>)
    ensures
        r@.map_values(|x: Json| x@) == picked(array_or_empty(v@), key@),
{
    let mut out: Vec<Json> = Vec::new();
    let items: &Vec<Json> = match v.as_array() {
        Some(a) => a,
        None => {
            assert(out@.map_values(|x: Json| x@) =~= Seq::<JsonV>::empty());
            return out;
        },
    };
    let ghost iv = items@.map_values(|x: Json| x@);
    assert(array_or_empty(v@) == iv);
    let mut i: usize = 0;
    assert(out@.map_values(|x: Json| x@) =~= picked(iv.take(0), key@));
    while i < items.len()
        invariant
            i <= items@.len(),
            iv == items@.map_values(|x: Json| x@),
            out@.map_values(|x: Json| x@) == picked(iv.take(i as int), key@),
        decreases items.len() - i,
    {
        assert(iv.take(i + 1).drop_last() =~= iv.take(i as int));
        assert(iv.take(i + 1).last() == items@[i as int]@);
        let ghost old_out = out@;
        match items[i].get(key) {
            Some(x) => {
                out.push(x.clone_json());
                assert(out@.map_values(|x: Json| x@) =~= old_out.map_values(|x: Json| x@) + seq![
                    x@,
                ]);
            },
            None => {
                assert(picked(iv.take(i + 1), key@) =~= picked(iv.take(i as int), key@));
            },
        }
        i += 1;
    }
    assert(iv.take(items@.len() as int) =~= iv);
    out
}

/// The first call's part of `after`.
pub open spec fn first_part(before: Seq<Exchange>, after: Seq<Exchange>) -> Seq<Exchange> {
    after.subrange(0, before.len() + 1int)
}

/// Two calls in turn, the second only when the first answered: `then` is
/// what follows a good first reply.
pub open spec fn schema_ran(
    t: Seq<char>,
    before: Seq<Exchange>,
    after: Seq<Exchange>,
    r: Result<JsonV, Seq<char>>,
) -> bool {
    let first = first_part(before, after);
    let p = Some(obj1("itemType"@, JsonV::Str(t)));
    &&& after.len() > before.len()
    &&& called(before, first, "system.itemFields"@, p)
    &&& match replied(first) {
        Err(e) => after == first && r == Err::<JsonV, Seq<char>>(e),
        Ok(fields) => called(first, after, "system.creatorTypes"@, p) && match replied(after) {
            Err(e) => r == Err::<JsonV, Seq<char>>(e),
            Ok(creators) => r == Ok::<JsonV, Seq<char>>(
                obj3(
                    "itemType"@,
                    JsonV::Str(t),
                    "fields"@,
                    JsonV::Array(picked(array_or_empty(fields), "field"@)),
                    "creatorTypes"@,
                    JsonV::Array(picked(array_or_empty(creators), "creatorType"@)),
                ),
            ),
        },
    }
}

/// What a `system` command does.
pub open spec fn system_ran(
    cmd: SystemCommand,
    before: Seq<Exchange>,
    after: Seq<Exchange>,
    r: Result<JsonV, Seq<char>>,
) -> bool {
    match cmd {
        SystemCommand::Version => answered(before, after, "system.version"@, None, r),
        SystemCommand::Libraries => answered(before, after, "system.libraries"@, None, r),
        SystemCommand::LibraryStats { library } => answered(
            before,
            after,
            "system.libraryStats"@,
            match library {
                Some(id) => Some(obj1("id"@, int_json(id))),
                None => None,
            },
            r,
        ),
        SystemCommand::Schema { item_type } => match item_type {
            Some(t) => schema_ran(t@, before, after, r),
            None => called(before, after, "system.itemTypes"@, None) && r == match replied(after) {
                Ok(types) => Ok(JsonV::Array(picked(array_or_empty(types), "itemType"@))),
                Err(e) => Err(e),
            },
        },
        SystemCommand::CurrentCollection => answered(
            before,
            after,
            "system.currentCollection"@,
            None,
            r,
        ),
        SystemCommand::Methods { method } => match method {
            Some(m) => answered(
                before,
                after,
                "system.describe"@,
                Some(obj1("method"@, JsonV::Str(m@))),
                r,
            ),
            None => answered(before, after, "system.listMethods"@, None, r),
        },
    }
}

pub proof fn lemma_first_part(before: Seq<Exchange>, mid: Seq<Exchange>, after: Seq<Exchange>)
    requires
        mid.len() == before.len() + 1,
        after == mid || (after.len() == mid.len() + 1 && after.drop_last() == mid),
    ensures
        first_part(before, after) == mid,
        after.len() > before.len(),
{
    if after == mid {
        assert(after.subrange(0, mid.len() as int) =~= mid);
    } else {
        assert(after.subrange(0, mid.len() as int) =~= after.drop_last());
    }
}

/// Runs a `system` command.
pub fn run_system_command<C: RpcCaller>(command: SystemCommand, client: &mut C) -> (r: Result<
    Json,
    String,
>)
    ensures
        system_ran(command, old(client).exchanges(), final(client).exchanges(), json_result(r)),
{
    let ghost before = client.exchanges();
    match command {
        SystemCommand::Version => ask(client, "system.version", None),
        SystemCommand::Libraries => ask(client, "system.libraries", None),
        SystemCommand::LibraryStats { library } => {
            let params = match library {
                Some(id) => Some(Json::object1("id", int_value(id))),
                None => None,
            };
            ask(client, "system.libraryStats", params)
        },
        SystemCommand::Schema { item_type } => match item_type {
            Some(t) => {
                let fields = ask(
                    client,
                    "system.itemFields",
                    Some(Json::object1("itemType", Json::str(t.as_str()))),
                );
                let ghost mid = client.exchanges();
                let r = match fields {
                    Err(e) => Err(e),
                    Ok(fields) => match ask(
                        client,
                        "system.creatorTypes",
                        Some(Json::object1("itemType", Json::str(t.as_str()))),
                    ) {
                        Err(e) => Err(e),
                        Ok(creators) => {
                            let field_names = pick_members(&fields, "field");
                            let creator_names = pick_members(&creators, "creatorType");
                            Ok(
                                Json::object3(
                                    "itemType",
                                    Json::str(t.as_str()),
                                    "fields",
                                    Json::arr(field_names),
                                    "creatorTypes",
                                    Json::arr(creator_names),
                                ),
                            )
                        },
                    },
                };
                proof {
                    lemma_first_part(before, mid, client.exchanges());
                }
                r
            },
            None => match ask(client, "system.itemTypes", None) {
                Err(e) => Err(e),
                Ok(types) => Ok(Json::arr(pick_members(&types, "itemType"))),
            },
        },
        SystemCommand::CurrentCollection => ask(client, "system.currentCollection", None),
        SystemCommand::Methods { method } => match method {
            Some(m) => ask(
                client,
                "system.describe",
                Some(Json::object1("method", Json::str(m.as_str()))),
            ),
            None => ask(client, "system.listMethods", None),
        },
    }
}

// ---------------------------------------------------------------------------
// Saved searches.
// ---------------------------------------------------------------------------

/// The saved-search commands.
pub enum SearchManagementCommand {
    SavedSearches,
    CreateSaved { name: String, condition: Vec<String>, dry_run: bool },
    DeleteSaved { search_key: String, dry_run: bool },
}

/// The search conditions parsed in order; the first that fails stops it.
pub open spec fn conditions_of(raws: Seq<String>) -> Result<Seq<JsonV>, Seq<char>>
    decreases raws.len(),
{
    if raws.len() == 0 {
        Ok(seq![])
    } else {
        match conditions_of(raws.drop_last()) {
            Err(e) => Err(e),
            Ok(cs) => match condition_of(raws.last()@) {
                Err(e) => Err(e),
                Ok(c) => Ok(cs.push(c)),
            },
        }
    }
}

fn parse_conditions(raws: &Vec<String>) -> (r: Result<Vec<Json>, String>)
    ensures
        match (r, conditions_of(raws@)) {
            (Ok(v), Ok(w)) => v@.map_values(|x: Json| x@) == w,
            (Err(e), Err(f)) => e@ == f,
            _ => false,
        },
{
    let mut out: Vec<Json> = Vec::new();
    let mut i: usize = 0;
    assert(raws@.take(0) =~= Seq::<String>::empty());
    assert(out@.map_values(|x: Json| x@) =~= Seq::<JsonV>::empty());
    while i < raws.len()
        invariant
            i <= raws@.len(),
            conditions_of(raws@.take(i as int)) == Ok::<Seq<JsonV>, Seq<char>>(
                out@.map_values(|x: Json| x@),
            ),
        decreases raws.len() - i,
    {
        assert(raws@.take(i + 1).drop_last() =~= raws@.take(i as int));
        let c = parse_search_condition(raws[i].as_str());
        match c {
            Ok(v) => {
                let ghost old_out = out@;
                out.push(v);
                assert(out@.map_values(|x: Json| x@) =~= old_out.map_values(|x: Json| x@).push(
                    v@,
                ));
            },
            Err(e) => {
                proof {
                    lemma_conditions_stop(raws@, i + 1);
                }
                return Err(e);
            },
        }
        i += 1;
    }
    assert(raws@.take(raws@.len() as int) =~= raws@);
    Ok(out)
}

/// Once a condition fails, the whole list fails with its error.
proof fn lemma_conditions_stop(raws: Seq<String>, n: int)
    requires
        0 < n <= raws.len(),
        conditions_of(raws.take(n)) is Err,
    ensures
        conditions_of(raws) == conditions_of(raws.take(n)),
    decreases raws.len() - n,
{
    if n < raws.len() {
        assert(raws.take(n + 1).drop_last() =~= raws.take(n));
        lemma_conditions_stop(raws, n + 1);
    } else {
        assert(raws.take(n) =~= raws);
    }
}

/// What a saved-search command does.
pub open spec fn search_management_ran(
    cmd: SearchManagementCommand,
    before: Seq<Exchange>,
    after: Seq<Exchange>,
    r: Result<JsonV, Seq<char>>,
) -> bool {
    match cmd {
        SearchManagementCommand::SavedSearches => listed_call(
            before,
            after,
            "search.savedSearches"@,
            None,
            None,
            0,
            r,
        ),
        SearchManagementCommand::CreateSaved { name, condition, dry_run } => match conditions_of(
            condition@,
        ) {
            Err(e) => after == before && r == Err::<JsonV, Seq<char>>(e),
            Ok(cs) => mutated(
                before,
                after,
                "search.createSavedSearch"@,
                obj2("name"@, JsonV::Str(name@), "conditions"@, JsonV::Array(cs)),
                dry_run,
                r,
            ),
        },
        SearchManagementCommand::DeleteSaved { search_key, dry_run } => mutated(
            before,
            after,
            "search.deleteSavedSearch"@,
            obj1("key"@, JsonV::Str(search_key@)),
            dry_run,
            r,
        ),
    }
}

/// Runs a saved-search command.
pub fn run_search_management_command<C: RpcCaller>(
    command: SearchManagementCommand,
    client: &mut C,
) -> (r: Result<Json, String>)
    ensures
        search_management_ran(
            command,
            old(client).exchanges(),
            final(client).exchanges(),
            json_result(r),
        ),
{
    match command {
        SearchManagementCommand::SavedSearches => ask_list(
            client,
            "search.savedSearches",
            None,
            None,
            0,
        ),
        SearchManagementCommand::CreateSaved { name, condition, dry_run } => {
            let conditions = match parse_conditions(&condition) {
                Ok(c) => c,
                Err(e) => return Err(e),
            };
            run_mutation_command(
                client,
                "search.createSavedSearch",
                Json::object2("name", Json::str(name.as_str()), "conditions", Json::arr(conditions)),
                dry_run,
            )
        },
        SearchManagementCommand::DeleteSaved { search_key, dry_run } => run_mutation_command(
            client,
            "search.deleteSavedSearch",
            Json::object1("key", Json::str(search_key.as_str())),
            dry_run,
        ),
    }
}

// ---------------------------------------------------------------------------
// Settings.
// ---------------------------------------------------------------------------

/// The `settings` commands. `file_text` is the content of the `--file`
/// argument, which the caller reads.
pub enum SettingsCommand {
    Get { key: String },
    List,
    SetValues { pairs: Vec<String>, file_text: Option<String>, dry_run: bool },
}

/// A value given on the command line: its JSON reading, or the text itself
/// when it is no JSON.
pub open spec fn setting_value(text: Seq<char>) -> JsonV {
    match json_parse(text) {
        Ok(v) => v,
        Err(_) => JsonV::Str(text),
    }
}

/// The members set by the first `n` key/value pairs, a later key replacing an
/// earlier one's value.
pub open spec fn pair_members(pairs: Seq<String>, n: nat) -> Seq<(Seq<char>, JsonV)>
    decreases n,
{
    if n == 0 {
        seq![]
    } else {
        with_member(
            pair_members(pairs, (n - 1) as nat),
            pairs[2 * (n - 1)]@,
            setting_value(pairs[2 * (n - 1) + 1]@),
        )
    }
}

/// What a `settings` command does.
pub open spec fn settings_ran(
    cmd: SettingsCommand,
    before: Seq<Exchange>,
    after: Seq<Exchange>,
    r: Result<JsonV, Seq<char>>,
) -> bool {
    match cmd {
        SettingsCommand::Get { key } => answered(
            before,
            after,
            "settings.get"@,
            Some(obj1("key"@, JsonV::Str(key@))),
            r,
        ),
        SettingsCommand::List => answered(before, after, "settings.getAll"@, None, r),
        SettingsCommand::SetValues { pairs, file_text, dry_run } => match file_text {
            Some(t) => match json_parse(t@) {
                Err(e) => after == before && r == Err::<JsonV, Seq<char>>(
                    "INVALID_JSON: Could not parse JSON: "@ + e,
                ),
                Ok(v) => mutated(before, after, "settings.setAll"@, v, dry_run, r),
            },
            None => if pairs@.len() == 2 {
                mutated(
                    before,
                    after,
                    "settings.set"@,
                    obj2("key"@, JsonV::Str(pairs@[0]@), "value"@, setting_value(pairs@[1]@)),
                    dry_run,
                    r,
                )
            } else if pairs@.len() > 2 && pairs@.len() % 2 == 0 {
                mutated(
                    before,
                    after,
                    "settings.setAll"@,
                    JsonV::Object(pair_members(pairs@, pairs@.len() / 2)),
                    dry_run,
                    r,
                )
            } else {
                after == before && r == Err::<JsonV, Seq<char>>(
                    "INVALID_ARGS: provide key value pairs (even number of args) or --file"@,
                )
            },
        },
    }
}

/// A command-line value read as JSON, or kept as text.
fn parse_setting_value(text: &str) -> (r: Json)
    ensures
        r@ == setting_value(text@),
{
    match parse_json(text) {
        Ok(v) => v,
        Err(_) => Json::str(text),
    }
}

fn pairs_object(pairs: &Vec<String>) -> (r: Json)
    requires
        pairs@.len() % 2 == 0,
    ensures
        r@ == JsonV::Object(pair_members(pairs@, pairs@.len() / 2)),
{
    let mut m: Vec<(String, Json)> = Vec::new();
    let mut i: usize = 0;
    assert(m@.map_values(|x: (String, Json)| (x.0@, x.1@)) =~= pair_members(pairs@, 0));
    while i < pairs.len() / 2
        invariant
            pairs@.len() % 2 == 0,
            i <= pairs@.len() / 2,
            m@.map_values(|x: (String, Json)| (x.0@, x.1@)) == pair_members(pairs@, i as nat),
        decreases pairs.len() / 2 - i,
    {
        let value = parse_setting_value(pairs[2 * i + 1].as_str());
        set_member(&mut m, pairs[2 * i].as_str(), value);
        i += 1;
    }
    let r = Json::Object(m);
    assert((r@->Object_0) =~= m@.map_values(|x: (String, Json)| (x.0@, x.1@)));
    r
}

/// Runs a `settings` command.
pub fn run_settings_command<C: RpcCaller>(command: SettingsCommand, client: &mut C) -> (r: Result<
    Json,
    String,
>)
    ensures
        settings_ran(command, old(client).exchanges(), final(client).exchanges(), json_result(r)),
{
    match command {
        SettingsCommand::Get { key } => ask(
            client,
            "settings.get",
            Some(Json::object1("key", Json::str(key.as_str()))),
        ),
        SettingsCommand::List => ask(client, "settings.getAll", None),
        SettingsCommand::SetValues { pairs, file_text, dry_run } => match file_text {
            Some(t) => {
                let settings = match parse_json(t.as_str()) {
                    Ok(v) => v,
                    Err(e) => return Err(message("INVALID_JSON: Could not parse JSON: ", e.as_str())),
                };
                run_mutation_command(client, "settings.setAll", settings, dry_run)
            },
            None => if pairs.len() == 2 {
                let value = parse_setting_value(pairs[1].as_str());
                run_mutation_command(
                    client,
                    "settings.set",
                    Json::object2("key", Json::str(pairs[0].as_str()), "value", value),
                    dry_run,
                )
            } else if pairs.len() > 2 && pairs.len() % 2 == 0 {
                run_mutation_command(client, "settings.setAll", pairs_object(&pairs), dry_run)
            } else {
                Err(
                    to_string(
                        "INVALID_ARGS: provide key value pairs (even number of args) or --file",
                    ),
                )
            },
        },
    }
}

// ---------------------------------------------------------------------------
// Annotations.
// ---------------------------------------------------------------------------

/// The `annotations` commands. `sort_index` is the `--sort-index` value as
/// the caller read it: the JSON value, or the refusal of a value that is no
/// finite number or numeric string. `input` is the batch JSON the caller
/// read from the file or standard input.
pub enum AnnotationsCommand {
    List { parent: String, attachment: Option<String>, context: Option<u32> },
    Create {
        parent: String,
        attachment: Option<String>,
        annotation_type: Option<String>,
        position: Option<String>,
        quote: Option<String>,
        page: Option<u32>,
        sort_index: Option<Result<Json, String>>,
        text: Option<String>,
        comment: Option<String>,
        color: String,
        dry_run: bool,
    },
    CreateBatch { parent: String, attachment: Option<String>, input: String, dry_run: bool },
    Locate { parent: String, attachment: Option<String>, quote: String, page: Option<u32> },
    Delete { annotation_key: String, dry_run: bool },
}

/// A member for an optional string.
pub open spec fn opt_str_member(key: Seq<char>, v: Option<String>) -> Seq<(Seq<char>, JsonV)> {
    match v {
        Some(s) => seq![(key, JsonV::Str(s@))],
        None => seq![],
    }
}

/// A member for an optional count.
pub open spec fn opt_num_member(key: Seq<char>, v: Option<u32>) -> Seq<(Seq<char>, JsonV)> {
    match v {
        Some(n) => seq![(key, uint_json(n as u64))],
        None => seq![],
    }
}

/// The number of records in a reply's `items` (0 when there is none).
pub open spec fn items_count(v: JsonV) -> u64 {
    match as_array(at(v, "items"@)) {
        Some(a) => a.len() as u64,
        None => 0,
    }
}

/// The annotation type of `--type`, `highlight` by default.
pub open spec fn annotation_type_of(t: Option<String>) -> Seq<char> {
    match t {
        Some(s) => s@,
        None => "highlight"@,
    }
}

pub open spec fn known_annotation_type(t: Seq<char>) -> bool {
    t == "highlight"@ || t == "note"@ || t == "underline"@ || t == "image"@ || t == "ink"@
}

/// A `--position` value: read as JSON and checked for the annotation type.
pub open spec fn position_of(raw: Seq<char>, t: Seq<char>) -> Result<JsonV, Seq<char>> {
    match json_parse(raw) {
        Err(e) => Err("INVALID_JSON: Could not parse --position: "@ + e),
        Ok(p) => match position_check(t, p) {
            Err(e) => Err(e),
            Ok(()) => Ok(p),
        },
    }
}

/// The members of `annotations.create` up to the position, or the refusal.
pub open spec fn create_core(
    parent: Seq<char>,
    attachment: Option<String>,
    t: Seq<char>,
    position: Option<String>,
    quote: Option<String>,
    page: Option<u32>,
    color: Seq<char>,
) -> Result<Seq<(Seq<char>, JsonV)>, Seq<char>> {
    let m0 = seq![("parentKey"@, JsonV::Str(parent))] + opt_str_member("attachmentKey"@, attachment)
        + seq![("type"@, JsonV::Str(t)), ("color"@, JsonV::Str(color))];
    match quote {
        Some(q) => if !(t == "highlight"@ || t == "underline"@) {
            Err("INVALID_ARGS: --quote is only valid for highlight|underline, got "@ + debug_text(t))
        } else {
            let mq = m0.push(("quote"@, JsonV::Str(q@))) + opt_num_member("pageIndex"@, page);
            match position {
                None => Ok(mq),
                Some(raw) => match position_of(raw@, t) {
                    Err(e) => Err(e),
                    Ok(p) => Ok(mq.push(("position"@, p))),
                },
            }
        },
        None => match position {
            None => Err("INVALID_ARGS: --position JSON is required (or use --quote)"@),
            Some(raw) => match position_of(raw@, t) {
                Err(e) => Err(e),
                Ok(p) => Ok(m0.push(("position"@, p))),
            },
        },
    }
}

/// The parameters of `annotations.create`, or the refusal that stops the
/// command before any call.
pub open spec fn create_params(
    parent: Seq<char>,
    attachment: Option<String>,
    annotation_type: Option<String>,
    position: Option<String>,
    quote: Option<String>,
    page: Option<u32>,
    sort_index: Option<Result<Json, String>>,
    text: Option<String>,
    comment: Option<String>,
    color: Seq<char>,
) -> Result<JsonV, Seq<char>> {
    let t = annotation_type_of(annotation_type);
    if !known_annotation_type(t) {
        Err("INVALID_ARGS: --type must be highlight|note|underline|image|ink, got "@ + debug_text(t))
    } else {
        match create_core(parent, attachment, t, position, quote, page, color) {
            Err(e) => Err(e),
            Ok(m) => match sort_index {
                Some(Err(e)) => Err(e@),
                _ => {
                    let ms = match sort_index {
                        Some(Ok(si)) => m.push(("sortIndex"@, si@)),
                        _ => m,
                    };
                    Ok(
                        JsonV::Object(
                            ms + opt_str_member("text"@, text) + opt_str_member("comment"@, comment),
                        ),
                    )
                },
            },
        }
    }
}

/// The parameters of `annotations.createBatch`, or the refusal of the input.
pub open spec fn batch_params(parent: Seq<char>, attachment: Option<String>, input: Seq<char>) -> Result<
    JsonV,
    Seq<char>,
> {
    match json_parse(input) {
        Err(e) => Err("INVALID_JSON: "@ + e),
        Ok(a) => if a is Array {
            Ok(
                JsonV::Object(
                    seq![("parentKey"@, JsonV::Str(parent)), ("annotations"@, a)] + opt_str_member(
                        "attachmentKey"@,
                        attachment,
                    ),
                ),
            )
        } else {
            Err("INVALID_ARGS: input must be a JSON array"@)
        },
    }
}

/// What an `annotations` command does.
pub open spec fn annotations_ran(
    cmd: AnnotationsCommand,
    before: Seq<Exchange>,
    after: Seq<Exchange>,
    r: Result<JsonV, Seq<char>>,
) -> bool {
    match cmd {
        AnnotationsCommand::List { parent, attachment, context } => {
            &&& called(
                before,
                after,
                "annotations.list"@,
                Some(
                    JsonV::Object(
                        seq![("parentKey"@, JsonV::Str(parent@))] + opt_str_member(
                            "attachmentKey"@,
                            attachment,
                        ) + opt_num_member("context"@, context),
                    ),
                ),
            )
            &&& r == match replied(after) {
                Ok(v) => Ok(list_envelope(v, "items"@, Some(items_count(v)), 0)),
                Err(e) => Err(e),
            }
        },
        AnnotationsCommand::Create {
            parent,
            attachment,
            annotation_type,
            position,
            quote,
            page,
            sort_index,
            text,
            comment,
            color,
            dry_run,
        } => match create_params(
            parent@,
            attachment,
            annotation_type,
            position,
            quote,
            page,
            sort_index,
            text,
            comment,
            color@,
        ) {
            Err(e) => after == before && r == Err::<JsonV, Seq<char>>(e),
            Ok(p) => mutated(before, after, "annotations.create"@, p, dry_run, r),
        },
        AnnotationsCommand::CreateBatch { parent, attachment, input, dry_run } => match batch_params(
            parent@,
            attachment,
            input@,
        ) {
            Err(e) => after == before && r == Err::<JsonV, Seq<char>>(e),
            Ok(p) => mutated(before, after, "annotations.createBatch"@, p, dry_run, r),
        },
        AnnotationsCommand::Locate { parent, attachment, quote, page } => answered(
            before,
            after,
            "annotations.locate"@,
            Some(
                JsonV::Object(
                    seq![("parentKey"@, JsonV::Str(parent@)), ("quote"@, JsonV::Str(quote@))]
                        + opt_str_member("attachmentKey"@, attachment) + opt_num_member(
                        "pageIndex"@,
                        page,
                    ),
                ),
            ),
            r,
        ),
        AnnotationsCommand::Delete { annotation_key, dry_run } => mutated(
            before,
            after,
            "annotations.delete"@,
            obj1("key"@, JsonV::Str(annotation_key@)),
            dry_run,
            r,
        ),
    }
}

fn push_opt_num(members: &mut Vec<(String, Json)>, key: &str, v: Option<u32>)
    ensures
        members_view(final(members)@) == members_view(old(members)@) + opt_num_member(key@, v),
{
    let ghost before = members_view(members@);
    match v {
        Some(n) => {
            push_member(members, key, Json::uint(n as u64));
            assert(members_view(members@) =~= before + opt_num_member(key@, v));
        },
        None => {
            assert(members_view(members@) =~= before + opt_num_member(key@, v));
        },
    }
}

/// Reads and checks a `--position` value.
fn read_position(raw: &str, t: &str) -> (r: Result<Json, String>)
    ensures
        json_result(r) == position_of(raw@, t@),
{
    let pos = match parse_json(raw) {
        Ok(p) => p,
        Err(e) => return Err(message("INVALID_JSON: Could not parse --position: ", e.as_str())),
    };
    match validate_annotation_position(t, &pos) {
        Ok(()) => Ok(pos),
        Err(e) => Err(e),
    }
}

fn create_core_members(
    parent: &str,
    attachment: &Option<String>,
    t: &str,
    position: &Option<String>,
    quote: &Option<String>,
    page: Option<u32>,
    color: &str,
) -> (r: Result<Vec<(String, Json)>, String>)
    ensures
        match (r, create_core(parent@, *attachment, t@, *position, *quote, page, color@)) {
            (Ok(m), Ok(w)) => members_view(m@) == w,
            (Err(e), Err(f)) => e@ == f,
            _ => false,
        },
{
    let mut m: Vec<(String, Json)> = Vec::new();
    push_member(&mut m, "parentKey", Json::str(parent));
    push_opt_str(&mut m, "attachmentKey", attachment);
    push_member(&mut m, "type", Json::str(t));
    push_member(&mut m, "color", Json::str(color));
    let ghost m0 = members_view(m@);
    assert(m0 =~= seq![("parentKey"@, JsonV::Str(parent@))] + opt_str_member(
        "attachmentKey"@,
        *attachment,
    ) + seq![("type"@, JsonV::Str(t@)), ("color"@, JsonV::Str(color@))]);
    match quote {
        Some(q) => {
            if !(str_eq(t, "highlight") || str_eq(t, "underline")) {
                let d = debug_quote(t);
                return Err(message("INVALID_ARGS: --quote is only valid for highlight|underline, got ", d.as_str()));
            }
            push_member(&mut m, "quote", Json::str(q.as_str()));
            push_opt_num(&mut m, "pageIndex", page);
            match position {
                None => Ok(m),
                Some(raw) => {
                    let p = match read_position(raw.as_str(), t) {
                        Ok(p) => p,
                        Err(e) => return Err(e),
                    };
                    push_member(&mut m, "position", p);
                    Ok(m)
                },
            }
        },
        None => match position {
            None => Err(to_string("INVALID_ARGS: --position JSON is required (or use --quote)")),
            Some(raw) => {
                let p = match read_position(raw.as_str(), t) {
                    Ok(p) => p,
                    Err(e) => return Err(e),
                };
                push_member(&mut m, "position", p);
                Ok(m)
            },
        },
    }
}

fn create_request(
    parent: &str,
    attachment: &Option<String>,
    annotation_type: &Option<String>,
    position: &Option<String>,
    quote: &Option<String>,
    page: Option<u32>,
    sort_index: Option<Result<Json, String>>,
    text: &Option<String>,
    comment: &Option<String>,
    color: &str,
) -> (r: Result<Json, String>)
    ensures
        json_result(r) == create_params(
            parent@,
            *attachment,
            *annotation_type,
            *position,
            *quote,
            page,
            sort_index,
            *text,
            *comment,
            color@,
        ),
{
    let t = match annotation_type {
        Some(s) => to_string(s.as_str()),
        None => to_string("highlight"),
    };
    let ts = t.as_str();
    if !(str_eq(ts, "highlight") || str_eq(ts, "note") || str_eq(ts, "underline") || str_eq(ts, "image")
        || str_eq(ts, "ink")) {
        let d = debug_quote(ts);
        return Err(message("INVALID_ARGS: --type must be highlight|note|underline|image|ink, got ", d.as_str()));
    }
    let mut m = match create_core_members(parent, attachment, ts, position, quote, page, color) {
        Ok(m) => m,
        Err(e) => return Err(e),
    };
    match sort_index {
        Some(Err(e)) => return Err(e),
        Some(Ok(si)) => push_member(&mut m, "sortIndex", si),
        None => {},
    }
    push_opt_str(&mut m, "text", text);
    push_opt_str(&mut m, "comment", comment);
    Ok(object_of(m))
}

fn batch_request(parent: &str, attachment: &Option<String>, input: &str) -> (r: Result<Json, String>)
    ensures
        json_result(r) == batch_params(parent@, *attachment, input@),
{
    let annotations = match parse_json(input) {
        Ok(a) => a,
        Err(e) => return Err(message("INVALID_JSON: ", e.as_str())),
    };
    match annotations {
        Json::Array(_) => {},
        _ => return Err(to_string("INVALID_ARGS: input must be a JSON array")),
    }
    let ghost av = annotations@;
    let mut m: Vec<(String, Json)> = Vec::new();
    push_member(&mut m, "parentKey", Json::str(parent));
    push_member(&mut m, "annotations", annotations);
    push_opt_str(&mut m, "attachmentKey", attachment);
    assert(members_view(m@) =~= seq![("parentKey"@, JsonV::Str(parent@)), ("annotations"@, av)]
        + opt_str_member("attachmentKey"@, *attachment));
    Ok(object_of(m))
}

/// Runs an `annotations` command.
pub fn run_annotations_command<C: RpcCaller>(command: AnnotationsCommand, client: &mut C) -> (r:
    Result<Json, String>)
    ensures
        annotations_ran(command, old(client).exchanges(), final(client).exchanges(), json_result(r)),
{
    match command {
        AnnotationsCommand::List { parent, attachment, context } => {
            let mut m: Vec<(String, Json)> = Vec::new();
            push_member(&mut m, "parentKey", Json::str(parent.as_str()));
            push_opt_str(&mut m, "attachmentKey", &attachment);
            push_opt_num(&mut m, "context", context);
            assert(members_view(m@) =~= seq![("parentKey"@, JsonV::Str(parent@))] + opt_str_member(
                "attachmentKey"@,
                attachment,
            ) + opt_num_member("context"@, context));
            let value = match ask(client, "annotations.list", Some(object_of(m))) {
                Ok(v) => v,
                Err(e) => return Err(e),
            };
            let total: u64 = match value.at("items").as_array() {
                Some(a) => a.len() as u64,
                None => 0,
            };
            Ok(normalize_list_envelope(value, "items", Some(total), 0))
        },
        AnnotationsCommand::Create {
            parent,
            attachment,
            annotation_type,
            position,
            quote,
            page,
            sort_index,
            text,
            comment,
            color,
            dry_run,
        } => {
            let params = match create_request(
                parent.as_str(),
                &attachment,
                &annotation_type,
                &position,
                &quote,
                page,
                sort_index,
                &text,
                &comment,
                color.as_str(),
            ) {
                Ok(p) => p,
                Err(e) => return Err(e),
            };
            run_mutation_command(client, "annotations.create", params, dry_run)
        },
        AnnotationsCommand::CreateBatch { parent, attachment, input, dry_run } => {
            let params = match batch_request(parent.as_str(), &attachment, input.as_str()) {
                Ok(p) => p,
                Err(e) => return Err(e),
            };
            run_mutation_command(client, "annotations.createBatch", params, dry_run)
        },
        AnnotationsCommand::Locate { parent, attachment, quote, page } => {
            let mut m: Vec<(String, Json)> = Vec::new();
            push_member(&mut m, "parentKey", Json::str(parent.as_str()));
            push_member(&mut m, "quote", Json::str(quote.as_str()));
            push_opt_str(&mut m, "attachmentKey", &attachment);
            push_opt_num(&mut m, "pageIndex", page);
            assert(members_view(m@) =~= seq![
                ("parentKey"@, JsonV::Str(parent@)),
                ("quote"@, JsonV::Str(quote@)),
            ] + opt_str_member("attachmentKey"@, attachment) + opt_num_member("pageIndex"@, page));
            ask(client, "annotations.locate", Some(object_of(m)))
        },
        AnnotationsCommand::Delete { annotation_key, dry_run } => run_mutation_command(
            client,
            "annotations.delete",
            Json::object1("key", Json::str(annotation_key.as_str())),
            dry_run,
        ),
    }
}

// ---------------------------------------------------------------------------
// Items.
// ---------------------------------------------------------------------------

/// The `items` commands. `file` in `Add` is the file's path as Zotero sees
/// it (the caller translates a local path). The full text of an item, which
/// reads OCR files next to the attachment, is not among them.
pub enum ItemsCommand {
    Add {
        doi: Option<String>,
        isbn: Option<String>,
        from_url: Option<String>,
        file: Option<String>,
        item_type: Option<String>,
        fields: Vec<String>,
        collection: Option<String>,
        dry_run: bool,
    },
    Update { key: String, fields: Vec<String>, dry_run: bool },
    Delete { key: String, dry_run: bool },
    Trash { items: Vec<String>, dry_run: bool },
    Restore { item: String, dry_run: bool },
    MergeDuplicates { keys: Vec<String>, dry_run: bool },
    AddRelated { key: String, target: String, dry_run: bool },
    RemoveRelated { key: String, target: String, dry_run: bool },
    Get { item: String },
    List { limit: u64, offset: u64, sort: Option<String>, direction: String, trash: bool },
    FindDuplicates,
    Recent { limit: u64, offset: u64, recent_type: String },
    Related { key: String },
    CitationKey { key: String },
    Path { key: String },
    Attachments { key: String, offset: u64 },
    FindPdfs { collection: String, limit: usize },
}

/// The `--field key=value` options as members: each split at its first
/// `=`, a later key replacing an earlier one's value; the first option
/// without `=` is refused.
pub open spec fn field_members(fields: Seq<String>) -> Result<Seq<(Seq<char>, JsonV)>, Seq<char>>
    decreases fields.len(),
{
    if fields.len() == 0 {
        Ok(seq![])
    } else {
        match field_members(fields.drop_last()) {
            Err(e) => Err(e),
            Ok(m) => {
                let f = fields.last()@;
                match find(f, seq!['=']) {
                    None => Err("INVALID_ARGS: --field must be key=value, got: "@ + debug_text(f)),
                    Some(i) => Ok(with_member(m, f.take(i), JsonV::Str(f.skip(i + 1)))),
                }
            },
        }
    }
}

/// Once an option is refused, the whole list is.
proof fn lemma_fields_stop(fields: Seq<String>, n: int)
    requires
        0 < n <= fields.len(),
        field_members(fields.take(n)) is Err,
    ensures
        field_members(fields) == field_members(fields.take(n)),
    decreases fields.len() - n,
{
    if n < fields.len() {
        assert(fields.take(n + 1).drop_last() =~= fields.take(n));
        lemma_fields_stop(fields, n + 1);
    } else {
        assert(fields.take(n) =~= fields);
    }
}

/// Parses `--field key=value` options (see `field_members`).
pub fn parse_field_options(fields: &Vec<String>) -> (r: Result<Vec<(String, Json)>, String>)
    ensures
        match (r, field_members(fields@)) {
            (Ok(m), Ok(w)) => members_view(m@) == w,
            (Err(e), Err(f)) => e@ == f,
            _ => false,
        },
{
    let mut out: Vec<(String, Json)> = Vec::new();
    let mut eq: Vec<char> = Vec::new();
    eq.push('=');
    assert(eq@ =~= seq!['=']);
    let mut i: usize = 0;
    assert(fields@.take(0) =~= Seq::<String>::empty());
    assert(members_view(out@) =~= Seq::<(Seq<char>, JsonV)>::empty());
    while i < fields.len()
        invariant
            i <= fields@.len(),
            eq@ == seq!['='],
            field_members(fields@.take(i as int)) == Ok::<Seq<(Seq<char>, JsonV)>, Seq<char>>(
                members_view(out@),
            ),
        decreases fields.len() - i,
    {
        assert(fields@.take(i + 1).drop_last() =~= fields@.take(i as int));
        assert(fields@.take(i + 1).last() == fields@[i as int]);
        let f = chars_of(fields[i].as_str());
        match find_exec(&f, &eq) {
            None => {
                let d = debug_quote(fields[i].as_str());
                proof {
                    lemma_fields_stop(fields@, i + 1);
                }
                return Err(message("INVALID_ARGS: --field must be key=value, got: ", d.as_str()));
            },
            Some(k) => {
                let key = string_of_range(&f, 0, k);
                let value = string_of_range(&f, k + 1, f.len());
                assert(f@.subrange(0, k as int) =~= f@.take(k as int));
                assert(f@.subrange(k + 1, f@.len() as int) =~= f@.skip(k + 1));
                set_member(&mut out, key.as_str(), Json::str(value.as_str()));
                assert(members_view(out@) == out@.map_values(|x: (String, Json)| (x.0@, x.1@)));
            },
        }
        i += 1;
    }
    assert(fields@.take(fields@.len() as int) =~= fields@);
    Ok(out)
}

/// Whether a resolved collection key goes into a mutation's parameters: not
/// null, and not the library root (a number equal to 0).
pub open spec fn names_collection(k: JsonV) -> bool {
    match k {
        JsonV::Null => false,
        JsonV::Number(_) => as_i64(k) != Some(0i64),
        _ => true,
    }
}

/// The members with the resolved collection added, when it names one.
pub open spec fn with_collection(m: Seq<(Seq<char>, JsonV)>, k: JsonV) -> Seq<(Seq<char>, JsonV)> {
    if names_collection(k) {
        with_member(m, "collection"@, k)
    } else {
        m
    }
}

/// A mutation whose parameters take the collection named by `collection`,
/// when given: it is resolved first.
pub open spec fn filed_mutation(
    before: Seq<Exchange>,
    after: Seq<Exchange>,
    method: Seq<char>,
    base: Seq<(Seq<char>, JsonV)>,
    collection: Option<String>,
    dry_run: bool,
    r: Result<JsonV, Seq<char>>,
) -> bool {
    match collection {
        None => mutated(before, after, method, JsonV::Object(base), dry_run, r),
        Some(c) => {
            let mid = resolved_part(before, after, c@);
            &&& resolves_first(before, after, c@)
            &&& match resolution(c@, mid) {
                Err(e) => after == mid && r == Err::<JsonV, Seq<char>>(e),
                Ok(k) => mutated(
                    mid,
                    after,
                    method,
                    JsonV::Object(with_collection(base, k)),
                    dry_run,
                    r,
                ),
            }
        },
    }
}

/// A mutation whose parameters are `base`, with the `--field` options as
/// `fields` when there are any; options that do not parse stop it.
pub open spec fn fields_mutation(
    before: Seq<Exchange>,
    after: Seq<Exchange>,
    method: Seq<char>,
    base: Seq<(Seq<char>, JsonV)>,
    fields: Seq<String>,
    dry_run: bool,
    r: Result<JsonV, Seq<char>>,
) -> bool {
    match field_members(fields) {
        Err(e) => after == before && r == Err::<JsonV, Seq<char>>(e),
        Ok(fm) => mutated(
            before,
            after,
            method,
            JsonV::Object(
                if fm.len() == 0 {
                    base
                } else {
                    base.push(("fields"@, JsonV::Object(fm)))
                },
            ),
            dry_run,
            r,
        ),
    }
}

/// The parameters of `items.list`.
pub open spec fn list_params(limit: u64, offset: u64, sort: Option<String>, direction: Seq<char>) -> JsonV {
    JsonV::Object(
        seq![
            ("limit"@, uint_json(limit)),
            ("offset"@, uint_json(offset)),
            ("direction"@, JsonV::Str(direction)),
        ] + opt_str_member("sort"@, sort),
    )
}

/// What an `items` command does.
pub open spec fn items_ran(
    cmd: ItemsCommand,
    before: Seq<Exchange>,
    after: Seq<Exchange>,
    r: Result<JsonV, Seq<char>>,
) -> bool {
    match cmd {
        ItemsCommand::Add { doi, isbn, from_url, file, item_type, fields, collection, dry_run } => {
            match doi {
                Some(d) => filed_mutation(
                    before,
                    after,
                    "items.addByDOI"@,
                    seq![("doi"@, JsonV::Str(d@))],
                    collection,
                    dry_run,
                    r,
                ),
                None => match isbn {
                    Some(i) => filed_mutation(
                        before,
                        after,
                        "items.addByISBN"@,
                        seq![("isbn"@, JsonV::Str(i@))],
                        collection,
                        dry_run,
                        r,
                    ),
                    None => match from_url {
                        Some(u) => filed_mutation(
                            before,
                            after,
                            "items.addByURL"@,
                            seq![("url"@, JsonV::Str(u@))],
                            collection,
                            dry_run,
                            r,
                        ),
                        None => match file {
                            Some(f) => filed_mutation(
                                before,
                                after,
                                "items.addFromFile"@,
                                seq![("path"@, JsonV::Str(f@))],
                                collection,
                                dry_run,
                                r,
                            ),
                            None => match item_type {
                                Some(t) => fields_mutation(
                                    before,
                                    after,
                                    "items.create"@,
                                    seq![("itemType"@, JsonV::Str(t@))],
                                    fields@,
                                    dry_run,
                                    r,
                                ),
                                None => after == before && r == Err::<JsonV, Seq<char>>(
                                    "INVALID_ARGS: provide one of --doi, --isbn, --from-url, --file, or --type"@,
                                ),
                            },
                        },
                    },
                },
            }
        },
        ItemsCommand::Update { key, fields, dry_run } => fields_mutation(
            before,
            after,
            "items.update"@,
            seq![("key"@, JsonV::Str(key@))],
            fields@,
            dry_run,
            r,
        ),
        ItemsCommand::Delete { key, dry_run } => mutated(
            before,
            after,
            "items.delete"@,
            obj1("key"@, JsonV::Str(key@)),
            dry_run,
            r,
        ),
        ItemsCommand::Trash { items, dry_run } => if items@.len() == 1 {
            mutated(before, after, "items.trash"@, obj1("key"@, JsonV::Str(items@[0]@)), dry_run, r)
        } else {
            mutated(before, after, "items.batchTrash"@, obj1("keys"@, strs(items)), dry_run, r)
        },
        ItemsCommand::Restore { item, dry_run } => mutated(
            before,
            after,
            "items.restore"@,
            obj1("key"@, JsonV::Str(item@)),
            dry_run,
            r,
        ),
        ItemsCommand::MergeDuplicates { keys, dry_run } => if keys@.len() < 2 {
            after == before && r == Err::<JsonV, Seq<char>>(
                "INVALID_ARGS: need at least 2 keys to merge"@,
            )
        } else {
            mutated(before, after, "items.mergeDuplicates"@, obj1("keys"@, strs(keys)), dry_run, r)
        },
        ItemsCommand::AddRelated { key, target, dry_run } => mutated(
            before,
            after,
            "items.addRelated"@,
            obj2("key"@, JsonV::Str(key@), "targetKey"@, JsonV::Str(target@)),
            dry_run,
            r,
        ),
        ItemsCommand::RemoveRelated { key, target, dry_run } => mutated(
            before,
            after,
            "items.removeRelated"@,
            obj2("key"@, JsonV::Str(key@), "targetKey"@, JsonV::Str(target@)),
            dry_run,
            r,
        ),
        ItemsCommand::Get { item } => answered(
            before,
            after,
            "items.get"@,
            Some(obj1("key"@, JsonV::Str(item@))),
            r,
        ),
        ItemsCommand::List { limit, offset, sort, direction, trash } => if trash {
            listed_call(
                before,
                after,
                "items.getTrash"@,
                Some(obj2("limit"@, uint_json(limit), "offset"@, uint_json(offset))),
                Some(limit),
                offset,
                r,
            )
        } else {
            listed_call(
                before,
                after,
                "items.list"@,
                Some(list_params(limit, offset, sort, direction@)),
                Some(limit),
                offset,
                r,
            )
        },
        ItemsCommand::FindDuplicates => answered(before, after, "items.findDuplicates"@, None, r),
        ItemsCommand::Recent { limit, offset, recent_type } => if recent_type@ != "added"@
            && recent_type@ != "modified"@ {
            after == before && r == Err::<JsonV, Seq<char>>(
                "--type must be added or modified, got "@ + debug_text(recent_type@),
            )
        } else {
            listed_call(
                before,
                after,
                "items.getRecent"@,
                Some(
                    obj3(
                        "limit"@,
                        uint_json(limit),
                        "offset"@,
                        uint_json(offset),
                        "type"@,
                        JsonV::Str(recent_type@),
                    ),
                ),
                Some(limit),
                offset,
                r,
            )
        },
        ItemsCommand::Related { key } => listed_call(
            before,
            after,
            "items.getRelated"@,
            Some(obj1("key"@, JsonV::Str(key@))),
            None,
            0,
            r,
        ),
        ItemsCommand::CitationKey { key } => answered(
            before,
            after,
            "items.citationKey"@,
            Some(obj1("key"@, JsonV::Str(key@))),
            r,
        ),
        ItemsCommand::Path { key } => answered(
            before,
            after,
            "attachments.getPath"@,
            Some(obj1("key"@, JsonV::Str(key@))),
            r,
        ),
        ItemsCommand::Attachments { key, offset } => {
            &&& called(
                before,
                after,
                "attachments.list"@,
                Some(obj1("parentKey"@, JsonV::Str(key@))),
            )
            &&& r == match replied(after) {
                Ok(v) => Ok(list_envelope(v, "items"@, Some(items_count(v)), offset)),
                Err(e) => Err(e),
            }
        },
        ItemsCommand::FindPdfs { collection, limit } => find_pdfs_ran(
            collection@,
            limit as nat,
            before,
            after,
            r,
        ),
    }
}

/// Adds the resolved collection to a mutation's parameters, when it names
/// one.
fn insert_collection(members: &mut Vec<(String, Json)>, key: Json)
    ensures
        members_view(final(members)@) == with_collection(members_view(old(members)@), key@),
{
    let named = match &key {
        Json::Null => false,
        Json::Number(_) => match key.as_i64() {
            Some(n) => n != 0,
            None => true,
        },
        _ => true,
    };
    if named {
        set_member(members, "collection", key);
    }
    assert(members_view(members@) == members@.map_values(|x: (String, Json)| (x.0@, x.1@)));
}

/// Resolves `collection`, when given, and adds it to a mutation's members
/// when it names one (see `with_collection`).
pub fn maybe_insert_collection<C: RpcCaller>(
    client: &mut C,
    members: &mut Vec<(String, Json)>,
    collection: Option<String>,
) -> (r: Result<(), String>)
    ensures
        match collection {
            None => final(client).exchanges() == old(client).exchanges() && r is Ok && members_view(
                final(members)@,
            ) == members_view(old(members)@),
            Some(c) => resolving(old(client).exchanges(), final(client).exchanges(), c@) && match resolution(
                c@,
                final(client).exchanges(),
            ) {
                Err(e) => (r matches Err(m) && m@ == e),
                Ok(k) => r is Ok && members_view(final(members)@) == with_collection(
                    members_view(old(members)@),
                    k,
                ),
            },
        },
{
    let c = match collection {
        None => return Ok(()),
        Some(c) => c,
    };
    let key = match resolve_collection(client, c.as_str()) {
        Ok(k) => k,
        Err(e) => return Err(e),
    };
    insert_collection(members, key);
    Ok(())
}

/// Runs a mutation whose parameters take the collection named by
/// `collection`, when given.
pub fn run_filed_mutation<C: RpcCaller>(
    client: &mut C,
    method: &str,
    members: Vec<(String, Json)>,
    collection: Option<String>,
    dry_run: bool,
) -> (r: Result<Json, String>)
    ensures
        filed_mutation(
            old(client).exchanges(),
            final(client).exchanges(),
            method@,
            members_view(members@),
            collection,
            dry_run,
            json_result(r),
        ),
{
    let ghost before = client.exchanges();
    let ghost cv = collection;
    let mut m = members;
    match maybe_insert_collection(client, &mut m, collection) {
        Ok(()) => {},
        Err(e) => {
            proof {
                if let Some(c) = cv {
                    lemma_resolved_part(before, client.exchanges(), client.exchanges(), c@);
                }
            }
            return Err(e);
        },
    }
    let ghost mid = client.exchanges();
    let r = run_mutation_command(client, method, object_of(m), dry_run);
    proof {
        if let Some(c) = cv {
            lemma_resolved_part(before, mid, client.exchanges(), c@);
        }
    }
    r
}

/// Runs an identifier-based add (`items.addByDOI` and its kin): the
/// identifier under `param_name`, filed into `collection` when given.
pub fn run_add_identifier_command<C: RpcCaller>(
    client: &mut C,
    method: &str,
    param_name: &str,
    param_value: String,
    collection: Option<String>,
    dry_run: bool,
) -> (r: Result<Json, String>)
    ensures
        filed_mutation(
            old(client).exchanges(),
            final(client).exchanges(),
            method@,
            seq![(param_name@, JsonV::Str(param_value@))],
            collection,
            dry_run,
            json_result(r),
        ),
{
    let mut m: Vec<(String, Json)> = Vec::new();
    push_member(&mut m, param_name, Json::str(param_value.as_str()));
    assert(members_view(m@) =~= seq![(param_name@, JsonV::Str(param_value@))]);
    run_filed_mutation(client, method, m, collection, dry_run)
}

fn run_fields_mutation<C: RpcCaller>(
    client: &mut C,
    method: &str,
    base: Vec<(String, Json)>,
    fields: &Vec<String>,
    dry_run: bool,
) -> (r: Result<Json, String>)
    ensures
        fields_mutation(
            old(client).exchanges(),
            final(client).exchanges(),
            method@,
            members_view(base@),
            fields@,
            dry_run,
            json_result(r),
        ),
{
    let parsed = match parse_field_options(fields) {
        Ok(p) => p,
        Err(e) => return Err(e),
    };
    let mut m = base;
    if parsed.len() > 0 {
        push_member(&mut m, "fields", object_of(parsed));
    }
    run_mutation_command(client, method, object_of(m), dry_run)
}

/// Runs an `items` command.
pub fn run_items_command<C: RpcCaller>(command: ItemsCommand, client: &mut C) -> (r: Result<
    Json,
    String,
>)
    ensures
        items_ran(command, old(client).exchanges(), final(client).exchanges(), json_result(r)),
{
    match command {
        ItemsCommand::Add { doi, isbn, from_url, file, item_type, fields, collection, dry_run } => {
            match doi {
                Some(d) => return run_add_identifier_command(
                    client,
                    "items.addByDOI",
                    "doi",
                    d,
                    collection,
                    dry_run,
                ),
                None => {},
            }
            match isbn {
                Some(i) => return run_add_identifier_command(
                    client,
                    "items.addByISBN",
                    "isbn",
                    i,
                    collection,
                    dry_run,
                ),
                None => {},
            }
            match from_url {
                Some(u) => return run_add_identifier_command(
                    client,
                    "items.addByURL",
                    "url",
                    u,
                    collection,
                    dry_run,
                ),
                None => {},
            }
            match file {
                Some(f) => return run_add_identifier_command(
                    client,
                    "items.addFromFile",
                    "path",
                    f,
                    collection,
                    dry_run,
                ),
                None => {},
            }
            match item_type {
                Some(t) => {
                    let mut m: Vec<(String, Json)> = Vec::new();
                    push_member(&mut m, "itemType", Json::str(t.as_str()));
                    assert(members_view(m@) =~= seq![("itemType"@, JsonV::Str(t@))]);
                    run_fields_mutation(client, "items.create", m, &fields, dry_run)
                },
                None => Err(
                    to_string(
                        "INVALID_ARGS: provide one of --doi, --isbn, --from-url, --file, or --type",
                    ),
                ),
            }
        },
        ItemsCommand::Update { key, fields, dry_run } => {
            let mut m: Vec<(String, Json)> = Vec::new();
            push_member(&mut m, "key", Json::str(key.as_str()));
            assert(members_view(m@) =~= seq![("key"@, JsonV::Str(key@))]);
            run_fields_mutation(client, "items.update", m, &fields, dry_run)
        },
        ItemsCommand::Delete { key, dry_run } => run_mutation_command(
            client,
            "items.delete",
            Json::object1("key", Json::str(key.as_str())),
            dry_run,
        ),
        ItemsCommand::Trash { items, dry_run } => if items.len() == 1 {
            run_mutation_command(
                client,
                "items.trash",
                Json::object1("key", Json::str(items[0].as_str())),
                dry_run,
            )
        } else {
            run_mutation_command(
                client,
                "items.batchTrash",
                Json::object1("keys", Json::str_array(&items)),
                dry_run,
            )
        },
        ItemsCommand::Restore { item, dry_run } => run_mutation_command(
            client,
            "items.restore",
            Json::object1("key", Json::str(item.as_str())),
            dry_run,
        ),
        ItemsCommand::MergeDuplicates { keys, dry_run } => {
            if keys.len() < 2 {
                return Err(to_string("INVALID_ARGS: need at least 2 keys to merge"));
            }
            run_mutation_command(
                client,
                "items.mergeDuplicates",
                Json::object1("keys", Json::str_array(&keys)),
                dry_run,
            )
        },
        ItemsCommand::AddRelated { key, target, dry_run } => run_mutation_command(
            client,
            "items.addRelated",
            Json::object2("key", Json::str(key.as_str()), "targetKey", Json::str(target.as_str())),
            dry_run,
        ),
        ItemsCommand::RemoveRelated { key, target, dry_run } => run_mutation_command(
            client,
            "items.removeRelated",
            Json::object2("key", Json::str(key.as_str()), "targetKey", Json::str(target.as_str())),
            dry_run,
        ),
        ItemsCommand::Get { item } => ask(
            client,
            "items.get",
            Some(Json::object1("key", Json::str(item.as_str()))),
        ),
        ItemsCommand::List { limit, offset, sort, direction, trash } => if trash {
            ask_list(
                client,
                "items.getTrash",
                Some(Json::object2("limit", Json::uint(limit), "offset", Json::uint(offset))),
                Some(limit),
                offset,
            )
        } else {
            let mut m: Vec<(String, Json)> = Vec::new();
            push_member(&mut m, "limit", Json::uint(limit));
            push_member(&mut m, "offset", Json::uint(offset));
            push_member(&mut m, "direction", Json::str(direction.as_str()));
            push_opt_str(&mut m, "sort", &sort);
            assert(members_view(m@) =~= seq![
                ("limit"@, uint_json(limit)),
                ("offset"@, uint_json(offset)),
                ("direction"@, JsonV::Str(direction@)),
            ] + opt_str_member("sort"@, sort));
            ask_list(client, "items.list", Some(object_of(m)), Some(limit), offset)
        },
        ItemsCommand::FindDuplicates => ask(client, "items.findDuplicates", None),
        ItemsCommand::Recent { limit, offset, recent_type } => {
            if !str_eq(recent_type.as_str(), "added") && !str_eq(recent_type.as_str(), "modified") {
                let d = debug_quote(recent_type.as_str());
                return Err(message("--type must be added or modified, got ", d.as_str()));
            }
            ask_list(
                client,
                "items.getRecent",
                Some(
                    Json::object3(
                        "limit",
                        Json::uint(limit),
                        "offset",
                        Json::uint(offset),
                        "type",
                        Json::str(recent_type.as_str()),
                    ),
                ),
                Some(limit),
                offset,
            )
        },
        ItemsCommand::Related { key } => ask_list(
            client,
            "items.getRelated",
            Some(Json::object1("key", Json::str(key.as_str()))),
            None,
            0,
        ),
        ItemsCommand::CitationKey { key } => ask(
            client,
            "items.citationKey",
            Some(Json::object1("key", Json::str(key.as_str()))),
        ),
        ItemsCommand::Path { key } => ask(
            client,
            "attachments.getPath",
            Some(Json::object1("key", Json::str(key.as_str()))),
        ),
        ItemsCommand::Attachments { key, offset } => {
            let value = match ask(
                client,
                "attachments.list",
                Some(Json::object1("parentKey", Json::str(key.as_str()))),
            ) {
                Ok(v) => v,
                Err(e) => return Err(e),
            };
            let total: u64 = match value.at("items").as_array() {
                Some(a) => a.len() as u64,
                None => 0,
            };
            Ok(normalize_list_envelope(value, "items", Some(total), offset))
        },
        ItemsCommand::FindPdfs { collection, limit } => run_find_pdfs_command(
            client,
            collection.as_str(),
            limit,
        ),
    }
}

// ---------------------------------------------------------------------------
// Export.
// ---------------------------------------------------------------------------

/// The `export` command's arguments.
pub struct ExportArgs {
    pub keys: Vec<String>,
    pub format: String,
    pub collection: Option<String>,
    pub style: String,
    pub html: bool,
}

/// The keys given, then the keys of a collection's records that are not
/// among them yet, in order.
pub open spec fn merged_keys(keys: Seq<Seq<char>>, items: Seq<JsonV>) -> Seq<Seq<char>>
    decreases items.len(),
{
    if items.len() == 0 {
        keys
    } else {
        let ks = merged_keys(keys, items.drop_last());
        match as_str(at(items.last(), "key"@)) {
            Some(k) => if ks.contains(k) {
                ks
            } else {
                ks.push(k)
            },
            None => ks,
        }
    }
}

pub open spec fn strings_view(v: Seq<String>) -> Seq<Seq<char>> {
    v.map_values(|s: String| s@)
}

/// The items of a collection reply (none when it holds no list).
pub open spec fn reply_rows(v: JsonV) -> Seq<JsonV> {
    match items_of(v) {
        Some(a) => a,
        None => seq![],
    }
}

/// The keys, unless there are none.
pub open spec fn some_keys(ks: Seq<Seq<char>>) -> Result<Seq<Seq<char>>, Seq<char>> {
    if ks.len() == 0 {
        Err("No item keys provided. Pass positional keys and/or --collection."@)
    } else {
        Ok(ks)
    }
}

/// The keys an export covers, after its calls: the given keys, and with
/// `--collection` the keys of the collection's items (which takes resolving
/// the collection and one `collections.getItems`); no keys at all is
/// refused.
pub open spec fn export_keys_ran(
    keys: Seq<String>,
    collection: Option<String>,
    before: Seq<Exchange>,
    after: Seq<Exchange>,
    r: Result<Seq<Seq<char>>, Seq<char>>,
) -> bool {
    match collection {
        None => after == before && r == some_keys(strings_view(keys)),
        Some(c) => {
            let mid = resolved_part(before, after, c@);
            &&& resolves_first(before, after, c@)
            &&& match resolution(c@, mid) {
                Err(e) => after == mid && r == Err::<Seq<Seq<char>>, Seq<char>>(e),
                Ok(k) => called(mid, after, "collections.getItems"@, Some(obj1("key"@, k)))
                    && match replied(after) {
                    Err(e) => r == Err::<Seq<Seq<char>>, Seq<char>>(e),
                    Ok(v) => r == some_keys(merged_keys(strings_view(keys), reply_rows(v))),
                },
            }
        },
    }
}

fn contains_string(v: &Vec<String>, s: &str) -> (r: bool)
    ensures
        r == strings_view(v@).contains(s@),
{
    let mut i: usize = 0;
    while i < v.len()
        invariant
            i <= v@.len(),
            forall|j: int| 0 <= j < i ==> v@[j]@ != s@,
        decreases v.len() - i,
    {
        if str_eq(v[i].as_str(), s) {
            assert(strings_view(v@)[i as int] == s@);
            return true;
        }
        i += 1;
    }
    assert forall|j: int| 0 <= j < strings_view(v@).len() implies strings_view(v@)[j] != s@ by {
        assert(strings_view(v@)[j] == v@[j]@);
    }
    false
}

/// Adds the keys of a collection's records to `keys` (see `merged_keys`).
fn merge_item_keys(keys: &mut Vec<String>, items: &Vec<Json>)
    ensures
        strings_view(final(keys)@) == merged_keys(
            strings_view(old(keys)@),
            items@.map_values(|x: Json| x@),
        ),
{
    let ghost k0 = strings_view(keys@);
    let ghost iv = items@.map_values(|x: Json| x@);
    let mut i: usize = 0;
    assert(iv.take(0) =~= Seq::<JsonV>::empty());
    while i < items.len()
        invariant
            i <= items@.len(),
            iv == items@.map_values(|x: Json| x@),
            strings_view(keys@) == merged_keys(k0, iv.take(i as int)),
        decreases items.len() - i,
    {
        assert(iv.take(i + 1).drop_last() =~= iv.take(i as int));
        assert(iv.take(i + 1).last() == items@[i as int]@);
        let k = items[i].at("key");
        match k.as_str() {
            Some(ks) => {
                if !contains_string(keys, ks) {
                    let ghost before = strings_view(keys@);
                    keys.push(to_string(ks));
                    assert(strings_view(keys@) =~= before.push(ks@));
                }
            },
            None => {},
        }
        i += 1;
    }
    assert(iv.take(items@.len() as int) =~= iv);
}

/// Keys by their views.
pub open spec fn keys_result(r: Result<Vec<String>, String>) -> Result<Seq<Seq<char>>, Seq<char>> {
    match r {
        Ok(v) => Ok(strings_view(v@)),
        Err(e) => Err(e@),
    }
}

/// The keys an export covers (see `export_keys_ran`).
pub fn resolve_export_keys<C: RpcCaller>(
    client: &mut C,
    keys: Vec<String>,
    collection: Option<String>,
) -> (r: Result<Vec<String>, String>)
    ensures
        export_keys_ran(
            keys@,
            collection,
            old(client).exchanges(),
            final(client).exchanges(),
            keys_result(r),
        ),
{
    let ghost before = client.exchanges();
    let ghost kv = keys@;
    let mut keys = keys;
    match collection {
        Some(name) => {
            let col_key = resolve_collection(client, name.as_str());
            let ghost mid = client.exchanges();
            proof {
                lemma_resolved_part(before, mid, mid, name@);
            }
            let col_key = match col_key {
                Ok(k) => k,
                Err(e) => return Err(e),
            };
            let response = ask(client, "collections.getItems", Some(Json::object1("key", col_key)));
            proof {
                lemma_resolved_part(before, mid, client.exchanges(), name@);
            }
            let response = match response {
                Ok(v) => v,
                Err(e) => return Err(e),
            };
            let items = collection_items(&response);
            merge_item_keys(&mut keys, &items);
        },
        None => {},
    }
    if keys.len() == 0 {
        return Err(to_string("No item keys provided. Pass positional keys and/or --collection."));
    }
    Ok(keys)
}

/// What an export prints for a content reply: the `content` member raw, or
/// the whole reply as JSON when it has none.
pub open spec fn content_output(v: JsonV) -> Seq<char> {
    match get(v, "content"@) {
        Some(c) => raw_output(c),
        None => json_output(v),
    }
}

/// Calls an export method for the keys and prints its content.
pub fn run_export_content_command<C: RpcCaller>(client: &mut C, method: &str, keys: &Vec<String>) -> (r:
    Result<String, String>)
    ensures
        called(
            old(client).exchanges(),
            final(client).exchanges(),
            method@,
            Some(obj1("keys"@, strs(*keys))),
        ),
        match replied(final(client).exchanges()) {
            Err(e) => r matches Err(m) && m@ == e,
            Ok(v) => r matches Ok(s) && s@ == content_output(v),
        },
{
    let response = match ask(client, method, Some(Json::object1("keys", Json::str_array(keys)))) {
        Ok(v) => v,
        Err(e) => return Err(e),
    };
    match response.get("content") {
        Some(c) => raw_value_output(c),
        None => format_json(&response),
    }
}

/// What `export --format csl-json` prints.
pub open spec fn csl_output(v: JsonV) -> Seq<char> {
    match get(v, "content"@) {
        Some(c) => json_output(c),
        None => json_output(v),
    }
}

/// What `export --format bibliography` prints: the `html` (or `text`) member
/// raw when the reply has either, else the reply as JSON.
pub open spec fn bibliography_output(v: JsonV, html: bool) -> Seq<char> {
    if v is Object && (get(v, "html"@) is Some || get(v, "text"@) is Some) {
        match get(v, if html { "html"@ } else { "text"@ }) {
            Some(x) => raw_output(x),
            None => raw_output(JsonV::Str(""@)),
        }
    } else {
        json_output(v)
    }
}

/// The call an export format makes for the keys: the method and its
/// parameters; none for an unknown format.
pub open spec fn format_call(format: Seq<char>, style: Seq<char>, keys: Seq<Seq<char>>) -> Option<
    (Seq<char>, JsonV),
> {
    let kp = JsonV::Array(keys.map_values(|k: Seq<char>| JsonV::Str(k)));
    if format == "bibtex"@ {
        Some(("export.bibtex"@, obj1("keys"@, kp)))
    } else if format == "ris"@ {
        Some(("export.ris"@, obj1("keys"@, kp)))
    } else if format == "csl-json"@ {
        Some(("export.cslJson"@, obj1("keys"@, kp)))
    } else if format == "bibliography"@ {
        Some(("export.bibliography"@, obj2("keys"@, kp, "style"@, JsonV::Str(style))))
    } else {
        None
    }
}

/// What an export format prints for the reply.
pub open spec fn format_output(format: Seq<char>, html: bool, v: JsonV) -> Seq<char> {
    if format == "csl-json"@ {
        csl_output(v)
    } else if format == "bibliography"@ {
        bibliography_output(v, html)
    } else {
        content_output(v)
    }
}

/// What an export does once its keys are known: the call for the format and
/// what it prints.
pub open spec fn export_format_ran(
    format: Seq<char>,
    style: Seq<char>,
    html: bool,
    keys: Seq<Seq<char>>,
    before: Seq<Exchange>,
    after: Seq<Exchange>,
    r: Result<Seq<char>, Seq<char>>,
) -> bool {
    match format_call(format, style, keys) {
        None => after == before && r == Err::<Seq<char>, Seq<char>>(
            "INVALID_ARGS: unknown format "@ + debug_text(format)
                + ", expected bibtex/ris/csl-json/bibliography"@,
        ),
        Some((m, p)) => called(before, after, m, Some(p)) && r == match replied(after) {
            Err(e) => Err(e),
            Ok(v) => Ok(format_output(format, html, v)),
        },
    }
}

/// A printed result by its view.
pub open spec fn text_result(r: Result<String, String>) -> Result<Seq<char>, Seq<char>> {
    match r {
        Ok(s) => Ok(s@),
        Err(e) => Err(e@),
    }
}

/// What `export` does: it settles the keys (see `export_keys_ran`), then
/// exports them in the format.
pub open spec fn export_ran(
    args: ExportArgs,
    before: Seq<Exchange>,
    after: Seq<Exchange>,
    r: Result<Seq<char>, Seq<char>>,
) -> bool {
    exists|mid: Seq<Exchange>, keys: Result<Seq<Seq<char>>, Seq<char>>|
        #![trigger export_keys_ran(args.keys@, args.collection, before, mid, keys)]
        {
            &&& mid.len() <= after.len()
            &&& after.subrange(0, mid.len() as int) == mid
            &&& export_keys_ran(args.keys@, args.collection, before, mid, keys)
            &&& match keys {
                Err(e) => after == mid && r == Err::<Seq<char>, Seq<char>>(e),
                Ok(ks) => export_format_ran(
                    args.format@,
                    args.style@,
                    args.html,
                    ks,
                    mid,
                    after,
                    r,
                ),
            }
        }
}

/// Exports the keys in a format (see `export_format_ran`).
fn export_in_format<C: RpcCaller>(
    client: &mut C,
    f: &str,
    style: &str,
    html: bool,
    keys: &Vec<String>,
) -> (r: Result<String, String>)
    ensures
        export_format_ran(
            f@,
            style@,
            html,
            strings_view(keys@),
            old(client).exchanges(),
            final(client).exchanges(),
            text_result(r),
        ),
{
    let ghost kp = JsonV::Array(strings_view(keys@).map_values(|k: Seq<char>| JsonV::Str(k)));
    assert(str_values(keys@) =~= strings_view(keys@).map_values(|k: Seq<char>| JsonV::Str(k)));
    assert(strs(*keys) == kp);
    proof {
        reveal_strlit("bibtex");
        reveal_strlit("ris");
        reveal_strlit("csl-json");
        reveal_strlit("bibliography");
        assert("bibtex"@.len() == 6);
        assert("ris"@.len() == 3);
        assert("csl-json"@.len() == 8);
        assert("bibliography"@.len() == 12);
    }
    if str_eq(f, "bibtex") {
        run_export_content_command(client, "export.bibtex", keys)
    } else if str_eq(f, "ris") {
        run_export_content_command(client, "export.ris", keys)
    } else if str_eq(f, "csl-json") {
        match ask(client, "export.cslJson", Some(Json::object1("keys", Json::str_array(keys)))) {
            Err(e) => Err(e),
            Ok(response) => match response.get("content") {
                Some(content) => format_json(content),
                None => format_json(&response),
            },
        }
    } else if str_eq(f, "bibliography") {
        match ask(
            client,
            "export.bibliography",
            Some(Json::object2("keys", Json::str_array(keys), "style", Json::str(style))),
        ) {
            Err(e) => Err(e),
            Ok(response) => {
                let has = response.is_object() && (response.get("html").is_some()
                    || response.get("text").is_some());
                if has {
                    let field = if html {
                        "html"
                    } else {
                        "text"
                    };
                    match response.get(field) {
                        Some(x) => raw_value_output(x),
                        None => raw_value_output(&Json::str("")),
                    }
                } else {
                    format_json(&response)
                }
            },
        }
    } else {
        let d = debug_quote(f);
        let mut m = message("INVALID_ARGS: unknown format ", d.as_str());
        push_str(&mut m, ", expected bibtex/ris/csl-json/bibliography");
        Err(m)
    }
}

/// Runs `export`.
pub fn run_export<C: RpcCaller>(args: ExportArgs, client: &mut C) -> (r: Result<String, String>)
    ensures
        export_ran(args, old(client).exchanges(), final(client).exchanges(), text_result(r)),
{
    let ghost before = client.exchanges();
    let ghost ak = args.keys@;
    let ghost ac = args.collection;
    let ExportArgs { keys, format, collection, style, html } = args;
    let resolved = resolve_export_keys(client, keys, collection);
    let ghost mid = client.exchanges();
    let ghost kr = keys_result(resolved);
    assert(export_keys_ran(ak, ac, before, mid, kr));
    let keys = match resolved {
        Ok(k) => k,
        Err(e) => {
            assert(mid.subrange(0, mid.len() as int) =~= mid);
            return Err(e);
        },
    };
    let r = export_in_format(client, format.as_str(), style.as_str(), html, &keys);
    proof {
        let after = client.exchanges();
        if after == mid {
            assert(after.subrange(0, mid.len() as int) =~= mid);
        } else {
            assert(after.subrange(0, mid.len() as int) =~= after.drop_last());
        }
    }
    r
}

// ---------------------------------------------------------------------------
// Pushing items: duplicates, the current collection, PDF attachments.
// ---------------------------------------------------------------------------

/// The key the currently selected collection has in a
/// `system.currentCollection` reply; the library root (0) when there is
/// none.
pub open spec fn current_key(v: JsonV) -> JsonV {
    match get(v, "key"@) {
        Some(k) => k,
        None => uint_json(0),
    }
}

/// The collection selected in Zotero, by one `system.currentCollection`.
pub fn resolve_current_collection<C: RpcCaller>(client: &mut C) -> (r: Result<Json, String>)
    ensures
        called(old(client).exchanges(), final(client).exchanges(), "system.currentCollection"@, None),
        json_result(r) == match replied(final(client).exchanges()) {
            Ok(v) => Ok(current_key(v)),
            Err(e) => Err(e),
        },
{
    let selected = match ask(client, "system.currentCollection", None) {
        Ok(v) => v,
        Err(e) => return Err(e),
    };
    match selected.get("key") {
        Some(k) => Ok(k.clone_json()),
        None => Ok(Json::uint(0)),
    }
}

/// Whether an item has a PDF attachment, by one `attachments.list`.
pub fn item_has_pdf_attachment<C: RpcCaller>(client: &mut C, item_key: &str) -> (r: Result<
    bool,
    String,
>)
    ensures
        called(
            old(client).exchanges(),
            final(client).exchanges(),
            "attachments.list"@,
            Some(obj1("parentKey"@, JsonV::Str(item_key@))),
        ),
        match replied(final(client).exchanges()) {
            Ok(v) => r == Ok::<bool, String>(lists_pdf(v)),
            Err(e) => r matches Err(m) && m@ == e,
        },
{
    match ask(
        client,
        "attachments.list",
        Some(Json::object1("parentKey", Json::str(item_key))),
    ) {
        Ok(v) => Ok(has_pdf_attachment(&v)),
        Err(e) => Err(e),
    }
}

/// The parameters that attach a PDF (by its path as Zotero sees it) to an
/// item.
pub open spec fn attach_params(item_key: Seq<char>, path: Seq<char>) -> JsonV {
    obj3(
        "parentKey"@,
        JsonV::Str(item_key),
        "path"@,
        JsonV::Str(path),
        "title"@,
        JsonV::Str("Full Text PDF"@),
    )
}

/// Attaches a PDF to an item, by one `attachments.add`; `path` is the file's
/// path as Zotero sees it (the caller translates a local path).
pub fn attach_pdf<C: RpcCaller>(client: &mut C, item_key: &str, path: &str) -> (r: Result<(), String>)
    ensures
        called(
            old(client).exchanges(),
            final(client).exchanges(),
            "attachments.add"@,
            Some(attach_params(item_key@, path@)),
        ),
        match replied(final(client).exchanges()) {
            Ok(_) => r is Ok,
            Err(e) => r matches Err(m) && m@ == e,
        },
{
    match ask(
        client,
        "attachments.add",
        Some(
            Json::object3(
                "parentKey",
                Json::str(item_key),
                "path",
                Json::str(path),
                "title",
                Json::str("Full Text PDF"),
            ),
        ),
    ) {
        Ok(_) => Ok(()),
        Err(e) => Err(e),
    }
}

/// The DOI of an item to look up: a non-empty string `DOI`.
pub open spec fn lookup_doi(item: JsonV) -> Option<Seq<char>> {
    match as_str(at(item, "DOI"@)) {
        Some(d) => if d.len() > 0 {
            Some(d)
        } else {
            None
        },
        None => None,
    }
}

/// The title of an item to look up: a string `title` of at least ten bytes.
pub open spec fn lookup_title(item: JsonV) -> Option<Seq<char>> {
    match as_str(at(item, "title"@)) {
        Some(t) => if utf8_len(t) >= 10 {
            Some(t)
        } else {
            None
        },
        None => None,
    }
}

/// The key of the first hit titled exactly `title` that has a key.
pub open spec fn titled_hit(items: Seq<JsonV>, title: Seq<char>) -> Option<Seq<char>>
    decreases items.len(),
{
    if items.len() == 0 {
        None
    } else if as_str(at(items[0], "title"@)) == Some(title) && as_str(at(items[0], "key"@)) is Some {
        as_str(at(items[0], "key"@))
    } else {
        titled_hit(items.drop_first(), title)
    }
}

/// Law: a duplicate found by title is the key of a hit whose title is
/// exactly the item's title, and no earlier hit has that title and a key;
/// when no hit has exactly that title, the title search finds no duplicate.
pub proof fn law_title_duplicate_is_exact(items: Seq<JsonV>, title: Seq<char>)
    ensures
        titled_hit(items, title) matches Some(k) ==> exists|i: int|
            0 <= i < items.len() && as_str(at(#[trigger] items[i], "title"@)) == Some(title) && as_str(
                at(items[i], "key"@),
            ) == Some(k) && forall|j: int|
                0 <= j < i ==> !(as_str(at(#[trigger] items[j], "title"@)) == Some(title) && as_str(
                    at(items[j], "key"@),
                ) is Some),
        (forall|i: int| 0 <= i < items.len() ==> as_str(at(#[trigger] items[i], "title"@)) != Some(title))
            ==> titled_hit(items, title) is None,
    decreases items.len(),
{
    if items.len() > 0 {
        let rest = items.drop_first();
        law_title_duplicate_is_exact(rest, title);
        assert forall|i: int| 0 <= i < rest.len() implies rest[i] == items[i + 1] by {}
        if !(as_str(at(items[0], "title"@)) == Some(title) && as_str(at(items[0], "key"@)) is Some) {
            if titled_hit(items, title) is Some {
                let k = titled_hit(items, title)->Some_0;
                let i = choose|i: int|
                    0 <= i < rest.len() && as_str(at(#[trigger] rest[i], "title"@)) == Some(title)
                        && as_str(at(rest[i], "key"@)) == Some(k) && forall|j: int|
                        0 <= j < i ==> !(as_str(at(#[trigger] rest[j], "title"@)) == Some(title)
                            && as_str(at(rest[j], "key"@)) is Some);
                assert(items[i + 1] == rest[i]);
                assert forall|j: int| 0 <= j < i + 1 implies !(as_str(at(#[trigger] items[j], "title"@))
                    == Some(title) && as_str(at(items[j], "key"@)) is Some) by {
                    if j > 0 {
                        assert(items[j] == rest[j - 1]);
                    }
                }
            }
            if forall|i: int| 0 <= i < items.len() ==> as_str(at(#[trigger] items[i], "title"@)) != Some(title) {
                assert forall|i: int| 0 <= i < rest.len() implies as_str(at(#[trigger] rest[i], "title"@))
                    != Some(title) by {
                    assert(rest[i] == items[i + 1]);
                }
            }
        }
    }
}

/// Law: a duplicate found by DOI is the key of the first hit of the
/// `search.byIdentifier` reply; a reply whose first hit has no key (or that
/// has no hits) finds none by DOI.
pub proof fn law_doi_duplicate_is_first_hit(reply: JsonV)
    ensures
        first_key(reply) matches Some(k) ==> items_of(reply) is Some && items_of(reply)->Some_0.len() > 0
            && as_str(at(items_of(reply)->Some_0[0], "key"@)) == Some(k),
        (items_of(reply) is Some && items_of(reply)->Some_0.len() > 0) ==> first_key(reply) == as_str(
            at(items_of(reply)->Some_0[0], "key"@),
        ),
        (items_of(reply) is None || items_of(reply)->Some_0.len() == 0) ==> first_key(reply) is None,
{
}

/// Law: a duplicate the title search reports is the key of a hit, in the
/// reply to the `search.quick` call, whose title is exactly the item's title.
pub proof fn law_title_lookup_reports_exact_titles(
    title: Seq<char>,
    before: Seq<Exchange>,
    after: Seq<Exchange>,
    k: Seq<char>,
)
    requires
        title_lookup(Some(title), before, after, Ok(Some(k))),
    ensures
        replied(after) is Ok,
        items_of(replied(after)->Ok_0) is Some,
        exists|i: int|
            0 <= i < items_of(replied(after)->Ok_0)->Some_0.len() && as_str(
                at(#[trigger] items_of(replied(after)->Ok_0)->Some_0[i], "title"@),
            ) == Some(title) && as_str(at(items_of(replied(after)->Ok_0)->Some_0[i], "key"@)) == Some(k),
{
    let items = items_of(replied(after)->Ok_0)->Some_0;
    law_title_duplicate_is_exact(items, title);
}

/// The title step of the duplicate search: one `search.quick` for the title,
/// when it is long enough.
pub open spec fn title_lookup(
    title: Option<Seq<char>>,
    before: Seq<Exchange>,
    after: Seq<Exchange>,
    r: Result<Option<Seq<char>>, Seq<char>>,
) -> bool {
    match title {
        None => after == before && r == Ok::<Option<Seq<char>>, Seq<char>>(None),
        Some(t) => called(
            before,
            after,
            "search.quick"@,
            Some(obj2("query"@, JsonV::Str(t), "limit"@, uint_json(20))),
        ) && r == match replied(after) {
            Err(e) => Err(e),
            Ok(h) => Ok(
                match items_of(h) {
                    Some(items) => titled_hit(items, t),
                    None => None,
                },
            ),
        },
    }
}

/// What looking for a duplicate of an item does: by DOI first (the first
/// hit's key), then by exact title.
pub open spec fn duplicate_found(
    item: JsonV,
    before: Seq<Exchange>,
    after: Seq<Exchange>,
    r: Result<Option<Seq<char>>, Seq<char>>,
) -> bool {
    match lookup_doi(item) {
        None => title_lookup(lookup_title(item), before, after, r),
        Some(d) => {
            let first = first_part(before, after);
            &&& after.len() > before.len()
            &&& called(before, first, "search.byIdentifier"@, Some(obj1("doi"@, JsonV::Str(d))))
            &&& match replied(first) {
                Err(e) => after == first && r == Err::<Option<Seq<char>>, Seq<char>>(e),
                Ok(h) => match first_key(h) {
                    Some(k) => after == first && r == Ok::<Option<Seq<char>>, Seq<char>>(Some(k)),
                    None => title_lookup(lookup_title(item), first, after, r),
                },
            }
        },
    }
}

/// An optional key by its view.
pub open spec fn opt_key_result(r: Result<Option<String>, String>) -> Result<Option<Seq<char>>, Seq<char>> {
    match r {
        Ok(Some(k)) => Ok(Some(k@)),
        Ok(None) => Ok(None),
        Err(e) => Err(e@),
    }
}

fn find_titled_hit(items: &Vec<Json>, title: &str) -> (r: Option<String>)
    ensures
        opt_view(r) == titled_hit(items@.map_values(|x: Json| x@), title@),
{
    let ghost iv = items@.map_values(|x: Json| x@);
    let mut i: usize = 0;
    assert(iv.skip(0) =~= iv);
    while i < items.len()
        invariant
            i <= items@.len(),
            iv == items@.map_values(|x: Json| x@),
            titled_hit(iv, title@) == titled_hit(iv.skip(i as int), title@),
        decreases items.len() - i,
    {
        assert(iv.skip(i as int).drop_first() =~= iv.skip(i + 1));
        assert(iv.skip(i as int)[0] == items@[i as int]@);
        let t = items[i].at("title");
        let same = match t.as_str() {
            Some(x) => str_eq(x, title),
            None => false,
        };
        if same {
            let k = items[i].at("key");
            match k.as_str() {
                Some(key) => return Some(to_string(key)),
                None => {},
            }
        }
        i += 1;
    }
    None
}

/// Looks for an item already in Zotero (see `duplicate_found`).
pub fn find_duplicate<C: RpcCaller>(client: &mut C, item_json: &Json) -> (r: Result<
    Option<String>,
    String,
>)
    ensures
        duplicate_found(item_json@, old(client).exchanges(), final(client).exchanges(), opt_key_result(r)),
{
    let ghost before = client.exchanges();
    let doi = item_json.at("DOI");
    let doi_s: Option<&str> = match doi.as_str() {
        Some(d) => if chars_of(d).len() > 0 {
            Some(d)
        } else {
            None
        },
        None => None,
    };
    match doi_s {
        Some(d) => {
            let hits = ask(client, "search.byIdentifier", Some(Json::object1("doi", Json::str(d))));
            let ghost first = client.exchanges();
            proof {
                lemma_first_part(before, first, first);
            }
            let hits = match hits {
                Ok(h) => h,
                Err(e) => return Err(e),
            };
            match first_hit_key(&hits) {
                Some(k) => return Ok(Some(k)),
                None => {},
            }
            let r = find_by_title(client, item_json);
            proof {
                lemma_first_part(before, first, client.exchanges());
            }
            r
        },
        None => find_by_title(client, item_json),
    }
}

fn find_by_title<C: RpcCaller>(client: &mut C, item_json: &Json) -> (r: Result<Option<String>, String>)
    ensures
        title_lookup(
            lookup_title(item_json@),
            old(client).exchanges(),
            final(client).exchanges(),
            opt_key_result(r),
        ),
{
    let t = item_json.at("title");
    let title: &str = match t.as_str() {
        Some(x) => x,
        None => return Ok(None),
    };
    if !utf8_len_at_least(title, 10) {
        return Ok(None);
    }
    let hits = match ask(
        client,
        "search.quick",
        Some(Json::object2("query", Json::str(title), "limit", Json::uint(20))),
    ) {
        Ok(h) => h,
        Err(e) => return Err(e),
    };
    match response_items(&hits) {
        Some(items) => Ok(find_titled_hit(&items, title)),
        None => Ok(None),
    }
}

/// `before` extends to `after`.
pub open spec fn prefix_of(before: Seq<Exchange>, after: Seq<Exchange>) -> bool {
    before.len() <= after.len() && after.subrange(0, before.len() as int) == before
}

/// An optional call: when `go`, one call of `method` with `params`; else
/// none.
pub open spec fn maybe_called(
    go: bool,
    before: Seq<Exchange>,
    after: Seq<Exchange>,
    method: Seq<char>,
    params: Option<JsonV>,
) -> bool {
    if go {
        called(before, after, method, params)
    } else {
        after == before
    }
}

/// The reply of an optional call; a call not made counts as answered.
pub open spec fn maybe_reply(go: bool, after: Seq<Exchange>) -> Result<JsonV, Seq<char>> {
    if go {
        replied(after)
    } else {
        Ok(JsonV::Null)
    }
}

/// The parameters that put items into a collection.
pub open spec fn add_items_params(collection: JsonV, key: Seq<char>) -> JsonV {
    obj2("key"@, collection, "keys"@, JsonV::Array(seq![JsonV::Str(key)]))
}

/// One `attachments.add` of the PDF at `path`; `out` is `true` once it
/// answered.
pub open spec fn attached_ran(
    key: Seq<char>,
    path: Seq<char>,
    before: Seq<Exchange>,
    after: Seq<Exchange>,
    out: Result<bool, Seq<char>>,
) -> bool {
    called(before, after, "attachments.add"@, Some(attach_params(key, path))) && out == match replied(
        after,
    ) {
        Err(e) => Err(e),
        Ok(_) => Ok::<bool, Seq<char>>(true),
    }
}

/// Attaching a PDF, when there is one: when `check`, only if the item has no
/// PDF yet (one `attachments.list` first). `out` is whether it was
/// attached, or the error that stopped it.
pub open spec fn pdf_attach_ran(
    check: bool,
    pdf_path: Option<Seq<char>>,
    key: Seq<char>,
    before: Seq<Exchange>,
    after: Seq<Exchange>,
    out: Result<bool, Seq<char>>,
) -> bool {
    match pdf_path {
        None => after == before && out == Ok::<bool, Seq<char>>(false),
        Some(p) => if !check {
            attached_ran(key, p, before, after, out)
        } else {
            let first = first_part(before, after);
            &&& after.len() > before.len()
            &&& called(before, first, "attachments.list"@, Some(obj1("parentKey"@, JsonV::Str(key))))
            &&& match replied(first) {
                Err(e) => after == first && out == Err::<bool, Seq<char>>(e),
                Ok(v) => if lists_pdf(v) {
                    after == first && out == Ok::<bool, Seq<char>>(false)
                } else {
                    attached_ran(key, p, first, after, out)
                },
            }
        },
    }
}

/// The collection a pushed item goes to, after its calls: the one named, or
/// the one selected in Zotero.
pub open spec fn push_target_ran(
    collection: Option<Seq<char>>,
    before: Seq<Exchange>,
    after: Seq<Exchange>,
    key: Result<JsonV, Seq<char>>,
) -> bool {
    match collection {
        Some(n) => resolving(before, after, n) && key == resolution(n, after),
        None => called(before, after, "system.currentCollection"@, None) && key == match replied(
            after,
        ) {
            Ok(v) => Ok(current_key(v)),
            Err(e) => Err(e),
        },
    }
}

/// The parameters that update a duplicate from an import payload: its
/// fields (none when it has none), creators and tags.
pub open spec fn update_params(key: Seq<char>, payload: JsonV) -> JsonV {
    JsonV::Object(
        seq![
            ("key"@, JsonV::Str(key)),
            ("fields"@, match get(payload, "fields"@) {
                Some(f) => f,
                None => JsonV::Object(seq![]),
            }),
        ] + match get(payload, "creators"@) {
            Some(c) => seq![("creators"@, c)],
            None => seq![],
        } + match get(payload, "tags"@) {
            Some(t) => seq![("tags"@, t)],
            None => seq![],
        },
    )
}

/// The end of a push: attach the PDF (checking first on an update), file an
/// updated item into the collection unless that is the library root, and
/// report.
pub open spec fn push_finish(
    updated: bool,
    pdf_path: Option<Seq<char>>,
    pdf_size: u64,
    collection: JsonV,
    key: Seq<char>,
    before: Seq<Exchange>,
    after: Seq<Exchange>,
    r: Result<JsonV, Seq<char>>,
) -> bool {
    let file = updated && !library_root(collection);
    exists|mid: Seq<Exchange>, att: Result<bool, Seq<char>>|
        #![trigger pdf_attach_ran(updated, pdf_path, key, before, mid, att)]
        {
            &&& prefix_of(mid, after)
            &&& pdf_attach_ran(updated, pdf_path, key, before, mid, att)
            &&& match att {
                Err(e) => after == mid && r == Err::<JsonV, Seq<char>>(e),
                Ok(a) => {
                    &&& maybe_called(
                        file,
                        mid,
                        after,
                        "collections.addItems"@,
                        Some(add_items_params(collection, key)),
                    )
                    &&& r == match maybe_reply(file, after) {
                        Err(e) => Err(e),
                        Ok(_) => Ok(
                            push_json(
                                if updated {
                                    "updated"@
                                } else {
                                    "created"@
                                },
                                Some(key),
                                a,
                                if a {
                                    pdf_size
                                } else {
                                    0
                                },
                                JsonV::Null,
                            ),
                        ),
                    }
                },
            }
        }
}

/// Skipping a duplicate `d`: file it into the collection unless that is
/// the library root, attach the PDF if it has none, and report.
pub open spec fn skip_ran(
    pdf_path: Option<Seq<char>>,
    pdf_size: u64,
    collection: JsonV,
    d: Seq<char>,
    before: Seq<Exchange>,
    after: Seq<Exchange>,
    r: Result<JsonV, Seq<char>>,
) -> bool {
    let file = !library_root(collection);
    exists|mid: Seq<Exchange>, att: Result<bool, Seq<char>>|
        #![trigger pdf_attach_ran(true, pdf_path, d, mid, after, att)]
        {
            &&& prefix_of(mid, after)
            &&& maybe_called(
                file,
                before,
                mid,
                "collections.addItems"@,
                Some(add_items_params(collection, d)),
            )
            &&& match maybe_reply(file, mid) {
                Err(e) => after == mid && r == Err::<JsonV, Seq<char>>(e),
                Ok(_) => pdf_attach_ran(true, pdf_path, d, mid, after, att) && r == match att {
                    Err(e) => Err(e),
                    Ok(a) => Ok(
                        push_json(
                            "skipped_duplicate"@,
                            Some(d),
                            a,
                            if a {
                                pdf_size
                            } else {
                                0
                            },
                            JsonV::Null,
                        ),
                    ),
                },
            }
        }
}

/// A push once the target collection and the duplicate are known.
pub open spec fn push_rest(
    item: JsonV,
    pdf_path: Option<Seq<char>>,
    pdf_size: u64,
    collection: JsonV,
    dup: Option<Seq<char>>,
    on_duplicate: Seq<char>,
    before: Seq<Exchange>,
    after: Seq<Exchange>,
    r: Result<JsonV, Seq<char>>,
) -> bool {
    if dup is Some && on_duplicate == "skip"@ {
        skip_ran(pdf_path, pdf_size, collection, dup->0, before, after, r)
    } else {
        let payload = xpi_payload(item, Some(collection));
        let updated = dup is Some && on_duplicate == "update"@;
        let first = first_part(before, after);
        &&& after.len() > before.len()
        &&& if updated {
            called(before, first, "items.update"@, Some(update_params(dup->0, payload)))
        } else {
            called(before, first, "items.create"@, Some(payload))
        }
        &&& match replied(first) {
            Err(e) => after == first && r == Err::<JsonV, Seq<char>>(e),
            Ok(v) => {
                let key: Result<Seq<char>, Seq<char>> = if updated {
                    Ok(dup->0)
                } else {
                    match as_str(at(v, "key"@)) {
                        Some(k) => Ok(k),
                        None => Err("items.create returned unexpected shape: "@ + debug_json(v)),
                    }
                };
                match key {
                    Err(e) => after == first && r == Err::<JsonV, Seq<char>>(e),
                    Ok(k) => push_finish(updated, pdf_path, pdf_size, collection, k, first, after, r),
                }
            },
        }
    }
}

/// What pushing an item does: find its target collection, look for a
/// duplicate, then skip, update or create it (see `push_rest`).
pub open spec fn push_ran(
    item: JsonV,
    pdf_path: Option<Seq<char>>,
    pdf_size: u64,
    collection: Option<Seq<char>>,
    on_duplicate: Seq<char>,
    before: Seq<Exchange>,
    after: Seq<Exchange>,
    r: Result<JsonV, Seq<char>>,
) -> bool {
    exists|m1: Seq<Exchange>, target: Result<JsonV, Seq<char>>|
        #![trigger push_target_ran(collection, before, m1, target)]
        {
            &&& prefix_of(m1, after)
            &&& push_target_ran(collection, before, m1, target)
            &&& match target {
                Err(e) => after == m1 && r == Err::<JsonV, Seq<char>>(e),
                Ok(ck) => exists|m2: Seq<Exchange>, dup: Result<Option<Seq<char>>, Seq<char>>|
                    #![trigger duplicate_found(item, m1, m2, dup)]
                    {
                        &&& prefix_of(m2, after)
                        &&& duplicate_found(item, m1, m2, dup)
                        &&& match dup {
                            Err(e) => after == m2 && r == Err::<JsonV, Seq<char>>(e),
                            Ok(d) => push_rest(
                                item,
                                pdf_path,
                                pdf_size,
                                ck,
                                d,
                                on_duplicate,
                                m2,
                                after,
                                r,
                            ),
                        }
                    },
            }
        }
}

/// An optional text by its view.
pub open spec fn opt_str_view(o: Option<&str>) -> Option<Seq<char>> {
    match o {
        Some(s) => Some(s@),
        None => None,
    }
}

/// A flag or the error that stopped it.
pub open spec fn flag_result(r: Result<bool, String>) -> Result<bool, Seq<char>> {
    match r {
        Ok(b) => Ok(b),
        Err(e) => Err(e@),
    }
}

/// Attaches the PDF, when there is one (see `pdf_attach_ran`).
fn attach_if_needed<C: RpcCaller>(client: &mut C, check: bool, pdf_path: Option<&str>, key: &str) -> (r:
    Result<bool, String>)
    ensures
        pdf_attach_ran(
            check,
            opt_str_view(pdf_path),
            key@,
            old(client).exchanges(),
            final(client).exchanges(),
            flag_result(r),
        ),
{
    let ghost before = client.exchanges();
    let path = match pdf_path {
        None => return Ok(false),
        Some(p) => p,
    };
    if check {
        let has = item_has_pdf_attachment(client, key);
        let ghost first = client.exchanges();
        proof {
            lemma_first_part(before, first, first);
        }
        match has {
            Err(e) => return Err(e),
            Ok(true) => return Ok(false),
            Ok(false) => {},
        }
        let r = match attach_pdf(client, key, path) {
            Ok(()) => Ok(true),
            Err(e) => Err(e),
        };
        proof {
            lemma_first_part(before, first, client.exchanges());
        }
        r
    } else {
        match attach_pdf(client, key, path) {
            Ok(()) => Ok(true),
            Err(e) => Err(e),
        }
    }
}

/// The parameters that update a duplicate (see `update_params`).
fn update_request(key: &str, payload: &Json) -> (r: Json)
    ensures
        r@ == update_params(key@, payload@),
{
    let mut m: Vec<(String, Json)> = Vec::new();
    push_member(&mut m, "key", Json::str(key));
    let fields = match payload.get("fields") {
        Some(f) => f.clone_json(),
        None => {
            let e = Json::Object(Vec::new());
            assert((e@->Object_0) =~= Seq::<(Seq<char>, JsonV)>::empty());
            e
        },
    };
    push_member(&mut m, "fields", fields);
    let ghost m0 = members_view(m@);
    match payload.get("creators") {
        Some(c) => push_member(&mut m, "creators", c.clone_json()),
        None => {},
    }
    let ghost m1 = members_view(m@);
    match payload.get("tags") {
        Some(t) => push_member(&mut m, "tags", t.clone_json()),
        None => {},
    }
    let ghost want = update_params(key@, payload@)->Object_0;
    assert(members_view(m@) =~= want);
    object_of(m)
}

/// Files an item into a collection (one `collections.addItems`), when `go`.
fn file_into<C: RpcCaller>(client: &mut C, go: bool, collection: &Json, key: &str) -> (r: Result<
    (),
    String,
>)
    ensures
        maybe_called(
            go,
            old(client).exchanges(),
            final(client).exchanges(),
            "collections.addItems"@,
            Some(add_items_params(collection@, key@)),
        ),
        match maybe_reply(go, final(client).exchanges()) {
            Err(e) => r matches Err(m) && m@ == e,
            Ok(_) => r is Ok,
        },
{
    if !go {
        return Ok(());
    }
    let mut keys: Vec<Json> = Vec::new();
    keys.push(Json::str(key));
    assert(keys@.map_values(|x: Json| x@) =~= seq![JsonV::Str(key@)]);
    let ka = Json::arr(keys);
    match ask(
        client,
        "collections.addItems",
        Some(Json::object2("key", collection.clone_json(), "keys", ka)),
    ) {
        Ok(_) => Ok(()),
        Err(e) => Err(e),
    }
}

/// Pushes an item into Zotero (see `push_ran`): files it into the named
/// collection (or the one selected in Zotero), and on finding a duplicate
/// skips or updates it as `on_duplicate` says (anything else creates a new
/// item). `pdf_path` is the PDF's path as Zotero sees it and `pdf_size` its
/// size in bytes, both as the caller checked them.
pub fn push_item<C: RpcCaller>(
    client: &mut C,
    item_json: &Json,
    pdf_path: Option<&str>,
    pdf_size: u64,
    collection: Option<&str>,
    on_duplicate: &str,
) -> (r: Result<Json, String>)
    ensures
        push_ran(
            item_json@,
            opt_str_view(pdf_path),
            pdf_size,
            opt_str_view(collection),
            on_duplicate@,
            old(client).exchanges(),
            final(client).exchanges(),
            json_result(r),
        ),
{
    let ghost before = client.exchanges();
    let target = match collection {
        Some(name) => resolve_collection(client, name),
        None => resolve_current_collection(client),
    };
    let ghost m1 = client.exchanges();
    let ghost tv = json_result(target);
    assert(push_target_ran(opt_str_view(collection), before, m1, tv));
    let ck = match target {
        Ok(k) => k,
        Err(e) => {
            assert(m1.subrange(0, m1.len() as int) =~= m1);
            return Err(e);
        },
    };
    let dup = find_duplicate(client, item_json);
    let ghost m2 = client.exchanges();
    let ghost dv = opt_key_result(dup);
    assert(duplicate_found(item_json@, m1, m2, dv));
    let r = push_after_lookup(client, item_json, pdf_path, pdf_size, &ck, dup, on_duplicate);
    proof {
        let after = client.exchanges();
        lemma_duplicate_prefix(item_json@, m1, m2, dv);
        lemma_prefix_trans(m1, m2, after);
        assert(prefix_of(m1, after));
        assert(prefix_of(m2, after));
    }
    r
}

proof fn lemma_called_prefix(b: Seq<Exchange>, a: Seq<Exchange>, m: Seq<char>, p: Option<JsonV>)
    requires
        called(b, a, m, p),
    ensures
        prefix_of(b, a),
{
    assert(a.subrange(0, b.len() as int) =~= a.drop_last());
}

proof fn lemma_title_prefix(
    t: Option<Seq<char>>,
    b: Seq<Exchange>,
    a: Seq<Exchange>,
    r: Result<Option<Seq<char>>, Seq<char>>,
)
    requires
        title_lookup(t, b, a, r),
    ensures
        prefix_of(b, a),
{
    if t is Some {
        lemma_called_prefix(b, a, "search.quick"@, Some(obj2("query"@, JsonV::Str(t->0), "limit"@, uint_json(20))));
    } else {
        assert(a.subrange(0, b.len() as int) =~= b);
    }
}

/// The duplicate search only adds calls.
proof fn lemma_duplicate_prefix(
    item: JsonV,
    b: Seq<Exchange>,
    a: Seq<Exchange>,
    r: Result<Option<Seq<char>>, Seq<char>>,
)
    requires
        duplicate_found(item, b, a, r),
    ensures
        prefix_of(b, a),
{
    match lookup_doi(item) {
        None => lemma_title_prefix(lookup_title(item), b, a, r),
        Some(d) => {
            let first = first_part(b, a);
            lemma_called_prefix(b, first, "search.byIdentifier"@, Some(obj1("doi"@, JsonV::Str(d))));
            if a != first {
                lemma_title_prefix(lookup_title(item), first, a, r);
                assert(a.subrange(0, b.len() as int) =~= first.subrange(0, b.len() as int));
            }
        },
    }
}

/// The first call is the start of everything after it.
proof fn lemma_first_part_prefix(before: Seq<Exchange>, mid: Seq<Exchange>, after: Seq<Exchange>)
    requires
        mid.len() == before.len() + 1,
        prefix_of(mid, after),
    ensures
        first_part(before, after) == mid,
        after.len() > before.len(),
{
}

proof fn lemma_prefix_trans(a: Seq<Exchange>, b: Seq<Exchange>, c: Seq<Exchange>)
    requires
        prefix_of(a, b),
        prefix_of(b, c),
    ensures
        prefix_of(a, c),
{
    assert(c.subrange(0, a.len() as int) =~= b.subrange(0, a.len() as int));
}

/// What `push_item` does once the duplicate search answered (or failed).
fn push_after_lookup<C: RpcCaller>(
    client: &mut C,
    item_json: &Json,
    pdf_path: Option<&str>,
    pdf_size: u64,
    ck: &Json,
    dup: Result<Option<String>, String>,
    on_duplicate: &str,
) -> (r: Result<Json, String>)
    ensures
        prefix_of(old(client).exchanges(), final(client).exchanges()),
        match opt_key_result(dup) {
            Err(e) => final(client).exchanges() == old(client).exchanges() && json_result(r) == Err::<
                JsonV,
                Seq<char>,
            >(e),
            Ok(d) => push_rest(
                item_json@,
                opt_str_view(pdf_path),
                pdf_size,
                ck@,
                d,
                on_duplicate@,
                old(client).exchanges(),
                final(client).exchanges(),
                json_result(r),
            ),
        },
{
    proof {
        reveal_strlit("skip");
        reveal_strlit("update");
        assert("skip"@.len() == 4);
        assert("update"@.len() == 6);
    }
    let ghost before = client.exchanges();
    let dup = match dup {
        Ok(d) => d,
        Err(e) => {
            assert(before.subrange(0, before.len() as int) =~= before);
            return Err(e);
        },
    };
    match &dup {
        Some(d) => if str_eq(on_duplicate, "skip") {
            let go = !is_library_root(ck);
            let filed = file_into(client, go, ck, d.as_str());
            let ghost mid = client.exchanges();
            proof {
                if go {
                    lemma_called_extends(before, mid, "collections.addItems"@, Some(add_items_params(ck@, d@)));
                } else {
                    assert(mid.subrange(0, before.len() as int) =~= before);
                }
            }
            match filed {
                Err(e) => {
                    assert(mid.subrange(0, mid.len() as int) =~= mid);
                    proof {
                        lemma_skip_witness(opt_str_view(pdf_path), pdf_size, ck@, d@, before, mid, mid, Ok(false), Err(e@));
                    }
                    return Err(e);
                },
                Ok(()) => {},
            }
            let att = attach_if_needed(client, true, pdf_path, d.as_str());
            let ghost fa = flag_result(att);
            let r = match att {
                Err(e) => Err(e),
                Ok(a) => Ok(
                    push_result(
                        "skipped_duplicate",
                        Some(to_string(d.as_str())),
                        a,
                        if a {
                            pdf_size
                        } else {
                            0
                        },
                        Json::Null,
                    ),
                ),
            };
            proof {
                let after = client.exchanges();
                lemma_attach_prefix(true, opt_str_view(pdf_path), d@, mid, after, fa);
                lemma_prefix_trans(before, mid, after);
                lemma_skip_witness(opt_str_view(pdf_path), pdf_size, ck@, d@, before, mid, after, fa, json_result(r));
            }
            return r;
        },
        None => {},
    }
    push_new_or_update(client, item_json, pdf_path, pdf_size, ck, dup, on_duplicate)
}

proof fn lemma_attach_prefix(
    check: bool,
    pdf_path: Option<Seq<char>>,
    key: Seq<char>,
    before: Seq<Exchange>,
    after: Seq<Exchange>,
    out: Result<bool, Seq<char>>,
)
    requires
        pdf_attach_ran(check, pdf_path, key, before, after, out),
    ensures
        prefix_of(before, after),
{
    if after == before {
        assert(after.subrange(0, before.len() as int) =~= before);
    } else if called(before, after, "attachments.add"@, Some(attach_params(key, pdf_path->0))) {
        assert(after.subrange(0, before.len() as int) =~= after.drop_last());
    } else {
        let first = first_part(before, after);
        assert(first.subrange(0, before.len() as int) =~= first.drop_last());
        assert(after.subrange(0, before.len() as int) =~= first.subrange(0, before.len() as int));
    }
}

/// Creates the item, or updates the duplicate, then attaches and files it.
fn push_new_or_update<C: RpcCaller>(
    client: &mut C,
    item_json: &Json,
    pdf_path: Option<&str>,
    pdf_size: u64,
    ck: &Json,
    dup: Option<String>,
    on_duplicate: &str,
) -> (r: Result<Json, String>)
    requires
        !(dup is Some && on_duplicate@ == "skip"@),
    ensures
        prefix_of(old(client).exchanges(), final(client).exchanges()),
        push_rest(
            item_json@,
            opt_str_view(pdf_path),
            pdf_size,
            ck@,
            opt_view(dup),
            on_duplicate@,
            old(client).exchanges(),
            final(client).exchanges(),
            json_result(r),
        ),
{
    let ghost before = client.exchanges();
    let payload = to_xpi_payload(item_json, Some(ck));
    let updated = dup.is_some() && str_eq(on_duplicate, "update");
    let reply = if updated {
        let d = match &dup {
            Some(d) => d,
            None => return Err(String::new()),
        };
        ask(client, "items.update", Some(update_request(d.as_str(), &payload)))
    } else {
        ask(client, "items.create", Some(payload))
    };
    let ghost first = client.exchanges();
    proof {
        lemma_first_part(before, first, first);
    }
    let v = match reply {
        Ok(v) => v,
        Err(e) => {
            assert(first.subrange(0, before.len() as int) =~= first.drop_last());
            return Err(e);
        },
    };
    let key: String = if updated {
        match &dup {
            Some(d) => to_string(d.as_str()),
            None => String::new(),
        }
    } else {
        let k = v.at("key");
        match k.as_str() {
            Some(s) => to_string(s),
            None => {
                let d = json_debug(&v);
                assert(first.subrange(0, before.len() as int) =~= first.drop_last());
                return Err(message("items.create returned unexpected shape: ", d.as_str()));
            },
        }
    };
    let att = attach_if_needed(client, updated, pdf_path, key.as_str());
    let ghost mid = client.exchanges();
    let ghost fa = flag_result(att);
    proof {
        lemma_attach_prefix(updated, opt_str_view(pdf_path), key@, first, mid, fa);
    }
    proof {
        assert(first.subrange(0, before.len() as int) =~= first.drop_last());
        lemma_prefix_trans(before, first, mid);
        lemma_first_part_prefix(before, first, mid);
    }
    let a = match att {
        Err(e) => {
            assert(mid.subrange(0, mid.len() as int) =~= mid);
            proof {
                lemma_push_finish_witness(updated, opt_str_view(pdf_path), pdf_size, ck@, key@, first, mid, mid, fa, Err(e@));
            }
            return Err(e);
        },
        Ok(a) => a,
    };
    let go = updated && !is_library_root(ck);
    let filed = file_into(client, go, ck, key.as_str());
    let status = if updated {
        "updated"
    } else {
        "created"
    };
    let r = match filed {
        Err(e) => Err(e),
        Ok(()) => Ok(
            push_result(
                status,
                Some(key),
                a,
                if a {
                    pdf_size
                } else {
                    0
                },
                Json::Null,
            ),
        ),
    };
    proof {
        let after = client.exchanges();
        if go {
            assert(after.subrange(0, mid.len() as int) =~= after.drop_last());
        } else {
            assert(after.subrange(0, mid.len() as int) =~= mid);
        }
        lemma_push_finish_witness(updated, opt_str_view(pdf_path), pdf_size, ck@, key@, first, mid, after, fa, json_result(r));
        lemma_prefix_trans(before, mid, after);
        lemma_prefix_trans(first, mid, after);
        lemma_first_part_prefix(before, first, after);
    }
    r
}

proof fn lemma_skip_witness(
    pdf_path: Option<Seq<char>>,
    pdf_size: u64,
    collection: JsonV,
    d: Seq<char>,
    before: Seq<Exchange>,
    mid: Seq<Exchange>,
    after: Seq<Exchange>,
    att: Result<bool, Seq<char>>,
    r: Result<JsonV, Seq<char>>,
)
    requires
        prefix_of(mid, after),
        maybe_called(
            !library_root(collection),
            before,
            mid,
            "collections.addItems"@,
            Some(add_items_params(collection, d)),
        ),
        match maybe_reply(!library_root(collection), mid) {
            Err(e) => after == mid && r == Err::<JsonV, Seq<char>>(e),
            Ok(_) => pdf_attach_ran(true, pdf_path, d, mid, after, att) && r == match att {
                Err(e) => Err(e),
                Ok(a) => Ok(
                    push_json(
                        "skipped_duplicate"@,
                        Some(d),
                        a,
                        if a {
                            pdf_size
                        } else {
                            0
                        },
                        JsonV::Null,
                    ),
                ),
            },
        },
    ensures
        skip_ran(pdf_path, pdf_size, collection, d, before, after, r),
{
    if pdf_attach_ran(true, pdf_path, d, mid, after, att) {
    } else {
    }
}

proof fn lemma_push_finish_witness(
    updated: bool,
    pdf_path: Option<Seq<char>>,
    pdf_size: u64,
    collection: JsonV,
    key: Seq<char>,
    before: Seq<Exchange>,
    mid: Seq<Exchange>,
    after: Seq<Exchange>,
    att: Result<bool, Seq<char>>,
    r: Result<JsonV, Seq<char>>,
)
    requires
        prefix_of(mid, after),
        pdf_attach_ran(updated, pdf_path, key, before, mid, att),
        match att {
            Err(e) => after == mid && r == Err::<JsonV, Seq<char>>(e),
            Ok(a) => {
                let file = updated && !library_root(collection);
                &&& maybe_called(
                    file,
                    mid,
                    after,
                    "collections.addItems"@,
                    Some(add_items_params(collection, key)),
                )
                &&& r == match maybe_reply(file, after) {
                    Err(e) => Err(e),
                    Ok(_) => Ok(
                        push_json(
                            if updated {
                                "updated"@
                            } else {
                                "created"@
                            },
                            Some(key),
                            a,
                            if a {
                                pdf_size
                            } else {
                                0
                            },
                            JsonV::Null,
                        ),
                    ),
                }
            },
        },
    ensures
        push_finish(updated, pdf_path, pdf_size, collection, key, before, after, r),
{
}

/// Refuses an `--on-duplicate` mode other than skip, update or create.
pub fn check_on_duplicate(on_duplicate: &str) -> (r: Result<(), String>)
    ensures
        r is Ok <==> (on_duplicate@ == "skip"@ || on_duplicate@ == "update"@ || on_duplicate@
            == "create"@),
        r matches Err(m) ==> m@ == "INVALID_ARGS: --on-duplicate must be skip|update|create, got "@
            + debug_text(on_duplicate@),
{
    if str_eq(on_duplicate, "skip") || str_eq(on_duplicate, "update") || str_eq(on_duplicate, "create") {
        Ok(())
    } else {
        let d = debug_quote(on_duplicate);
        Err(message("INVALID_ARGS: --on-duplicate must be skip|update|create, got ", d.as_str()))
    }
}

/// An item with its `_pdf` member taken out.
pub open spec fn stripped(item: JsonV) -> JsonV {
    match item {
        JsonV::Object(m) => JsonV::Object(without_member(m, "_pdf"@)),
        _ => item,
    }
}

/// What a push starts from: the item read from the input JSON, which must
/// have a non-empty `itemType`, without its `_pdf`; and the PDF to attach,
/// `--pdf` over the embedded `_pdf`.
pub open spec fn push_plan(payload: Seq<char>, pdf: Option<Seq<char>>) -> Result<
    (JsonV, Option<Seq<char>>),
    Seq<char>,
> {
    match json_parse(payload) {
        Err(e) => Err("INVALID_JSON: Could not parse JSON: "@ + e),
        Ok(item) => {
            let typed = match as_str(at(item, "itemType"@)) {
                Some(t) => t.len() > 0,
                None => false,
            };
            if !typed {
                Err("INVALID_ARGS: input JSON must include a non-empty \"itemType\" field"@)
            } else {
                match embedded_pdf(item) {
                    Err(e) => Err(e),
                    Ok(emb) => Ok(
                        (
                            stripped(item),
                            match pdf {
                                Some(p) => Some(p),
                                None => emb,
                            },
                        ),
                    ),
                }
            }
        },
    }
}

/// Reads the item a push imports (see `push_plan`).
pub fn prepare_push(payload: &str, pdf: Option<String>) -> (r: Result<(Json, Option<String>), String>)
    ensures
        match (r, push_plan(payload@, opt_view(pdf))) {
            (Ok((item, p)), Ok((w, q))) => item@ == w && opt_view(p) == q,
            (Err(e), Err(f)) => e@ == f,
            _ => false,
        },
{
    let mut item = match parse_json(payload) {
        Ok(v) => v,
        Err(e) => return Err(message("INVALID_JSON: Could not parse JSON: ", e.as_str())),
    };
    let t = item.at("itemType");
    let typed = match t.as_str() {
        Some(s) => chars_of(s).len() > 0,
        None => false,
    };
    if !typed {
        return Err(to_string("INVALID_ARGS: input JSON must include a non-empty \"itemType\" field"));
    }
    let embedded = match take_embedded_pdf(&mut item) {
        Ok(e) => e,
        Err(e) => return Err(e),
    };
    let source = match pdf {
        Some(p) => Some(p),
        None => embedded,
    };
    Ok((item, source))
}

/// A member's value, or null.
pub open spec fn or_null(o: Option<JsonV>) -> JsonV {
    match o {
        Some(v) => v,
        None => JsonV::Null,
    }
}

/// What a dry-run push prints: what it would push, and where.
pub open spec fn would_push(
    item: JsonV,
    collection_key: JsonV,
    pdf: Option<Seq<char>>,
    on_duplicate: Seq<char>,
) -> JsonV {
    obj3(
        "ok"@,
        JsonV::Bool(true),
        "dryRun"@,
        JsonV::Bool(true),
        "wouldPush"@,
        JsonV::Object(
            seq![
                ("title"@, or_null(get(item, "title"@))),
                ("itemType"@, or_null(get(item, "itemType"@))),
                ("collectionKey"@, collection_key),
                ("pdfPath"@, match pdf {
                    Some(p) => JsonV::Str(p),
                    None => JsonV::Null,
                }),
                ("onDuplicate"@, JsonV::Str(on_duplicate)),
            ],
        ),
    )
}

fn member_or_null(v: &Json, key: &str) -> (r: Json)
    ensures
        r@ == or_null(get(v@, key@)),
{
    match v.get(key) {
        Some(x) => x.clone_json(),
        None => Json::Null,
    }
}

/// A dry-run push: resolves the collection when one is named, and prints
/// what it would push (see `would_push`).
pub fn push_dry_run<C: RpcCaller>(
    client: &mut C,
    item_json: &Json,
    pdf: &Option<String>,
    collection: Option<&str>,
    on_duplicate: &str,
) -> (r: Result<String, String>)
    ensures
        match collection {
            None => final(client).exchanges() == old(client).exchanges() && text_result(r) == Ok::<
                Seq<char>,
                Seq<char>,
            >(json_output(would_push(item_json@, JsonV::Null, opt_view(*pdf), on_duplicate@))),
            Some(n) => resolving(old(client).exchanges(), final(client).exchanges(), n@) && text_result(
                r,
            ) == match resolution(n@, final(client).exchanges()) {
                Err(e) => Err(e),
                Ok(k) => Ok(json_output(would_push(item_json@, k, opt_view(*pdf), on_duplicate@))),
            },
        },
{
    let key = match collection {
        Some(n) => match resolve_collection(client, n) {
            Ok(k) => k,
            Err(e) => return Err(e),
        },
        None => Json::Null,
    };
    let ghost kv = key@;
    let path = match pdf {
        Some(p) => Json::str(p.as_str()),
        None => Json::Null,
    };
    let mut m: Vec<(String, Json)> = Vec::new();
    push_member(&mut m, "title", member_or_null(item_json, "title"));
    push_member(&mut m, "itemType", member_or_null(item_json, "itemType"));
    push_member(&mut m, "collectionKey", key);
    push_member(&mut m, "pdfPath", path);
    push_member(&mut m, "onDuplicate", Json::str(on_duplicate));
    assert(members_view(m@) =~= seq![
        ("title"@, or_null(get(item_json@, "title"@))),
        ("itemType"@, or_null(get(item_json@, "itemType"@))),
        ("collectionKey"@, kv),
        ("pdfPath"@, match opt_view(*pdf) {
            Some(p) => JsonV::Str(p),
            None => JsonV::Null,
        }),
        ("onDuplicate"@, JsonV::Str(on_duplicate@)),
    ]);
    let inner = object_of(m);
    let ghost lit = seq![
        ("title"@, or_null(get(item_json@, "title"@))),
        ("itemType"@, or_null(get(item_json@, "itemType"@))),
        ("collectionKey"@, kv),
        ("pdfPath"@, match opt_view(*pdf) {
            Some(p) => JsonV::Str(p),
            None => JsonV::Null,
        }),
        ("onDuplicate"@, JsonV::Str(on_duplicate@)),
    ];
    assert(members_view(m@) == lit);
    assert(inner@ == JsonV::Object(lit));
    let out = Json::object3("ok", Json::boolean(true), "dryRun", Json::boolean(true), "wouldPush", inner);
    let ghost want = would_push(item_json@, kv, opt_view(*pdf), on_duplicate@);
    assert((want->Object_0)[2].1->Object_0 =~= lit);
    assert((out@->Object_0) =~= (want->Object_0));
    format_json(&out)
}

// ---------------------------------------------------------------------------
// Finding PDFs for a collection's items.
// ---------------------------------------------------------------------------

/// Where the scan for items without a PDF stands after some records: the
/// records found missing one, the calls used, and whether the limit was
/// reached; or the error that stopped it; or calls off the protocol.
pub enum PdfScan {
    Scanned { missing: Seq<JsonV>, used: nat, full: bool },
    Failed { error: Seq<char>, used: nat },
    Off,
}

/// The scan over the first `n` records: each record with a key gets one
/// `attachments.list`, and is kept when it lists no PDF; the scan stops once
/// `limit` (when positive) records are kept.
pub open spec fn pdf_scan(items: Seq<JsonV>, limit: nat, made: Seq<Exchange>, n: nat) -> PdfScan
    decreases n,
{
    if n == 0 {
        PdfScan::Scanned { missing: seq![], used: 0, full: false }
    } else {
        match pdf_scan(items, limit, made, (n - 1) as nat) {
            PdfScan::Scanned { missing, used, full } => if full {
                PdfScan::Scanned { missing, used, full }
            } else {
                let item = items[n - 1];
                match as_str(at(item, "key"@)) {
                    None => PdfScan::Scanned { missing, used, full: false },
                    Some(k) => if used < made.len() && made[used as int].method == "attachments.list"@
                        && made[used as int].params == Some(obj1("parentKey"@, JsonV::Str(k))) {
                        match made[used as int].reply {
                            Err(e) => PdfScan::Failed { error: e, used: used + 1 },
                            Ok(att) => {
                                let m2 = if lists_pdf(att) {
                                    missing
                                } else {
                                    missing.push(item)
                                };
                                PdfScan::Scanned {
                                    missing: m2,
                                    used: used + 1,
                                    full: limit > 0 && m2.len() >= limit,
                                }
                            },
                        }
                    } else {
                        PdfScan::Off
                    },
                }
            },
            other => other,
        }
    }
}

/// The record reported for one item: its key and title, whether a PDF was
/// found, and the new attachment's key.
pub open spec fn pdf_find_result(key: Seq<char>, item: JsonV, reply: JsonV) -> JsonV {
    let attachment = match get(reply, "attachment"@) {
        Some(a) => if a is Null {
            None
        } else {
            Some(a)
        },
        None => None,
    };
    JsonV::Object(
        seq![
            ("item_key"@, JsonV::Str(key)),
            ("title"@, or_null(get(item, "title"@))),
            ("found"@, JsonV::Bool(attachment is Some)),
            ("attachment_key"@, match attachment {
                Some(a) => or_null(get(a, "key"@)),
                None => JsonV::Null,
            }),
        ],
    )
}

/// The search for PDFs of the first `n` missing records: one
/// `attachments.findPDF` each, from call `start` on; the results, or the
/// error that stopped it, with the calls used; `None` off the protocol.
pub open spec fn pdf_finds(missing: Seq<JsonV>, made: Seq<Exchange>, start: nat, n: nat) -> Option<
    (Result<Seq<JsonV>, Seq<char>>, nat),
>
    decreases n,
{
    if n == 0 {
        Some((Ok(seq![]), start))
    } else {
        match pdf_finds(missing, made, start, (n - 1) as nat) {
            Some((Ok(rs), used)) => {
                let item = missing[n - 1];
                match as_str(at(item, "key"@)) {
                    None => Some((Err("missing item lacks key"@), used)),
                    Some(k) => if used < made.len() && made[used as int].method
                        == "attachments.findPDF"@ && made[used as int].params == Some(
                        obj1("parentKey"@, JsonV::Str(k)),
                    ) {
                        match made[used as int].reply {
                            Err(e) => Some((Err(e), used + 1)),
                            Ok(resp) => Some((Ok(rs.push(pdf_find_result(k, item, resp))), used + 1)),
                        }
                    } else {
                        None
                    },
                }
            },
            other => other,
        }
    }
}

/// What finding PDFs does after `collections.getItems` answered with
/// `items`: the scan, then one search per missing record, then the report.
pub open spec fn pdf_search_ran(
    items: Seq<JsonV>,
    limit: nat,
    made: Seq<Exchange>,
    r: Result<JsonV, Seq<char>>,
) -> bool {
    match pdf_scan(items, limit, made, items.len()) {
        PdfScan::Off => false,
        PdfScan::Failed { error, used } => made.len() == used && r == Err::<JsonV, Seq<char>>(error),
        PdfScan::Scanned { missing, used, full: _ } => match pdf_finds(
            missing,
            made,
            used,
            missing.len(),
        ) {
            None => false,
            Some((Err(e), n)) => made.len() == n && r == Err::<JsonV, Seq<char>>(e),
            Some((Ok(rs), n)) => made.len() == n && r == Ok::<JsonV, Seq<char>>(
                obj3(
                    "scanned"@,
                    uint_json(items.len() as u64),
                    "attempted"@,
                    uint_json(missing.len() as u64),
                    "results"@,
                    JsonV::Array(rs),
                ),
            ),
        },
    }
}

/// What `items find-pdfs` does: resolve the collection, list its items, and
/// search PDFs for those without one (see `pdf_search_ran`).
pub open spec fn find_pdfs_ran(
    collection: Seq<char>,
    limit: nat,
    before: Seq<Exchange>,
    after: Seq<Exchange>,
    r: Result<JsonV, Seq<char>>,
) -> bool {
    let mid = resolved_part(before, after, collection);
    &&& resolves_first(before, after, collection)
    &&& match resolution(collection, mid) {
        Err(e) => after == mid && r == Err::<JsonV, Seq<char>>(e),
        Ok(k) => {
            let first = first_part(mid, after);
            &&& after.len() > mid.len()
            &&& called(mid, first, "collections.getItems"@, Some(obj1("key"@, k)))
            &&& match replied(first) {
                Err(e) => after == first && r == Err::<JsonV, Seq<char>>(e),
                Ok(resp) => pdf_search_ran(reply_rows(resp), limit, made_since(first, after), r),
            }
        },
    }
}

/// The calls a scan state has used.
pub open spec fn scan_used(s: PdfScan) -> nat {
    match s {
        PdfScan::Scanned { used, .. } => used,
        PdfScan::Failed { used, .. } => used,
        PdfScan::Off => 0,
    }
}

/// A scan only reads the calls it used: more calls after them change
/// nothing.
proof fn lemma_scan_extends(items: Seq<JsonV>, limit: nat, m1: Seq<Exchange>, m2: Seq<Exchange>, n: nat)
    requires
        n <= items.len(),
        m1.len() <= m2.len(),
        m2.subrange(0, m1.len() as int) == m1,
        !(pdf_scan(items, limit, m1, n) is Off),
    ensures
        pdf_scan(items, limit, m2, n) == pdf_scan(items, limit, m1, n),
        scan_used(pdf_scan(items, limit, m1, n)) <= m1.len(),
    decreases n,
{
    if n > 0 {
        lemma_scan_extends(items, limit, m1, m2, (n - 1) as nat);
        let prev = pdf_scan(items, limit, m1, (n - 1) as nat);
        if let PdfScan::Scanned { missing, used, full } = prev {
            if !full {
                if used < m1.len() {
                    assert(m2[used as int] == m1[used as int]);
                }
            }
        }
    }
}

/// Once failed, a scan stays as it is.
proof fn lemma_scan_failed(items: Seq<JsonV>, limit: nat, m: Seq<Exchange>, i: nat, n: nat)
    requires
        i <= n <= items.len(),
        pdf_scan(items, limit, m, i) is Failed,
    ensures
        pdf_scan(items, limit, m, n) == pdf_scan(items, limit, m, i),
    decreases n - i,
{
    if i < n {
        lemma_scan_failed(items, limit, m, i, (n - 1) as nat);
    }
}

/// Once an error stops them, the finds stay as they are.
proof fn lemma_finds_failed(missing: Seq<JsonV>, m: Seq<Exchange>, start: nat, i: nat, n: nat)
    requires
        i <= n <= missing.len(),
        pdf_finds(missing, m, start, i) matches Some((res, _)) && res is Err,
    ensures
        pdf_finds(missing, m, start, n) == pdf_finds(missing, m, start, i),
    decreases n - i,
{
    if i < n {
        lemma_finds_failed(missing, m, start, i, (n - 1) as nat);
    }
}

/// Once full, a scan stays as it is.
proof fn lemma_scan_full(items: Seq<JsonV>, limit: nat, m: Seq<Exchange>, i: nat, n: nat)
    requires
        i <= n <= items.len(),
        pdf_scan(items, limit, m, i) matches PdfScan::Scanned { full, .. } && full,
    ensures
        pdf_scan(items, limit, m, n) == pdf_scan(items, limit, m, i),
    decreases n - i,
{
    if i < n {
        lemma_scan_full(items, limit, m, i, (n - 1) as nat);
    }
}

/// The finds only read the calls they used.
proof fn lemma_finds_extends(missing: Seq<JsonV>, m1: Seq<Exchange>, m2: Seq<Exchange>, start: nat, n: nat)
    requires
        n <= missing.len(),
        m1.len() <= m2.len(),
        m2.subrange(0, m1.len() as int) == m1,
        pdf_finds(missing, m1, start, n) is Some,
    ensures
        pdf_finds(missing, m2, start, n) == pdf_finds(missing, m1, start, n),
    decreases n,
{
    if n > 0 {
        lemma_finds_extends(missing, m1, m2, start, (n - 1) as nat);
        if let Some((Ok(rs), used)) = pdf_finds(missing, m1, start, (n - 1) as nat) {
            if used < m1.len() {
                assert(m2[used as int] == m1[used as int]);
            }
        }
    }
}

proof fn lemma_extends_push(start: Seq<Exchange>, before: Seq<Exchange>, after: Seq<Exchange>)
    requires
        extends(start, before),
        after.len() == before.len() + 1,
        after.drop_last() == before,
    ensures
        extends(start, after),
        made_since(start, after).drop_last() == made_since(start, before),
        made_since(start, after).last() == after.last(),
        made_since(start, after).subrange(0, made_since(start, before).len() as int) == made_since(
            start,
            before,
        ),
{
    assert(after.subrange(0, start.len() as int) =~= before.subrange(0, start.len() as int));
    assert(made_since(start, after).drop_last() =~= made_since(start, before));
    assert(made_since(start, after).subrange(0, made_since(start, before).len() as int)
        =~= made_since(start, before));
}

fn pdf_find_record(key: &str, item: &Json, reply: &Json) -> (r: Json)
    ensures
        r@ == pdf_find_result(key@, item@, reply@),
{
    let att: Option<&Json> = match reply.get("attachment") {
        Some(a) => if a.is_null() {
            None
        } else {
            Some(a)
        },
        None => None,
    };
    let found = att.is_some();
    let att_key = match att {
        Some(a) => member_or_null(a, "key"),
        None => Json::Null,
    };
    let mut m: Vec<(String, Json)> = Vec::new();
    push_member(&mut m, "item_key", Json::str(key));
    push_member(&mut m, "title", member_or_null(item, "title"));
    push_member(&mut m, "found", Json::boolean(found));
    push_member(&mut m, "attachment_key", att_key);
    let ghost want = pdf_find_result(key@, item@, reply@);
    assert(members_view(m@) =~= want->Object_0);
    object_of(m)
}

/// Scans a collection's records for those without a PDF, then searches a
/// PDF for each (see `pdf_search_ran`).
fn find_pdfs_in<C: RpcCaller>(client: &mut C, items: &Vec<Json>, limit: usize) -> (r: Result<Json, String>)
    ensures
        extends(old(client).exchanges(), final(client).exchanges()),
        pdf_search_ran(
            items@.map_values(|x: Json| x@),
            limit as nat,
            made_since(old(client).exchanges(), final(client).exchanges()),
            json_result(r),
        ),
{
    let ghost start = client.exchanges();
    let ghost iv = items@.map_values(|x: Json| x@);
    let mut missing: Vec<Json> = Vec::new();
    let mut i: usize = 0;
    let mut full = false;
    let ghost mut used: nat = 0;
    assert(start.subrange(0, start.len() as int) =~= start);
    assert(made_since(start, start) =~= Seq::<Exchange>::empty());
    assert(missing@.map_values(|x: Json| x@) =~= Seq::<JsonV>::empty());
    while i < items.len() && !full
        invariant
            start == old(client).exchanges(),
            i <= items@.len(),
            iv == items@.map_values(|x: Json| x@),
            extends(start, client.exchanges()),
            made_since(start, client.exchanges()).len() == used,
            pdf_scan(iv, limit as nat, made_since(start, client.exchanges()), i as nat) == (PdfScan::Scanned {
                missing: missing@.map_values(|x: Json| x@),
                used,
                full,
            }),
        decreases items.len() - i,
    {
        let ghost made0 = made_since(start, client.exchanges());
        let ghost mv0 = missing@.map_values(|x: Json| x@);
        let k = items[i].at("key");
        match k.as_str() {
            None => {},
            Some(key) => {
                let ghost before_call = client.exchanges();
                let att = ask(
                    client,
                    "attachments.list",
                    Some(Json::object1("parentKey", Json::str(key))),
                );
                let ghost made1 = made_since(start, client.exchanges());
                proof {
                    lemma_extends_push(start, before_call, client.exchanges());
                    lemma_scan_extends(iv, limit as nat, made0, made1, i as nat);
                    assert(made1[used as int] == client.exchanges().last());
                }
                let a = match att {
                    Ok(a) => a,
                    Err(e) => {
                        proof {
                            lemma_scan_failed(iv, limit as nat, made1, (i + 1) as nat, iv.len());
                        }
                        return Err(e);
                    },
                };
                if !has_pdf_attachment(&a) {
                    missing.push(items[i].clone_json());
                    assert(missing@.map_values(|x: Json| x@) =~= mv0.push(iv[i as int]));
                }
                proof {
                    used = used + 1;
                }
                if limit > 0 && missing.len() >= limit {
                    full = true;
                }
            },
        }
        i += 1;
    }
    let ghost scanned = made_since(start, client.exchanges());
    proof {
        if full {
            lemma_scan_full(iv, limit as nat, scanned, i as nat, iv.len());
        }
    }
    let ghost used0 = used;
    let ghost mv = missing@.map_values(|x: Json| x@);
    let mut results: Vec<Json> = Vec::new();
    let mut k: usize = 0;
    assert(results@.map_values(|x: Json| x@) =~= Seq::<JsonV>::empty());
    while k < missing.len()
        invariant
            start == old(client).exchanges(),
            iv == items@.map_values(|x: Json| x@),
            k <= missing@.len(),
            mv == missing@.map_values(|x: Json| x@),
            extends(start, client.exchanges()),
            scanned.len() == used0,
            made_since(start, client.exchanges()).len() == used0 + k,
            made_since(start, client.exchanges()).subrange(0, scanned.len() as int) == scanned,
            pdf_scan(iv, limit as nat, scanned, iv.len()) == (PdfScan::Scanned {
                missing: mv,
                used: used0,
                full,
            }),
            pdf_finds(mv, made_since(start, client.exchanges()), used0, k as nat) == Some(
                (Ok::<Seq<JsonV>, Seq<char>>(results@.map_values(|x: Json| x@)), (used0 + k) as nat),
            ),
        decreases missing.len() - k,
    {
        let ghost made0 = made_since(start, client.exchanges());
        let ghost rv0 = results@.map_values(|x: Json| x@);
        let kk = missing[k].at("key");
        let key = match kk.as_str() {
            Some(s) => s,
            None => {
                proof {
                    assert(mv[k as int] == missing@[k as int]@);
                    assert(pdf_finds(mv, made0, used0, (k + 1) as nat) == Some(
                        (Err::<Seq<JsonV>, Seq<char>>("missing item lacks key"@), (used0 + k) as nat),
                    ));
                    lemma_finds_failed(mv, made0, used0, (k + 1) as nat, mv.len());
                    lemma_scan_extends(iv, limit as nat, scanned, made0, iv.len());
                }
                return Err(to_string("missing item lacks key"));
            },
        };
        let ghost before_call = client.exchanges();
        let resp = ask(client, "attachments.findPDF", Some(Json::object1("parentKey", Json::str(key))));
        let ghost made1 = made_since(start, client.exchanges());
        proof {
            lemma_extends_push(start, before_call, client.exchanges());
            lemma_finds_extends(mv, made0, made1, used0, k as nat);
            assert(made1[(used0 + k) as int] == client.exchanges().last());
            assert(made1.subrange(0, scanned.len() as int) =~= made0.subrange(0, scanned.len() as int));
        }
        let resp = match resp {
            Ok(v) => v,
            Err(e) => {
                proof {
                    lemma_scan_extends(iv, limit as nat, scanned, made1, iv.len());
                    assert(mv[k as int] == missing@[k as int]@);
                    assert(pdf_finds(mv, made1, used0, (k + 1) as nat) == Some(
                        (Err::<Seq<JsonV>, Seq<char>>(e@), (used0 + k + 1) as nat),
                    ));
                    lemma_finds_failed(mv, made1, used0, (k + 1) as nat, mv.len());
                }
                return Err(e);
            },
        };
        let rec = pdf_find_record(key, &missing[k], &resp);
        results.push(rec);
        assert(results@.map_values(|x: Json| x@) =~= rv0.push(
            pdf_find_result(key@, mv[k as int], resp@),
        ));
        k += 1;
    }
    let ghost fin = made_since(start, client.exchanges());
    proof {
        lemma_scan_extends(iv, limit as nat, scanned, fin, iv.len());
    }
    let n_items = items.len();
    let n_missing = missing.len();
    Ok(
        Json::object3(
            "scanned",
            Json::uint(n_items as u64),
            "attempted",
            Json::uint(n_missing as u64),
            "results",
            Json::arr(results),
        ),
    )
}

/// Finds PDFs for a collection's items that have none (see
/// `find_pdfs_ran`).
pub fn run_find_pdfs_command<C: RpcCaller>(client: &mut C, collection: &str, limit: usize) -> (r:
    Result<Json, String>)
    ensures
        find_pdfs_ran(collection@, limit as nat, old(client).exchanges(), final(client).exchanges(), json_result(r)),
{
    let ghost before = client.exchanges();
    let key = resolve_collection(client, collection);
    let ghost mid = client.exchanges();
    let k = match key {
        Ok(k) => k,
        Err(e) => {
            proof {
                lemma_resolved_part(before, mid, mid, collection@);
            }
            return Err(e);
        },
    };
    let response = ask(client, "collections.getItems", Some(Json::object1("key", k)));
    let ghost first = client.exchanges();
    proof {
        lemma_resolved_part(before, mid, first, collection@);
        lemma_first_part(mid, first, first);
    }
    let response = match response {
        Ok(v) => v,
        Err(e) => return Err(e),
    };
    let items = collection_items(&response);
    let r = find_pdfs_in(client, &items, limit);
    proof {
        let after = client.exchanges();
        assert(after.subrange(0, first.len() as int) == first);
        assert(after.subrange(0, mid.len() as int) =~= first.subrange(0, mid.len() as int));
        assert(first.subrange(0, mid.len() as int) =~= first.drop_last());
        lemma_first_part_prefix(mid, first, after);
        assert(resolved_part(before, after, collection@) =~= mid);
    }
    r
}

// ---------------------------------------------------------------------------
// Raw calls.
// ---------------------------------------------------------------------------

/// What `zotron rpc` does: the parameters must be a JSON object; then one
/// call of the method, or the method paged through (see `paging`).
pub open spec fn rpc_ran(
    method: Seq<char>,
    params_json: Seq<char>,
    paginate: bool,
    page_size: usize,
    before: Seq<Exchange>,
    after: Seq<Exchange>,
    r: Result<JsonV, Seq<char>>,
) -> bool {
    match json_parse(params_json) {
        Err(e) => after == before && r == Err::<JsonV, Seq<char>>(
            "INVALID_JSON: params must be a JSON object: "@ + e,
        ),
        Ok(p) => if !(p is Object) {
            after == before && r == Err::<JsonV, Seq<char>>(
                "INVALID_JSON: params must be a JSON object"@,
            )
        } else if paginate {
            extends(before, after) && paging(method, p, page_size as nat, made_since(before, after))
                == Paging::Finished(r)
        } else {
            answered(before, after, method, Some(p), r)
        },
    }
}

/// Runs `zotron rpc`: a raw call with JSON parameters (see `rpc_ran`).
pub fn run_rpc_command<C: RpcCaller>(
    client: &mut C,
    method: &str,
    params_json: &str,
    paginate: bool,
    page_size: usize,
) -> (r: Result<Json, String>)
    ensures
        rpc_ran(
            method@,
            params_json@,
            paginate,
            page_size,
            old(client).exchanges(),
            final(client).exchanges(),
            json_result(r),
        ),
{
    let params = match parse_json(params_json) {
        Ok(p) => p,
        Err(e) => return Err(message("INVALID_JSON: params must be a JSON object: ", e.as_str())),
    };
    if !params.is_object() {
        return Err(to_string("INVALID_JSON: params must be a JSON object"));
    }
    if paginate {
        paginate_rpc(client, method, params, page_size)
    } else {
        ask(client, method, Some(params))
    }
}

/// Runs `zotron ping`: one `system.ping`.
pub fn run_ping<C: RpcCaller>(client: &mut C) -> (r: Result<Json, String>)
    ensures
        answered(old(client).exchanges(), final(client).exchanges(), "system.ping"@, None, json_result(r)),
{
    ask(client, "system.ping", None)
}

// ---------------------------------------------------------------------------
// Dry runs.
// ---------------------------------------------------------------------------

/// Every call made between `before` and `after` is a lookup of the
/// collections (`collections.list`), the one call a dry run may need.
pub open spec fn only_lookups(before: Seq<Exchange>, after: Seq<Exchange>) -> bool {
    &&& prefix_of(before, after)
    &&& forall|i: int|
        before.len() <= i < after.len() ==> (#[trigger] after[i]).method == "collections.list"@
}

pub open spec fn collections_dry(cmd: CollectionsCommand) -> bool {
    match cmd {
        CollectionsCommand::Rename { dry_run, .. } => dry_run,
        CollectionsCommand::Create { dry_run, .. } => dry_run,
        CollectionsCommand::Delete { dry_run, .. } => dry_run,
        CollectionsCommand::AddItems { dry_run, .. } => dry_run,
        CollectionsCommand::RemoveItems { dry_run, .. } => dry_run,
        _ => false,
    }
}

proof fn lemma_lookups_only(before: Seq<Exchange>, mid: Seq<Exchange>, after: Seq<Exchange>, name: Seq<char>)
    requires
        resolves_first(before, after, name),
        mid == resolved_part(before, after, name),
        after == mid,
    ensures
        only_lookups(before, after),
{
    if resolve_steps(name) == 0 {
        assert(after.subrange(0, before.len() as int) =~= before);
    } else {
        assert(after.subrange(0, before.len() as int) =~= after.drop_last());
    }
}

/// A dry run of a collections command changes nothing: at most it looks the
/// collection up.
pub proof fn law_collections_dry_run_only_looks_up(
    cmd: CollectionsCommand,
    before: Seq<Exchange>,
    after: Seq<Exchange>,
    r: Result<JsonV, Seq<char>>,
)
    requires
        collections_ran(cmd, before, after, r),
        collections_dry(cmd),
    ensures
        only_lookups(before, after),
{
    match cmd {
        CollectionsCommand::Rename { old_name, .. } => {
            lemma_lookups_only(before, resolved_part(before, after, old_name@), after, old_name@);
        },
        CollectionsCommand::Create { parent, .. } => match parent {
            None => {
                assert(after.subrange(0, before.len() as int) =~= before);
            },
            Some(p) => {
                lemma_lookups_only(before, resolved_part(before, after, p@), after, p@);
            },
        },
        CollectionsCommand::Delete { name_or_id, .. } => {
            lemma_lookups_only(before, resolved_part(before, after, name_or_id@), after, name_or_id@);
        },
        CollectionsCommand::AddItems { collection, .. } => {
            lemma_lookups_only(before, resolved_part(before, after, collection@), after, collection@);
        },
        CollectionsCommand::RemoveItems { collection, .. } => {
            lemma_lookups_only(before, resolved_part(before, after, collection@), after, collection@);
        },
        _ => {},
    }
}

pub open spec fn items_dry(cmd: ItemsCommand) -> bool {
    match cmd {
        ItemsCommand::Add { dry_run, .. } => dry_run,
        ItemsCommand::Update { dry_run, .. } => dry_run,
        ItemsCommand::Delete { dry_run, .. } => dry_run,
        ItemsCommand::Trash { dry_run, .. } => dry_run,
        ItemsCommand::Restore { dry_run, .. } => dry_run,
        ItemsCommand::MergeDuplicates { dry_run, .. } => dry_run,
        ItemsCommand::AddRelated { dry_run, .. } => dry_run,
        ItemsCommand::RemoveRelated { dry_run, .. } => dry_run,
        _ => false,
    }
}

proof fn lemma_filed_dry(
    before: Seq<Exchange>,
    after: Seq<Exchange>,
    method: Seq<char>,
    base: Seq<(Seq<char>, JsonV)>,
    collection: Option<String>,
    r: Result<JsonV, Seq<char>>,
)
    requires
        filed_mutation(before, after, method, base, collection, true, r),
    ensures
        only_lookups(before, after),
{
    match collection {
        None => {
            assert(after.subrange(0, before.len() as int) =~= before);
        },
        Some(c) => {
            lemma_lookups_only(before, resolved_part(before, after, c@), after, c@);
        },
    }
}

// ---------------------------------------------------------------------------
// Attachments.
// ---------------------------------------------------------------------------

/// The `attachments` commands. `path` in `Add` is the file's path as Zotero
/// sees it (the caller translates a local path).
#[derive(Debug)]
pub enum AttachmentsCommand {
    Add { parent: String, from_url: Option<String>, path: Option<String>, title: Option<String>, dry_run: bool },
    Path { key: String },
}

/// The call that attaching makes: by URL (`attachments.addByURL`) when one is
/// given, else the file (`attachments.add`); the parent, the URL or path, and
/// the title when given.
pub open spec fn attach_call(
    parent: Seq<char>,
    from_url: Option<String>,
    path: Option<String>,
    title: Option<String>,
) -> Option<(Seq<char>, JsonV)> {
    let base: Seq<(Seq<char>, JsonV)> = seq![("parentKey"@, JsonV::Str(parent))];
    match from_url {
        Some(u) => Some(
            ("attachments.addByURL"@, JsonV::Object(base.push(("url"@, JsonV::Str(u@))) + opt_str_member("title"@, title))),
        ),
        None => match path {
            Some(p) => Some(
                ("attachments.add"@, JsonV::Object(base.push(("path"@, JsonV::Str(p@))) + opt_str_member("title"@, title))),
            ),
            None => None,
        },
    }
}

/// What an `attachments` command does.
pub open spec fn attachments_ran(
    cmd: AttachmentsCommand,
    before: Seq<Exchange>,
    after: Seq<Exchange>,
    r: Result<JsonV, Seq<char>>,
) -> bool {
    match cmd {
        AttachmentsCommand::Add { parent, from_url, path, title, dry_run } => match attach_call(
            parent@,
            from_url,
            path,
            title,
        ) {
            None => after == before && r == Err::<JsonV, Seq<char>>("INVALID_ARGS: provide --from-url or --path"@),
            Some((method, params)) => mutated(before, after, method, params, dry_run, r),
        },
        AttachmentsCommand::Path { key } => answered(
            before,
            after,
            "attachments.getPath"@,
            Some(obj1("key"@, JsonV::Str(key@))),
            r,
        ),
    }
}

/// Runs an `attachments` command (see `attachments_ran`).
pub fn run_attachments_command<C: RpcCaller>(command: AttachmentsCommand, client: &mut C) -> (r: Result<Json, String>)
    ensures
        attachments_ran(command, old(client).exchanges(), final(client).exchanges(), json_result(r)),
{
    match command {
        AttachmentsCommand::Add { parent, from_url, path, title, dry_run } => {
            let mut m: Vec<(String, Json)> = Vec::new();
            push_member(&mut m, "parentKey", Json::str(parent.as_str()));
            let method = match (&from_url, &path) {
                (Some(u), _) => {
                    push_member(&mut m, "url", Json::str(u.as_str()));
                    "attachments.addByURL"
                },
                (None, Some(p)) => {
                    push_member(&mut m, "path", Json::str(p.as_str()));
                    "attachments.add"
                },
                (None, None) => return Err(to_string("INVALID_ARGS: provide --from-url or --path")),
            };
            push_opt_str(&mut m, "title", &title);
            proof {
                let want = attach_call(parent@, from_url, path, title)->Some_0;
                assert(members_view(m@) =~= want.1->Object_0);
                assert(method@ == want.0);
            }
            run_mutation_command(client, method, object_of(m), dry_run)
        },
        AttachmentsCommand::Path { key } => ask(client, "attachments.getPath", Some(Json::object1("key", Json::str(key.as_str())))),
    }
}

/// The same items command with its `--dry-run` flag set to `d` (commands
/// without the flag are left as they are).
pub open spec fn with_dry_run(cmd: ItemsCommand, d: bool) -> ItemsCommand {
    match cmd {
        ItemsCommand::Add { doi, isbn, from_url, file, item_type, fields, collection, dry_run } =>
            ItemsCommand::Add { doi, isbn, from_url, file, item_type, fields, collection, dry_run: d },
        ItemsCommand::Update { key, fields, dry_run } => ItemsCommand::Update { key, fields, dry_run: d },
        ItemsCommand::Delete { key, dry_run } => ItemsCommand::Delete { key, dry_run: d },
        ItemsCommand::Trash { items, dry_run } => ItemsCommand::Trash { items, dry_run: d },
        ItemsCommand::Restore { item, dry_run } => ItemsCommand::Restore { item, dry_run: d },
        ItemsCommand::MergeDuplicates { keys, dry_run } => ItemsCommand::MergeDuplicates { keys, dry_run: d },
        ItemsCommand::AddRelated { key, target, dry_run } => ItemsCommand::AddRelated { key, target, dry_run: d },
        ItemsCommand::RemoveRelated { key, target, dry_run } => ItemsCommand::RemoveRelated {
            key,
            target,
            dry_run: d,
        },
        other => other,
    }
}

/// An items command that changes the library and files nothing into a
/// collection.
pub open spec fn unfiled_mutation(cmd: ItemsCommand) -> bool {
    match cmd {
        ItemsCommand::Add { collection, .. } => collection is None,
        ItemsCommand::Update { .. } | ItemsCommand::Delete { .. } | ItemsCommand::Trash { .. }
        | ItemsCommand::Restore { .. } | ItemsCommand::MergeDuplicates { .. }
        | ItemsCommand::AddRelated { .. } | ItemsCommand::RemoveRelated { .. } => true,
        _ => false,
    }
}

/// A dry run of a mutating items command answers, without a call, the very
/// call the command makes when it is not dry: `wouldCall` is its method and
/// `wouldCallParams` its parameters. A command refused before any call is
/// refused alike either way.
pub proof fn law_items_dry_run_mirrors_the_call(
    cmd: ItemsCommand,
    before: Seq<Exchange>,
    dry_after: Seq<Exchange>,
    dry_r: Result<JsonV, Seq<char>>,
    wet_after: Seq<Exchange>,
    wet_r: Result<JsonV, Seq<char>>,
)
    requires
        unfiled_mutation(cmd),
        items_ran(with_dry_run(cmd, true), before, dry_after, dry_r),
        items_ran(with_dry_run(cmd, false), before, wet_after, wet_r),
    ensures
        dry_after == before,
        wet_after == before ==> dry_r == wet_r,
        wet_after != before ==> {
            &&& wet_after.len() == before.len() + 1
            &&& wet_after.last().params is Some
            &&& dry_r == Ok::<JsonV, Seq<char>>(
                dry_run_json(wet_after.last().method, wet_after.last().params->Some_0),
            )
        },
{
}

/// A dry run of an items command changes nothing: at most it looks up the
/// collection the item would be filed into.
pub proof fn law_items_dry_run_only_looks_up(
    cmd: ItemsCommand,
    before: Seq<Exchange>,
    after: Seq<Exchange>,
    r: Result<JsonV, Seq<char>>,
)
    requires
        items_ran(cmd, before, after, r),
        items_dry(cmd),
    ensures
        only_lookups(before, after),
{
    match cmd {
        ItemsCommand::Add { doi, isbn, from_url, file, item_type, fields, collection, dry_run } => {
            if doi is Some {
                lemma_filed_dry(before, after, "items.addByDOI"@, seq![("doi"@, JsonV::Str(doi->0@))], collection, r);
            } else if isbn is Some {
                lemma_filed_dry(before, after, "items.addByISBN"@, seq![("isbn"@, JsonV::Str(isbn->0@))], collection, r);
            } else if from_url is Some {
                lemma_filed_dry(before, after, "items.addByURL"@, seq![("url"@, JsonV::Str(from_url->0@))], collection, r);
            } else if file is Some {
                lemma_filed_dry(before, after, "items.addFromFile"@, seq![("path"@, JsonV::Str(file->0@))], collection, r);
            } else {
                assert(after.subrange(0, before.len() as int) =~= before);
            }
        },
        _ => {
            assert(after.subrange(0, before.len() as int) =~= before);
        },
    }
}

pub open spec fn tags_dry(cmd: TagsCommand) -> bool {
    match cmd {
        TagsCommand::List { .. } => false,
        TagsCommand::Rename { dry_run, .. } => dry_run,
        TagsCommand::Delete { dry_run, .. } => dry_run,
        TagsCommand::Add { dry_run, .. } => dry_run,
        TagsCommand::Remove { dry_run, .. } => dry_run,
    }
}

/// A dry run of a tags command makes no call at all.
pub proof fn law_tags_dry_run_makes_no_calls(
    cmd: TagsCommand,
    before: Seq<Exchange>,
    after: Seq<Exchange>,
    r: Result<JsonV, Seq<char>>,
)
    requires
        tags_ran(cmd, before, after, r),
        tags_dry(cmd),
    ensures
        after == before,
{
}

pub open spec fn notes_dry(cmd: NotesCommand) -> bool {
    match cmd {
        NotesCommand::Create { dry_run, .. } => dry_run,
        NotesCommand::Update { dry_run, .. } => dry_run,
        NotesCommand::Delete { dry_run, .. } => dry_run,
        _ => false,
    }
}

/// A dry run of a notes command makes no call at all.
pub proof fn law_notes_dry_run_makes_no_calls(
    cmd: NotesCommand,
    before: Seq<Exchange>,
    after: Seq<Exchange>,
    r: Result<JsonV, Seq<char>>,
)
    requires
        notes_ran(cmd, before, after, r),
        notes_dry(cmd),
    ensures
        after == before,
{
}

pub open spec fn annotations_dry(cmd: AnnotationsCommand) -> bool {
    match cmd {
        AnnotationsCommand::Create { dry_run, .. } => dry_run,
        AnnotationsCommand::CreateBatch { dry_run, .. } => dry_run,
        AnnotationsCommand::Delete { dry_run, .. } => dry_run,
        _ => false,
    }
}

/// A dry run of an annotations command makes no call at all, and neither
/// does a refused annotation.
pub proof fn law_annotations_dry_or_refused_make_no_calls(
    cmd: AnnotationsCommand,
    before: Seq<Exchange>,
    after: Seq<Exchange>,
    r: Result<JsonV, Seq<char>>,
)
    requires
        annotations_ran(cmd, before, after, r),
        annotations_dry(cmd) || (cmd matches AnnotationsCommand::Create {
            parent,
            attachment,
            annotation_type,
            position,
            quote,
            page,
            sort_index,
            text,
            comment,
            color,
            ..
        } && create_params(
            parent@,
            attachment,
            annotation_type,
            position,
            quote,
            page,
            sort_index,
            text,
            comment,
            color@,
        ) is Err),
    ensures
        after == before,
{
}

} // verus!
