//! Item helpers: the Zotero item payload for import, attachments, response
//! shapes, and paginating list calls.

use vstd::prelude::*;
use crate::cli::{json_result, Exchange, RpcCaller};
use crate::http::message;
use crate::json::{
    as_array, as_i64, as_str, as_u64, at, get, json_text, compact_json, find_member, key_index, set_member,
    with_member, Json, JsonNumber, JsonV, NumberV,
};
use crate::paper::opt_view;
use crate::text::{
    ascii_lower, ascii_lower_exec, chars_of, debug_quote, ends_with, ends_with_exec, push_str,
    skip_ws, starts_with, starts_with_exec, str_eq, to_lowercase, to_string, trim, trim_exec,
    trim_start, u64_to_string, unicode_lower, debug_text, decimal,
};

verus! {

// ---------------------------------------------------------------------------
// The import payload.
// ---------------------------------------------------------------------------

/// Members of a Zotero item that are not plain fields.
pub open spec fn non_field_key(k: Seq<char>) -> bool {
    k == "itemType"@ || k == "creators"@ || k == "tags"@ || k == "collections"@ || k
        == "attachments"@ || k == "relations"@ || k == "notes"@ || k == "id"@ || k == "key"@ || k
        == "version"@ || k == "_pdf"@
}

/// A value worth sending as a field: neither null nor the empty string.
pub open spec fn has_content(v: JsonV) -> bool {
    !(v is Null) && v != JsonV::Str(Seq::empty())
}

/// The plain fields of an item, in order (a later duplicate overwrites).
pub open spec fn fields_of(members: Seq<(Seq<char>, JsonV)>) -> Seq<(Seq<char>, JsonV)>
    decreases members.len(),
{
    if members.len() == 0 {
        seq![]
    } else {
        let rest = fields_of(members.drop_last());
        let (k, v) = members.last();
        if !non_field_key(k) && has_content(v) {
            with_member(rest, k, v)
        } else {
            rest
        }
    }
}

/// The string member `key`, or `dflt`.
pub open spec fn str_or(v: JsonV, key: Seq<char>, dflt: Seq<char>) -> Seq<char> {
    match as_str(at(v, key)) {
        Some(s) => s,
        None => dflt,
    }
}

/// A creator as the import endpoint takes it.
pub open spec fn xpi_creator(c: JsonV) -> JsonV {
    let base = seq![
        ("firstName"@, JsonV::Str(str_or(c, "firstName"@, ""@))),
        ("lastName"@, JsonV::Str(str_or(c, "lastName"@, ""@))),
        ("creatorType"@, JsonV::Str(str_or(c, "creatorType"@, "author"@))),
    ];
    JsonV::Object(
        match as_u64(at(c, "fieldMode"@)) {
            Some(m) => with_member(base, "fieldMode"@, JsonV::Number(NumberV::PosInt(m))),
            None => base,
        },
    )
}

/// A tag as the import endpoint takes it: its `tag` member, or itself.
pub open spec fn xpi_tag(t: JsonV) -> JsonV {
    match get(t, "tag"@) {
        Some(x) => x,
        None => t,
    }
}

/// The library root, whose collection key is 0.
pub open spec fn library_root(v: JsonV) -> bool {
    as_i64(v) == Some(0i64) || as_u64(v) == Some(0u64)
}

/// The payload that imports an item (Zotero JSON) through the endpoint: its
/// type, its plain fields, its creators and tags when there are any, and the
/// target collection unless that is the library root.
pub open spec fn xpi_payload(item: JsonV, collection: Option<JsonV>) -> JsonV {
    let fields = match item {
        JsonV::Object(m) => fields_of(m),
        _ => seq![],
    };
    let p1 = with_member(
        with_member(
            seq![],
            "itemType"@,
            match get(item, "itemType"@) {
                Some(t) => t,
                None => JsonV::Str("journalArticle"@),
            },
        ),
        "fields"@,
        JsonV::Object(fields),
    );
    let p2 = match as_array(at(item, "creators"@)) {
        Some(cs) => if cs.len() > 0 {
            with_member(p1, "creators"@, JsonV::Array(cs.map_values(|c: JsonV| xpi_creator(c))))
        } else {
            p1
        },
        None => p1,
    };
    let p3 = match as_array(at(item, "tags"@)) {
        Some(ts) => if ts.len() > 0 {
            with_member(p2, "tags"@, JsonV::Array(ts.map_values(|t: JsonV| xpi_tag(t))))
        } else {
            p2
        },
        None => p2,
    };
    JsonV::Object(
        match collection {
            Some(k) => if !library_root(k) {
                with_member(p3, "collections"@, JsonV::Array(seq![k]))
            } else {
                p3
            },
            None => p3,
        },
    )
}

/// Whether a collection key denotes the library root.
pub fn is_library_root(value: &Json) -> (r: bool)
    ensures
        r == library_root(value@),
{
    value.as_i64() == Some(0i64) || value.as_u64() == Some(0u64)
}

fn is_non_field_key(k: &str) -> (r: bool)
    ensures
        r == non_field_key(k@),
{
    str_eq(k, "itemType") || str_eq(k, "creators") || str_eq(k, "tags") || str_eq(k, "collections")
        || str_eq(k, "attachments") || str_eq(k, "relations") || str_eq(k, "notes") || str_eq(
        k,
        "id",
    ) || str_eq(k, "key") || str_eq(k, "version") || str_eq(k, "_pdf")
}

fn has_content_exec(v: &Json) -> (r: bool)
    ensures
        r == has_content(v@),
{
    match v {
        Json::Null => false,
        Json::Str(s) => {
            let e = s.as_str().is_empty();
            if e {
                assert(s@ =~= Seq::<char>::empty());
                assert(v@ == JsonV::Str(Seq::empty()));
            } else {
                assert((v@->Str_0).len() > 0);
            }
            !e
        },
        _ => true,
    }
}

pub fn str_or_exec(v: &Json, key: &str, dflt: &str) -> (r: String)
    ensures
        r@ == str_or(v@, key@, dflt@),
{
    let x = v.at(key);
    match x.as_str() {
        Some(s) => to_string(s),
        None => to_string(dflt),
    }
}

fn creator_payload(c: &Json) -> (r: Json)
    ensures
        r@ == xpi_creator(c@),
{
    let mut members: Vec<(String, Json)> = Vec::new();
    let first = str_or_exec(c, "firstName", "");
    let last = str_or_exec(c, "lastName", "");
    let kind = str_or_exec(c, "creatorType", "author");
    members.push((to_string("firstName"), Json::str(first.as_str())));
    members.push((to_string("lastName"), Json::str(last.as_str())));
    members.push((to_string("creatorType"), Json::str(kind.as_str())));
    proof {
        let base = seq![
            ("firstName"@, JsonV::Str(str_or(c@, "firstName"@, ""@))),
            ("lastName"@, JsonV::Str(str_or(c@, "lastName"@, ""@))),
            ("creatorType"@, JsonV::Str(str_or(c@, "creatorType"@, "author"@))),
        ];
        let mv = members@.map_values(|m: (String, Json)| (m.0@, m.1@));
        assert(mv[0] == base[0]);
        assert(mv[1] == base[1]);
        assert(mv[2] == base[2]);
        assert(mv =~= base);
    }
    match c.at("fieldMode").as_u64() {
        Some(m) => set_member(&mut members, "fieldMode", Json::uint(m)),
        None => {},
    }
    let r = Json::Object(members);
    assert((r@->Object_0) =~= members@.map_values(|m: (String, Json)| (m.0@, m.1@)));
    r
}

fn tag_payload(t: &Json) -> (r: Json)
    ensures
        r@ == xpi_tag(t@),
{
    match t.get("tag") {
        Some(x) => x.clone_json(),
        None => t.clone_json(),
    }
}

fn fields_payload(members: &Vec<(String, Json)>) -> (r: Vec<(String, Json)>)
    ensures
        r@.map_values(|m: (String, Json)| (m.0@, m.1@)) == fields_of(
            members@.map_values(|m: (String, Json)| (m.0@, m.1@)),
        ),
{
    let ghost mv = members@.map_values(|m: (String, Json)| (m.0@, m.1@));
    let mut out: Vec<(String, Json)> = Vec::new();
    assert(out@.map_values(|m: (String, Json)| (m.0@, m.1@)) =~= Seq::<(Seq<char>, JsonV)>::empty());
    let mut i: usize = 0;
    while i < members.len()
        invariant
            i <= members@.len(),
            mv == members@.map_values(|m: (String, Json)| (m.0@, m.1@)),
            out@.map_values(|m: (String, Json)| (m.0@, m.1@)) == fields_of(mv.take(i as int)),
        decreases members.len() - i,
    {
        proof {
            assert(mv.take(i + 1).drop_last() =~= mv.take(i as int));
            assert(mv.take(i + 1).last() == mv[i as int]);
        }
        let key = &members[i].0;
        let value = &members[i].1;
        if !is_non_field_key(key.as_str()) && has_content_exec(value) {
            set_member(&mut out, key.as_str(), value.clone_json());
        }
        i += 1;
    }
    assert(mv.take(members@.len() as int) =~= mv);
    out
}

fn map_payload(items: &Vec<Json>, creators: bool) -> (r: Json)
    ensures
        r@ == JsonV::Array(
            if creators {
                items@.map_values(|x: Json| x@).map_values(|c: JsonV| xpi_creator(c))
            } else {
                items@.map_values(|x: Json| x@).map_values(|t: JsonV| xpi_tag(t))
            },
        ),
{
    let mut out: Vec<Json> = Vec::new();
    let mut i: usize = 0;
    while i < items.len()
        invariant
            i <= items@.len(),
            out@.len() == i,
            forall|j: int|
                0 <= j < i ==> (#[trigger] out@[j])@ == if creators {
                    xpi_creator(items@[j]@)
                } else {
                    xpi_tag(items@[j]@)
                },
        decreases items.len() - i,
    {
        if creators {
            out.push(creator_payload(&items[i]));
        } else {
            out.push(tag_payload(&items[i]));
        }
        i += 1;
    }
    let r = Json::Array(out);
    proof {
        let want = if creators {
            items@.map_values(|x: Json| x@).map_values(|c: JsonV| xpi_creator(c))
        } else {
            items@.map_values(|x: Json| x@).map_values(|t: JsonV| xpi_tag(t))
        };
        assert((r@->Array_0) =~= want);
    }
    r
}

/// The import payload of an item (see `xpi_payload`).
pub fn to_xpi_payload(item_json: &Json, collection_key: Option<&Json>) -> (r: Json)
    ensures
        r@ == xpi_payload(
            item_json@,
            match collection_key {
                Some(k) => Some(k@),
                None => None,
            },
        ),
{
    let fields = match item_json {
        Json::Object(m) => fields_payload(m),
        _ => {
            let v: Vec<(String, Json)> = Vec::new();
            assert(v@.map_values(|m: (String, Json)| (m.0@, m.1@)) =~= Seq::<(Seq<char>, JsonV)>::empty());
            v
        },
    };
    proof {
        if let Json::Object(m) = item_json {
            assert((item_json@->Object_0) =~= m@.map_values(|m: (String, Json)| (m.0@, m.1@)));
        }
    }
    let mut payload: Vec<(String, Json)> = Vec::new();
    assert(payload@.map_values(|m: (String, Json)| (m.0@, m.1@)) =~= Seq::<(Seq<char>, JsonV)>::empty());
    let item_type = match item_json.get("itemType") {
        Some(t) => t.clone_json(),
        None => Json::str("journalArticle"),
    };
    set_member(&mut payload, "itemType", item_type);
    let fo = Json::Object(fields);
    assert((fo@->Object_0) =~= fields@.map_values(|m: (String, Json)| (m.0@, m.1@)));
    set_member(&mut payload, "fields", fo);
    let cs = item_json.at("creators");
    match cs.as_array() {
        Some(a) => if a.len() > 0 {
            set_member(&mut payload, "creators", map_payload(a, true));
        },
        None => {},
    }
    let ts = item_json.at("tags");
    match ts.as_array() {
        Some(a) => if a.len() > 0 {
            set_member(&mut payload, "tags", map_payload(a, false));
        },
        None => {},
    }
    match collection_key {
        Some(k) => if !is_library_root(k) {
            let mut one: Vec<Json> = Vec::new();
            one.push(k.clone_json());
            let arr = Json::arr(one);
            assert((arr@->Array_0) =~= seq![k@]);
            set_member(&mut payload, "collections", arr);
        },
        None => {},
    }
    let r = Json::Object(payload);
    assert((r@->Object_0) =~= payload@.map_values(|m: (String, Json)| (m.0@, m.1@)));
    r
}

// ---------------------------------------------------------------------------
// Response shapes.
// ---------------------------------------------------------------------------

/// The list a search reply carries: its `items`, or the reply itself when it
/// is an array.
pub open spec fn items_of(response: JsonV) -> Option<Seq<JsonV>> {
    match as_array(at(response, "items"@)) {
        Some(a) => Some(a),
        None => as_array(response),
    }
}

/// The list in a search reply (see `items_of`).
pub fn response_items(response: &Json) -> (r: Option<Vec<Json>>)
    ensures
        match r {
            Some(v) => items_of(response@) == Some(v@.map_values(|x: Json| x@)),
            None => items_of(response@) is None,
        },
{
    let items = response.at("items");
    match items.as_array() {
        Some(a) => Some(clone_all(a)),
        None => match response.as_array() {
            Some(a) => Some(clone_all(a)),
            None => None,
        },
    }
}

/// A copy of a list of documents.
pub fn clone_all(a: &Vec<Json>) -> (r: Vec<Json>)
    ensures
        r@.map_values(|x: Json| x@) == a@.map_values(|x: Json| x@),
{
    let mut out: Vec<Json> = Vec::new();
    let mut i: usize = 0;
    while i < a.len()
        invariant
            i <= a@.len(),
            out@.len() == i,
            forall|j: int| 0 <= j < i ==> (#[trigger] out@[j])@ == a@[j]@,
        decreases a.len() - i,
    {
        out.push(a[i].clone_json());
        i += 1;
    }
    assert(out@.map_values(|x: Json| x@) =~= a@.map_values(|x: Json| x@));
    out
}

/// The key of the first hit of a search reply.
pub open spec fn first_key(response: JsonV) -> Option<Seq<char>> {
    match items_of(response) {
        Some(items) => if items.len() > 0 {
            as_str(at(items[0], "key"@))
        } else {
            None
        },
        None => None,
    }
}

/// The key of the first hit of a search reply.
pub fn first_hit_key(response: &Json) -> (r: Option<String>)
    ensures
        opt_view(r) == first_key(response@),
{
    let items = match response_items(response) {
        Some(i) => i,
        None => return None,
    };
    if items.len() == 0 {
        return None;
    }
    assert(items@.map_values(|x: Json| x@)[0] == items@[0]@);
    let k = items[0].at("key");
    match k.as_str() {
        Some(s) => Some(to_string(s)),
        None => None,
    }
}

/// The items of a collection listing: its `items`, the reply itself when it
/// is an array, or none.
pub fn collection_items(response: &Json) -> (r: Vec<Json>)
    ensures
        r@.map_values(|x: Json| x@) == match items_of(response@) {
            Some(a) => a,
            None => seq![],
        },
{
    match response_items(response) {
        Some(v) => v,
        None => {
            let v: Vec<Json> = Vec::new();
            assert(v@.map_values(|x: Json| x@) =~= Seq::<JsonV>::empty());
            v
        },
    }
}

/// An attachment that holds a PDF: by content type, or by a `.pdf` path
/// (case-insensitive).
pub open spec fn pdf_attachment(a: JsonV) -> bool {
    let ct = unicode_lower(str_or(a, "contentType"@, ""@));
    let path = unicode_lower(str_or(a, "path"@, ""@));
    ct == "application/pdf"@ || ct == "application/x-pdf"@ || ends_with(path, ".pdf"@)
}

/// Whether an attachment record is a PDF.
pub fn is_pdf_attachment(attachment: &Json) -> (r: bool)
    ensures
        r == pdf_attachment(attachment@),
{
    let ct = to_lowercase(str_or_exec(attachment, "contentType", "").as_str());
    let path = to_lowercase(str_or_exec(attachment, "path", "").as_str());
    let p = chars_of(path.as_str());
    let suffix = chars_of(".pdf");
    str_eq(ct.as_str(), "application/pdf") || str_eq(ct.as_str(), "application/x-pdf")
        || ends_with_exec(&p, &suffix)
}

/// Whether some attachment of `a` is a PDF.
pub open spec fn any_pdf(a: Seq<JsonV>) -> bool
    decreases a.len(),
{
    a.len() > 0 && (any_pdf(a.drop_last()) || pdf_attachment(a.last()))
}

/// An attachment listing that holds a PDF.
pub open spec fn lists_pdf(attachments: JsonV) -> bool {
    match as_array(attachments) {
        Some(a) => any_pdf(a),
        None => false,
    }
}

proof fn lemma_any_pdf_prefix(a: Seq<JsonV>, n: int)
    requires
        0 <= n <= a.len(),
        any_pdf(a.take(n)),
    ensures
        any_pdf(a),
    decreases a.len() - n,
{
    if n < a.len() {
        assert(a.take(n + 1).drop_last() =~= a.take(n));
        lemma_any_pdf_prefix(a, n + 1);
    } else {
        assert(a.take(n) =~= a);
    }
}

/// Whether an attachment listing holds a PDF.
pub fn has_pdf_attachment(attachments: &Json) -> (r: bool)
    ensures
        r == lists_pdf(attachments@),
{
    let a = match attachments.as_array() {
        Some(a) => a,
        None => return false,
    };
    let ghost av = a@.map_values(|x: Json| x@);
    let mut i: usize = 0;
    while i < a.len()
        invariant
            i <= a@.len(),
            av == a@.map_values(|x: Json| x@),
            as_array(attachments@) == Some(av),
            !any_pdf(av.take(i as int)),
        decreases a.len() - i,
    {
        proof {
            assert(av.take(i + 1).drop_last() =~= av.take(i as int));
            assert(av.take(i + 1).last() == a@[i as int]@);
        }
        if is_pdf_attachment(&a[i]) {
            proof {
                lemma_any_pdf_prefix(av, i + 1);
            }
            return true;
        }
        i += 1;
    }
    assert(av.take(a@.len() as int) =~= av);
    false
}

/// A source given for an item's PDF that is a web address.
pub open spec fn remote_pdf(source: Seq<char>) -> bool {
    let l = ascii_lower(trim_start(source));
    starts_with(l, "http://"@) || starts_with(l, "https://"@)
}

/// Whether a PDF source is a web address rather than a local path.
pub fn is_remote_pdf(source: &str) -> (r: bool)
    ensures
        r == remote_pdf(source@),
{
    let v = chars_of(source);
    let start = skip_ws(&v, 0);
    let rest = crate::text::slice_vec(&v, start, v.len());
    assert(rest@ =~= trim_start(v@)) by {
        crate::text::lemma_trim_start_len(v@);
        assert(v@.skip(0) =~= v@);
    }
    let lower = ascii_lower_exec(&rest);
    let a = chars_of("http://");
    let b = chars_of("https://");
    starts_with_exec(&lower, &a) || starts_with_exec(&lower, &b)
}

/// What taking the `_pdf` member out of an item yields: nothing when it is
/// absent, null or blank; the string otherwise; an error for any other value.
pub open spec fn embedded_pdf(item: JsonV) -> Result<Option<Seq<char>>, Seq<char>> {
    match get(item, "_pdf"@) {
        None => Ok(None),
        Some(JsonV::Null) => Ok(None),
        Some(JsonV::Str(s)) => if trim(s).len() == 0 {
            Ok(None)
        } else {
            Ok(Some(s))
        },
        Some(other) => Err(
            "INVALID_ARGS: \"_pdf\" must be a URL or local path string, got "@ + compact_json(other),
        ),
    }
}

/// An object without its first member named `key`.
pub open spec fn without_member(members: Seq<(Seq<char>, JsonV)>, key: Seq<char>) -> Seq<
    (Seq<char>, JsonV),
> {
    match key_index(members, key) {
        Some(i) => members.remove(i),
        None => members,
    }
}

/// Removes and returns the item's embedded `_pdf` value (a URL or a local
/// path).
pub fn take_embedded_pdf(item_json: &mut Json) -> (r: Result<Option<String>, String>)
    ensures
        match old(item_json)@ {
            JsonV::Object(m) => final(item_json)@ == JsonV::Object(without_member(m, "_pdf"@)) && match (
                r,
                embedded_pdf(old(item_json)@),
            ) {
                (Ok(a), Ok(b)) => opt_view(a) == b,
                (Err(a), Err(b)) => a@ == b,
                _ => false,
            },
            _ => r matches Ok(None) && final(item_json)@ == old(item_json)@,
        },
{
    let ghost before = item_json@;
    let idx = match &*item_json {
        Json::Object(members) => {
            let ghost mv = members@.map_values(|m: (String, Json)| (m.0@, m.1@));
            assert(mv =~= (before->Object_0));
            find_member(members, "_pdf")
        },
        _ => return Ok(None),
    };
    let ghost mv = before->Object_0;
    proof {
        crate::json::lemma_members_get_index(mv, "_pdf"@);
        crate::json::lemma_key_index(mv, "_pdf"@);
    }
    let i = match idx {
        Some(i) => i,
        None => {
            assert((item_json@->Object_0) =~= mv);
            return Ok(None);
        },
    };
    let value = match item_json {
        Json::Object(members) => {
            let (_, v) = members.remove(i);
            v
        },
        _ => Json::Null,
    };
    assert((item_json@->Object_0) =~= mv.remove(i as int));
    assert(value@ == mv[i as int].1);
    match value {
        Json::Null => Ok(None),
        Json::Str(s) => {
            let t = trim_exec(s.as_str());
            if t.as_str().is_empty() {
                Ok(None)
            } else {
                Ok(Some(s))
            }
        },
        other => {
            let text = json_text(&other);
            Err(
                message(
                    "INVALID_ARGS: \"_pdf\" must be a URL or local path string, got ",
                    text.as_str(),
                ),
            )
        },
    }
}

/// The record a push reports for one item.
pub fn push_result(
    status: &str,
    zotero_item_key: Option<String>,
    pdf_attached: bool,
    pdf_size_bytes: u64,
    error: Json,
) -> (r: Json)
    ensures
        r@ == push_json(status@, opt_view(zotero_item_key), pdf_attached, pdf_size_bytes, error@),
{
    let ghost ev = error@;
    let key = match &zotero_item_key {
        Some(k) => Json::str(k.as_str()),
        None => Json::Null,
    };
    let mut members: Vec<(String, Json)> = Vec::new();
    members.push((to_string("status"), Json::str(status)));
    members.push((to_string("zotero_item_key"), key));
    members.push((to_string("pdf_attached"), Json::boolean(pdf_attached)));
    members.push((to_string("pdf_size_bytes"), Json::uint(pdf_size_bytes)));
    members.push((to_string("error"), error));
    let r = Json::Object(members);
    proof {
        let m = r@->Object_0;
        assert(m[0] == ("status"@, JsonV::Str(status@)));
        assert(m[1].1 == match opt_view(zotero_item_key) {
            Some(k) => JsonV::Str(k),
            None => JsonV::Null,
        });
        assert(m[2] == ("pdf_attached"@, JsonV::Bool(pdf_attached)));
        assert(m[3] == ("pdf_size_bytes"@, JsonV::Number(NumberV::PosInt(pdf_size_bytes))));
        assert(m[4].1 == ev);
        assert(m =~= seq![
            ("status"@, JsonV::Str(status@)),
            ("zotero_item_key"@, match opt_view(zotero_item_key) {
                Some(k) => JsonV::Str(k),
                None => JsonV::Null,
            }),
            ("pdf_attached"@, JsonV::Bool(pdf_attached)),
            ("pdf_size_bytes"@, JsonV::Number(NumberV::PosInt(pdf_size_bytes))),
            ("error"@, ev),
        ]);
        let want = push_json(status@, opt_view(zotero_item_key), pdf_attached, pdf_size_bytes, ev);
        assert(m =~= want->Object_0);
        assert(r@ == want);
    }
    r
}

/// The record of one pushed item.
pub open spec fn push_json(
    status: Seq<char>,
    key: Option<Seq<char>>,
    pdf_attached: bool,
    pdf_size_bytes: u64,
    error: JsonV,
) -> JsonV {
    JsonV::Object(
        seq![
            ("status"@, JsonV::Str(status)),
            ("zotero_item_key"@, match key {
                Some(k) => JsonV::Str(k),
                None => JsonV::Null,
            }),
            ("pdf_attached"@, JsonV::Bool(pdf_attached)),
            ("pdf_size_bytes"@, JsonV::Number(NumberV::PosInt(pdf_size_bytes))),
            ("error"@, error),
        ],
    )
}

/// What a dry run answers instead of calling `method` with `params`.
pub open spec fn dry_run_json(method: Seq<char>, params: JsonV) -> JsonV {
    JsonV::Object(
        seq![
            ("ok"@, JsonV::Bool(true)),
            ("dryRun"@, JsonV::Bool(true)),
            ("wouldCall"@, JsonV::Str(method)),
            ("wouldCallParams"@, params),
        ],
    )
}

/// What a dry run answers instead of calling `method` with `params`.
pub fn dry_run_value(method: &str, params: Json) -> (r: Json)
    ensures
        r@ == dry_run_json(method@, params@),
{
    let ghost pv = params@;
    let mut members: Vec<(String, Json)> = Vec::new();
    members.push((to_string("ok"), Json::boolean(true)));
    members.push((to_string("dryRun"), Json::boolean(true)));
    members.push((to_string("wouldCall"), Json::str(method)));
    members.push((to_string("wouldCallParams"), params));
    let r = Json::Object(members);
    proof {
        let m = r@->Object_0;
        assert(m[0] == ("ok"@, JsonV::Bool(true)));
        assert(m[1] == ("dryRun"@, JsonV::Bool(true)));
        assert(m[2] == ("wouldCall"@, JsonV::Str(method@)));
        assert(m[3].1 == pv);
        assert(m =~= seq![
            ("ok"@, JsonV::Bool(true)),
            ("dryRun"@, JsonV::Bool(true)),
            ("wouldCall"@, JsonV::Str(method@)),
            ("wouldCallParams"@, pv),
        ]);
    }
    r
}

// ---------------------------------------------------------------------------
// Paginating list calls.
// ---------------------------------------------------------------------------

/// At most this many rows are collected by one paginated call.
pub const RPC_PAGINATION_SAFETY_CAP: usize = 10000;

/// The first of `items`, `tags`, `results`, `data` that holds an array.
pub open spec fn listed_member(response: JsonV) -> Option<Seq<JsonV>> {
    match as_array(at(response, "items"@)) {
        Some(a) => Some(a),
        None => match as_array(at(response, "tags"@)) {
            Some(a) => Some(a),
            None => match as_array(at(response, "results"@)) {
                Some(a) => Some(a),
                None => as_array(at(response, "data"@)),
            },
        },
    }
}

/// The rows of one page of a list call: the reply itself when it is an
/// array, else the first list member of an object reply.
pub open spec fn page_of(response: JsonV) -> Option<Seq<JsonV>> {
    match response {
        JsonV::Array(a) => Some(a),
        JsonV::Object(_) => listed_member(response),
        _ => None,
    }
}

/// The rows of one page of a list call (see `page_of`).
pub fn extract_page(response: &Json) -> (r: Option<Vec<Json>>)
    ensures
        match r {
            Some(v) => page_of(response@) == Some(v@.map_values(|x: Json| x@)),
            None => page_of(response@) is None,
        },
{
    match response {
        Json::Array(a) => {
            let c = clone_all(a);
            assert((response@->Array_0) =~= a@.map_values(|x: Json| x@));
            Some(c)
        },
        Json::Object(_) => {
            let x = response.at("items");
            match x.as_array() {
                Some(a) => return Some(clone_all(a)),
                None => {},
            }
            let x = response.at("tags");
            match x.as_array() {
                Some(a) => return Some(clone_all(a)),
                None => {},
            }
            let x = response.at("results");
            match x.as_array() {
                Some(a) => return Some(clone_all(a)),
                None => {},
            }
            let x = response.at("data");
            match x.as_array() {
                Some(a) => Some(clone_all(a)),
                None => None,
            }
        },
        _ => None,
    }
}

fn same_rows(a: &Vec<Json>, b: &Vec<Json>) -> (r: bool)
    ensures
        r == (a@.map_values(|x: Json| x@) == b@.map_values(|x: Json| x@)),
{
    if a.len() != b.len() {
        assert(a@.map_values(|x: Json| x@).len() != b@.map_values(|x: Json| x@).len());
        return false;
    }
    let mut i: usize = 0;
    while i < a.len()
        invariant
            a@.len() == b@.len(),
            i <= a@.len(),
            forall|j: int| 0 <= j < i ==> a@[j]@ == b@[j]@,
        decreases a.len() - i,
    {
        if !a[i].same_as(&b[i]) {
            assert(a@.map_values(|x: Json| x@)[i as int] != b@.map_values(|x: Json| x@)[i as int]);
            return false;
        }
        i += 1;
    }
    assert(a@.map_values(|x: Json| x@) =~= b@.map_values(|x: Json| x@));
    true
}

/// A pagination error text: `paginate: "<method>"<middle><rows><tail>`.
pub open spec fn rows_text(method: Seq<char>, middle: Seq<char>, rows: nat, tail: Seq<char>) -> Seq<
    char,
> {
    "paginate: "@ + debug_text(method) + middle + decimal(rows) + tail
}

fn rows_message(method: &str, middle: &str, rows: usize, tail: &str) -> (r: String)
    ensures
        r@ == rows_text(method@, middle@, rows as nat, tail@),
{
    let q = debug_quote(method);
    let mut m = message("paginate: ", q.as_str());
    push_str(&mut m, middle);
    let n = u64_to_string(rows as u64);
    push_str(&mut m, n.as_str());
    push_str(&mut m, tail);
    m
}

/// The parameters of a page request: the base members with `offset` and
/// `limit` set.
pub open spec fn page_params(base: JsonV, offset: int, size: nat) -> JsonV {
    JsonV::Object(
        with_member(
            with_member(base->Object_0, "offset"@, JsonV::Number(NumberV::PosInt(offset as u64))),
            "limit"@,
            JsonV::Number(NumberV::PosInt(size as u64)),
        ),
    )
}

/// Where paging stands after some replies: still collecting (the rows so far
/// and the last page), finished with a result, or off the protocol.
pub enum Paging {
    Running { rows: Seq<JsonV>, last: Option<Seq<JsonV>> },
    Finished(Result<JsonV, Seq<char>>),
    Broken,
}

/// One reply folded into the rows collected so far.
pub open spec fn page_step(
    method: Seq<char>,
    size: nat,
    rows: Seq<JsonV>,
    last: Option<Seq<JsonV>>,
    reply: Result<JsonV, Seq<char>>,
) -> Paging {
    match reply {
        Err(e) => Paging::Finished(Err(e)),
        Ok(resp) => match page_of(resp) {
            None => if rows.len() == 0 {
                Paging::Finished(Ok(resp))
            } else if resp is Object {
                Paging::Finished(
                    Err(
                        rows_text(
                            method,
                            " returned a non-paginated dict after "@,
                            rows.len(),
                            " accumulated rows; aborting"@,
                        ),
                    ),
                )
            } else {
                Paging::Finished(
                    Err(
                        rows_text(
                            method,
                            " returned non-list/non-dict shape after "@,
                            rows.len(),
                            " accumulated rows; aborting"@,
                        ),
                    ),
                )
            },
            Some(page) => if last == Some(page) {
                Paging::Finished(
                    Err(
                        rows_text(
                            method,
                            " returned identical pages \u{2014} method likely ignores offset; aborting after "@,
                            rows.len(),
                            " rows"@,
                        ),
                    ),
                )
            } else if page.len() < size {
                Paging::Finished(Ok(JsonV::Array(rows + page)))
            } else if rows.len() + page.len() >= RPC_PAGINATION_SAFETY_CAP {
                Paging::Finished(Ok(JsonV::Array((rows + page).take(RPC_PAGINATION_SAFETY_CAP as int))))
            } else {
                Paging::Running { rows: rows + page, last: Some(page) }
            },
        },
    }
}

/// Where paging `method` over `base` with pages of `size` stands after the
/// calls `made`: call `i` must ask for the page at offset `i * size`.
pub open spec fn paging(method: Seq<char>, base: JsonV, size: nat, made: Seq<Exchange>) -> Paging
    decreases made.len(),
{
    if made.len() == 0 {
        Paging::Running { rows: seq![], last: None }
    } else {
        match paging(method, base, size, made.drop_last()) {
            Paging::Running { rows, last } => {
                let e = made.last();
                if e.method == method && e.params == Some(
                    page_params(base, (made.len() - 1) * size, size),
                ) {
                    page_step(method, size, rows, last, e.reply)
                } else {
                    Paging::Broken
                }
            },
            _ => Paging::Broken,
        }
    }
}

/// Law: paging that stays on the protocol calls the method again and again,
/// the `i`-th time (from 0) with the given parameters plus `offset` `i *
/// size` and `limit` `size`.
pub proof fn law_paging_calls(method: Seq<char>, base: JsonV, size: nat, made: Seq<Exchange>)
    requires
        !(paging(method, base, size, made) is Broken),
    ensures
        forall|i: int|
            0 <= i < made.len() ==> (#[trigger] made[i]).method == method && made[i].params == Some(
                page_params(base, i * size, size),
            ),
    decreases made.len(),
{
    if made.len() > 0 {
        let d = made.drop_last();
        assert(paging(method, base, size, d) is Running);
        law_paging_calls(method, base, size, d);
        assert forall|i: int| 0 <= i < made.len() implies (#[trigger] made[i]).method == method
            && made[i].params == Some(page_params(base, i * size, size)) by {
            if i < d.len() {
                assert(made[i] == d[i]);
            }
        }
    }
}

/// The rows of the pages the replies in `made` carry, in order.
pub open spec fn pages_of(made: Seq<Exchange>) -> Seq<JsonV>
    decreases made.len(),
{
    if made.len() == 0 {
        seq![]
    } else {
        pages_of(made.drop_last()) + match made.last().reply {
            Ok(resp) => match page_of(resp) {
                Some(p) => p,
                None => seq![],
            },
            Err(_) => seq![],
        }
    }
}

/// Law: the rows paging collects are the pages of the replies, in order; a
/// list it returns is all of them, or the first `RPC_PAGINATION_SAFETY_CAP`
/// when they reach that many.
pub proof fn law_paging_rows(method: Seq<char>, base: JsonV, size: nat, made: Seq<Exchange>)
    ensures
        paging(method, base, size, made) matches Paging::Running { rows, .. } ==> rows == pages_of(made),
        paging(method, base, size, made) matches Paging::Finished(Ok(JsonV::Array(out))) ==> (out
            == pages_of(made) || (pages_of(made).len() >= RPC_PAGINATION_SAFETY_CAP && out == pages_of(
            made,
        ).take(RPC_PAGINATION_SAFETY_CAP as int))),
    decreases made.len(),
{
    if made.len() > 0 {
        let d = made.drop_last();
        law_paging_rows(method, base, size, d);
        if paging(method, base, size, d) is Running {
            let e = made.last();
            if e.reply is Ok {
                let resp = e.reply->Ok_0;
                if page_of(resp) is None {
                    if resp is Array {
                        assert(page_of(resp) is Some);
                    }
                }
            }
        }
    }
}

/// While paging runs, the last page it remembers is the page of the last
/// reply.
proof fn lemma_paging_last(method: Seq<char>, base: JsonV, size: nat, made: Seq<Exchange>)
    requires
        made.len() > 0,
        paging(method, base, size, made) is Running,
    ensures
        made.last().reply is Ok,
        paging(method, base, size, made)->Running_last == page_of(made.last().reply->Ok_0),
{
}

/// Law: two calls in a row whose replies carry the same page end paging
/// with the refusal that the method ignores `offset`, naming how many rows
/// were collected before the repeat.
pub proof fn law_paging_refuses_identical_pages(method: Seq<char>, base: JsonV, size: nat, made: Seq<Exchange>)
    requires
        made.len() >= 2,
        paging(method, base, size, made.drop_last()) is Running,
        made.last().method == method,
        made.last().params == Some(page_params(base, (made.len() - 1) * size, size)),
        made.last().reply is Ok,
        page_of(made.last().reply->Ok_0) is Some,
        page_of(made.last().reply->Ok_0) == page_of(made[made.len() - 2].reply->Ok_0),
    ensures
        paging(method, base, size, made) == Paging::Finished(
            Err(
                rows_text(
                    method,
                    " returned identical pages \u{2014} method likely ignores offset; aborting after "@,
                    pages_of(made.drop_last()).len(),
                    " rows"@,
                ),
            ),
        ),
{
    let d = made.drop_last();
    lemma_paging_last(method, base, size, d);
    law_paging_rows(method, base, size, d);
    assert(d.last() == made[made.len() - 2]);
}

/// A page by its view.
pub open spec fn rows_view(o: Option<Vec<Json>>) -> Option<Seq<JsonV>> {
    match o {
        Some(p) => Some(p@.map_values(|x: Json| x@)),
        None => None,
    }
}

/// The calls made between `before` and `after`, when `after` extends
/// `before`.
pub open spec fn made_since(before: Seq<Exchange>, after: Seq<Exchange>) -> Seq<Exchange> {
    after.subrange(before.len() as int, after.len() as int)
}

pub open spec fn extends(before: Seq<Exchange>, after: Seq<Exchange>) -> bool {
    after.len() >= before.len() && after.subrange(0, before.len() as int) == before
}

/// Calls a list method page by page (`offset`/`limit` added to `params`)
/// until a short page, collecting the rows; when the rows reach
/// `RPC_PAGINATION_SAFETY_CAP` before a short page, that many are kept. A
/// first reply that is no page is returned as it is; a later one, or a page
/// identical to the one before (the method ignores `offset`), is an error.
#[verifier::rlimit(40)]
pub fn paginate_rpc<C: RpcCaller>(client: &mut C, method: &str, params: Json, page_size: usize) -> (r:
    Result<Json, String>)
    ensures
        !(params@ is Object) ==> final(client).exchanges() == old(client).exchanges() && (r matches Err(
            e,
        ) && e@ == "params must be a JSON object"@),
        params@ is Object ==> extends(old(client).exchanges(), final(client).exchanges()) && paging(
            method@,
            params@,
            page_size as nat,
            made_since(old(client).exchanges(), final(client).exchanges()),
        ) == Paging::Finished(json_result(r)),
{
    let ghost pv = params@;
    let base = match params {
        Json::Object(m) => m,
        _ => return Err(to_string("params must be a JSON object")),
    };
    let ghost start = client.exchanges();
    let mut out: Vec<Json> = Vec::new();
    let mut prev: Option<Vec<Json>> = None;
    let mut offset: usize = 0;
    let ghost mut calls: nat = 0;
    assert(made_since(start, client.exchanges()) =~= Seq::<Exchange>::empty());
    assert(start.subrange(0, start.len() as int) =~= start);
    assert(out@.map_values(|x: Json| x@) =~= Seq::<JsonV>::empty());
    loop
        invariant
            pv is Object,
            pv == params@,
            start == old(client).exchanges(),
            base@.map_values(|x: (String, Json)| (x.0@, x.1@)) == pv->Object_0,
            out@.len() < RPC_PAGINATION_SAFETY_CAP,
            page_size > 0 ==> offset <= out@.len(),
            page_size == 0 ==> offset == 0,
            offset == calls * page_size,
            extends(start, client.exchanges()),
            made_since(start, client.exchanges()).len() == calls,
            paging(method@, pv, page_size as nat, made_since(start, client.exchanges()))
                == (Paging::Running {
                rows: out@.map_values(|x: Json| x@),
                last: rows_view(prev),
            }),
        decreases 2 * (RPC_PAGINATION_SAFETY_CAP + 1 - out@.len()) + match prev {
            Some(p) => if p@.len() == 0 {
                0int
            } else {
                1int
            },
            None => 1int,
        },
    {
        let ghost rows = out@.map_values(|x: Json| x@);
        let ghost lastv = rows_view(prev);
        let ghost before_call = client.exchanges();
        let mut members: Vec<(String, Json)> = clone_members(&base);
        set_member(&mut members, "offset", Json::uint(offset as u64));
        set_member(&mut members, "limit", Json::uint(page_size as u64));
        let ghost mv = members@.map_values(|m: (String, Json)| (m.0@, m.1@));
        let request = Json::Object(members);
        assert((request@->Object_0) =~= mv);
        assert(request@ == page_params(pv, offset as int, page_size as nat));
        let reply = client.call(method, Some(request));
        let ghost made = made_since(start, client.exchanges());
        proof {
            assert(made.drop_last() =~= made_since(start, before_call));
            assert(made.last() == client.exchanges().last());
            assert(extends(start, client.exchanges())) by {
                assert(client.exchanges().subrange(0, start.len() as int) =~= start);
            }
            assert(paging(method@, pv, page_size as nat, made) == page_step(
                method@,
                page_size as nat,
                rows,
                lastv,
                json_result(reply),
            ));
        }
        let response = match reply {
            Ok(v) => v,
            Err(e) => {
                assert(page_step(method@, page_size as nat, rows, lastv, Err(e@)) == Paging::Finished(
                    Err(e@),
                ));
                return Err(e);
            },
        };
        let page = match extract_page(&response) {
            Some(p) => p,
            None => {
                if out.len() == 0 {
                    return Ok(response);
                } else if response.is_object() {
                    return Err(
                        rows_message(
                            method,
                            " returned a non-paginated dict after ",
                            out.len(),
                            " accumulated rows; aborting",
                        ),
                    );
                } else {
                    assert(!(response@ is Object));
                    assert(rows.len() == out@.len());
                    return Err(
                        rows_message(
                            method,
                            " returned non-list/non-dict shape after ",
                            out.len(),
                            " accumulated rows; aborting",
                        ),
                    );
                }
            },
        };
        let ghost pagev = page@.map_values(|x: Json| x@);
        let repeated = match &prev {
            Some(p) => same_rows(p, &page),
            None => false,
        };
        if repeated {
            return Err(
                rows_message(
                    method,
                    " returned identical pages \u{2014} method likely ignores offset; aborting after ",
                    out.len(),
                    " rows",
                ),
            );
        }
        assert(lastv != Some(pagev));
        let ghost before = out@.len();
        let page_len = page.len();
        let mut k: usize = 0;
        while k < page.len()
            invariant
                k <= page@.len(),
                out@.len() == before + k,
                out@.map_values(|x: Json| x@) == rows + pagev.take(k as int),
                pagev == page@.map_values(|x: Json| x@),
            decreases page.len() - k,
        {
            let ghost old_out = out@;
            let c = page[k].clone_json();
            out.push(c);
            assert(out@.map_values(|x: Json| x@) =~= old_out.map_values(|x: Json| x@).push(
                pagev[k as int],
            ));
            assert(pagev.take(k + 1) =~= pagev.take(k as int).push(pagev[k as int]));
            assert(out@.map_values(|x: Json| x@) =~= rows + pagev.take(k + 1));
            k += 1;
        }
        assert(pagev.take(page_len as int) =~= pagev);
        if page_len < page_size {
            return Ok(Json::arr(out));
        }
        if out.len() >= RPC_PAGINATION_SAFETY_CAP {
            out.truncate(RPC_PAGINATION_SAFETY_CAP);
            let r = Json::arr(out);
            assert((r@->Array_0) =~= (rows + pagev).take(RPC_PAGINATION_SAFETY_CAP as int));
            return Ok(r);
        }
        proof {
            if page_len == 0 {
                if let Some(p) = prev {
                    if p@.len() == 0 {
                        assert(p@.map_values(|x: Json| x@) =~= page@.map_values(|x: Json| x@));
                    }
                }
            }
            assert((calls + 1) * page_size == calls * page_size + page_size) by (nonlinear_arith);
        }
        prev = Some(page);
        offset = offset + page_size;
        proof {
            calls = calls + 1;
        }
    }
}

fn clone_members(m: &Vec<(String, Json)>) -> (r: Vec<(String, Json)>)
    ensures
        r@.map_values(|x: (String, Json)| (x.0@, x.1@)) == m@.map_values(|x: (String, Json)| (x.0@, x.1@)),
{
    let mut out: Vec<(String, Json)> = Vec::new();
    let mut i: usize = 0;
    while i < m.len()
        invariant
            i <= m@.len(),
            out@.len() == i,
            forall|j: int| 0 <= j < i ==> (#[trigger] out@[j]).0@ == m@[j].0@ && out@[j].1@ == m@[j].1@,
        decreases m.len() - i,
    {
        out.push((to_string(m[i].0.as_str()), m[i].1.clone_json()));
        i += 1;
    }
    assert(out@.map_values(|x: (String, Json)| (x.0@, x.1@)) =~= m@.map_values(|x: (String, Json)| (x.0@, x.1@)));
    out
}

/// The bytes a PDF file starts with: `%PDF-`.
pub open spec fn pdf_magic() -> Seq<u8> {
    seq![0x25u8, 0x50u8, 0x44u8, 0x46u8, 0x2Du8]
}

/// Checks that the contents of the file at `path` are a PDF: they start with
/// `%PDF-`. Gives their size, or the refusal naming the path.
pub fn check_pdf_magic(path: &str, bytes: &Vec<u8>) -> (r: Result<u64, String>)
    ensures
        bytes@.len() >= 5 && bytes@.take(5) == pdf_magic() ==> r == Ok::<u64, String>(bytes@.len() as u64),
        !(bytes@.len() >= 5 && bytes@.take(5) == pdf_magic()) ==> (r matches Err(e) && e@
            == "INVALID_PDF: "@ + path@ + " does not start with %PDF- magic bytes"@),
{
    let ok = bytes.len() >= 5 && bytes[0] == 0x25 && bytes[1] == 0x50 && bytes[2] == 0x44 && bytes[3]
        == 0x46 && bytes[4] == 0x2D;
    if ok {
        assert(bytes@.take(5) =~= pdf_magic());
        Ok(bytes.len() as u64)
    } else {
        proof {
            if bytes@.len() >= 5 && bytes@.take(5) == pdf_magic() {
                assert(bytes@[0] == bytes@.take(5)[0]);
                assert(bytes@[1] == bytes@.take(5)[1]);
                assert(bytes@[2] == bytes@.take(5)[2]);
                assert(bytes@[3] == bytes@.take(5)[3]);
                assert(bytes@[4] == bytes@.take(5)[4]);
            }
        }
        let mut m = message("INVALID_PDF: ", path);
        push_str(&mut m, " does not start with %PDF- magic bytes");
        Err(m)
    }
}

} // verus!
