//! Search helpers: local quick matching over item records, saved-search
//! conditions, and finding a collection in the collection tree.

use vstd::prelude::*;
use crate::cli::{called, replied, RpcCaller};
use crate::http::message;
use crate::json::{
    as_array, as_str, at, find_member, key_index, Json, JsonNumber, JsonV, NumberV,
};
use crate::text::{
    chars_of, contains, contains_exec, debug_quote, debug_text, decimal, i64_to_string, join,
    join_strings, push_str, signed_decimal, str_eq, to_lowercase, to_string, u64_to_string,
    unicode_lower, words, words_exec,
};

verus! {

/// The decimal text of a number.
pub open spec fn number_text(n: NumberV) -> Seq<char> {
    match n {
        NumberV::PosInt(x) => decimal(x as nat),
        NumberV::NegInt(x) => signed_decimal(x as int),
        NumberV::Float(t) => t,
    }
}

/// The searchable text of a record: every string, number and boolean in it,
/// depth first, each after a space.
pub open spec fn search_text(v: JsonV) -> Seq<char>
    decreases v,
{
    match v {
        JsonV::Null => seq![],
        JsonV::Bool(b) => if b {
            " true"@
        } else {
            " false"@
        },
        JsonV::Number(n) => seq![' '] + number_text(n),
        JsonV::Str(t) => seq![' '] + t,
        JsonV::Array(a) => seq_text(a),
        JsonV::Object(m) => members_text(m),
    }
}

pub open spec fn seq_text(a: Seq<JsonV>) -> Seq<char>
    decreases a,
{
    if a.len() == 0 {
        seq![]
    } else {
        seq_text(a.drop_last()) + search_text(a.last())
    }
}

pub open spec fn members_text(m: Seq<(Seq<char>, JsonV)>) -> Seq<char>
    decreases m,
{
    if m.len() == 0 {
        seq![]
    } else {
        members_text(m.drop_last()) + search_text(m.last().1)
    }
}

/// Appends the searchable text of `value` to `out`.
pub fn append_search_text(value: &Json, out: &mut String)
    ensures
        final(out)@ == old(out)@ + search_text(value@),
    decreases value,
{
    match value {
        Json::Null => {
            assert(out@ + search_text(value@) =~= out@);
        },
        Json::Bool(b) => {
            if *b {
                push_str(out, " true");
            } else {
                push_str(out, " false");
            }
        },
        Json::Number(n) => {
            out.push(' ');
            match n {
                JsonNumber::PosInt(x) => {
                    let t = u64_to_string(*x);
                    push_str(out, t.as_str());
                },
                JsonNumber::NegInt(x) => {
                    let t = i64_to_string(*x);
                    push_str(out, t.as_str());
                },
                JsonNumber::Float(t) => push_str(out, t.as_str()),
            }
            assert(final(out)@ =~= old(out)@ + search_text(value@));
        },
        Json::Str(t) => {
            out.push(' ');
            push_str(out, t.as_str());
            assert(final(out)@ =~= old(out)@ + search_text(value@));
        },
        Json::Array(a) => {
            let ghost av = value@->Array_0;
            assert(av =~= a@.map_values(|x: Json| x@));
            let ghost start = out@;
            let mut i: usize = 0;
            assert(start + seq_text(av.take(0)) =~= start);
            while i < a.len()
                invariant
                    *value == Json::Array(*a),
                    av == a@.map_values(|x: Json| x@),
                    i <= a@.len(),
                    out@ == start + seq_text(av.take(i as int)),
                decreases a.len() - i,
            {
                assert(decreases_to!(*value => a@[i as int])) by {
                    assert(decreases_to!(*value => (*value)->Array_0));
                    assert(decreases_to!(*a => a@));
                    assert(decreases_to!(a@ => a@[i as int]));
                }
                proof {
                    assert(av.take(i + 1).drop_last() =~= av.take(i as int));
                    assert(av.take(i + 1).last() == a@[i as int]@);
                }
                append_search_text(&a[i], out);
                assert(out@ =~= start + seq_text(av.take(i + 1)));
                i += 1;
            }
            assert(av.take(a@.len() as int) =~= av);
        },
        Json::Object(m) => {
            let ghost mv = value@->Object_0;
            assert(mv =~= m@.map_values(|x: (String, Json)| (x.0@, x.1@)));
            let ghost start = out@;
            let mut i: usize = 0;
            assert(start + members_text(mv.take(0)) =~= start);
            while i < m.len()
                invariant
                    *value == Json::Object(*m),
                    mv == m@.map_values(|x: (String, Json)| (x.0@, x.1@)),
                    i <= m@.len(),
                    out@ == start + members_text(mv.take(i as int)),
                decreases m.len() - i,
            {
                assert(decreases_to!(*value => m@[i as int].1)) by {
                    assert(decreases_to!(*value => (*value)->Object_0));
                    assert(decreases_to!(*m => m@));
                    assert(decreases_to!(m@ => m@[i as int]));
                    assert(decreases_to!(m@[i as int] => m@[i as int].1));
                }
                proof {
                    assert(mv.take(i + 1).drop_last() =~= mv.take(i as int));
                    assert(mv.take(i + 1).last() == (m@[i as int].0@, m@[i as int].1@));
                }
                append_search_text(&m[i].1, out);
                assert(out@ =~= start + members_text(mv.take(i + 1)));
                i += 1;
            }
            assert(mv.take(m@.len() as int) =~= mv);
        },
    }
}

/// The lower-cased, non-empty words of a query, in order.
pub open spec fn query_terms(ws: Seq<Seq<char>>) -> Seq<Seq<char>>
    decreases ws.len(),
{
    if ws.len() == 0 {
        seq![]
    } else {
        query_terms(ws.drop_last()) + if unicode_lower(ws.last()).len() > 0 {
            seq![unicode_lower(ws.last())]
        } else {
            seq![]
        }
    }
}

/// A record matches a quick search when its lower-cased searchable text
/// contains every lower-cased word of the query (any record matches an empty
/// query).
pub open spec fn quick_matches(item: JsonV, query: Seq<char>) -> bool {
    let terms = query_terms(words(query));
    let hay = unicode_lower(search_text(item));
    forall|i: int| 0 <= i < terms.len() ==> contains(hay, #[trigger] terms[i])
}

/// Whether a record matches a quick-search query (see `quick_matches`).
pub fn quick_item_matches(item: &Json, query: &str) -> (r: bool)
    ensures
        r == quick_matches(item@, query@),
{
    let ws = words_exec(&chars_of(query));
    let ghost wv = ws@.map_values(|w: String| w@);
    assert(wv == words(query@));
    let mut terms: Vec<String> = Vec::new();
    let mut i: usize = 0;
    while i < ws.len()
        invariant
            i <= ws@.len(),
            wv == ws@.map_values(|w: String| w@),
            terms@.map_values(|t: String| t@) == query_terms(wv.take(i as int)),
        decreases ws.len() - i,
    {
        proof {
            assert(wv.take(i + 1).drop_last() =~= wv.take(i as int));
            assert(wv.take(i + 1).last() == ws@[i as int]@);
        }
        let t = to_lowercase(ws[i].as_str());
        let ghost before = terms@.map_values(|t: String| t@);
        if !t.as_str().is_empty() {
            terms.push(t);
            assert(terms@.map_values(|t: String| t@) =~= before + seq![unicode_lower(ws@[i as int]@)]);
        } else {
            assert(terms@.map_values(|t: String| t@) =~= before + Seq::<Seq<char>>::empty());
        }
        i += 1;
    }
    assert(wv.take(ws@.len() as int) =~= wv);
    let ghost tv = terms@.map_values(|t: String| t@);
    if terms.len() == 0 {
        return true;
    }
    let mut text = String::new();
    append_search_text(item, &mut text);
    assert(text@ =~= search_text(item@));
    let hay = to_lowercase(text.as_str());
    let h = chars_of(hay.as_str());
    let mut k: usize = 0;
    while k < terms.len()
        invariant
            k <= terms@.len(),
            tv == terms@.map_values(|t: String| t@),
            tv == query_terms(words(query@)),
            h@ == unicode_lower(search_text(item@)),
            forall|j: int| 0 <= j < k ==> contains(h@, #[trigger] tv[j]),
        decreases terms.len() - k,
    {
        let tc = chars_of(terms[k].as_str());
        if !contains_exec(&h, &tc) {
            assert(!contains(h@, tv[k as int]));
            return false;
        }
        k += 1;
    }
    true
}

/// A saved-search condition written `field operator value` (the value may
/// hold spaces).
pub open spec fn condition_of(raw: Seq<char>) -> Result<JsonV, Seq<char>> {
    let ws = words(raw);
    if ws.len() >= 3 {
        Ok(
            JsonV::Object(
                seq![
                    ("field"@, JsonV::Str(ws[0])),
                    ("operator"@, JsonV::Str(ws[1])),
                    ("value"@, JsonV::Str(join(ws.skip(2), seq![' ']))),
                ],
            ),
        )
    } else {
        Err("INVALID_ARGS: --condition must be 'field operator value', got: "@ + debug_text(raw))
    }
}

/// Parses a saved-search condition (see `condition_of`).
pub fn parse_search_condition(raw: &str) -> (r: Result<Json, String>)
    ensures
        match (r, condition_of(raw@)) {
            (Ok(v), Ok(w)) => v@ == w,
            (Err(e), Err(f)) => e@ == f,
            _ => false,
        },
{
    let ws = words_exec(&chars_of(raw));
    let ghost wv = ws@.map_values(|w: String| w@);
    if ws.len() < 3 {
        let q = debug_quote(raw);
        return Err(
            message("INVALID_ARGS: --condition must be 'field operator value', got: ", q.as_str()),
        );
    }
    let mut rest: Vec<String> = Vec::new();
    let mut i: usize = 2;
    while i < ws.len()
        invariant
            2 <= i <= ws@.len(),
            wv == ws@.map_values(|w: String| w@),
            rest@.map_values(|w: String| w@) == wv.subrange(2, i as int),
        decreases ws.len() - i,
    {
        let w = to_string(ws[i].as_str());
        assert(w@ == wv[i as int]);
        let ghost before = rest@.map_values(|w: String| w@);
        rest.push(w);
        assert(rest@.map_values(|w: String| w@) =~= before.push(wv[i as int]));
        assert(wv.subrange(2, i + 1) =~= wv.subrange(2, i as int).push(wv[i as int]));
        i += 1;
    }
    assert(wv.subrange(2, ws@.len() as int) =~= wv.skip(2));
    proof {
        reveal_strlit(" ");
    }
    let value = join_strings(&rest, " ");
    assert(" "@ =~= seq![' ']);
    let mut members: Vec<(String, Json)> = Vec::new();
    members.push((to_string("field"), Json::str(ws[0].as_str())));
    members.push((to_string("operator"), Json::str(ws[1].as_str())));
    members.push((to_string("value"), Json::str(value.as_str())));
    let r = Json::Object(members);
    proof {
        let m = r@->Object_0;
        let want = condition_of(raw@)->Ok_0->Object_0;
        assert(m[0] == want[0]);
        assert(m[1] == want[1]);
        assert(m[2] == want[2]);
        assert(m =~= want);
    }
    Ok(r)
}

// ---------------------------------------------------------------------------
// The collection tree.
// ---------------------------------------------------------------------------

/// A tree node that is the collection: its key or its name is `c`.
pub open spec fn node_is(node: JsonV, c: Seq<char>) -> bool {
    as_str(at(node, "key"@)) == Some(c) || as_str(at(node, "name"@)) == Some(c)
}

/// The first node of the forest, depth first (a node before its children,
/// its children before its later siblings), that is the collection `c`.
pub open spec fn tree_find(nodes: Seq<JsonV>, c: Seq<char>) -> Option<JsonV>
    decreases nodes,
{
    if nodes.len() == 0 {
        None
    } else if node_is(nodes[0], c) {
        Some(nodes[0])
    } else {
        let below = match nodes[0] {
            JsonV::Object(m) => match key_index(m, "children"@) {
                Some(j) => if 0 <= j < m.len() {
                    match m[j].1 {
                        JsonV::Array(kids) => tree_find(kids, c),
                        _ => None,
                    }
                } else {
                    None
                },
                None => None,
            },
            _ => None,
        };
        match below {
            Some(f) => Some(f),
            None => tree_find(nodes.subrange(1, nodes.len() as int), c),
        }
    }
}

fn node_is_exec(node: &Json, c: &str) -> (r: bool)
    ensures
        r == node_is(node@, c@),
{
    let k = node.at("key");
    let n = node.at("name");
    let by_key = match k.as_str() {
        Some(s) => str_eq(s, c),
        None => false,
    };
    let by_name = match n.as_str() {
        Some(s) => str_eq(s, c),
        None => false,
    };
    by_key || by_name
}

/// Finds a collection by key or name anywhere in the collection tree.
pub fn search_collection_tree(nodes: &Vec<Json>, collection: &str) -> (r: Option<Json>)
    ensures
        match r {
            Some(v) => tree_find(nodes@.map_values(|x: Json| x@), collection@) == Some(v@),
            None => tree_find(nodes@.map_values(|x: Json| x@), collection@) is None,
        },
    decreases nodes,
{
    let ghost nv = nodes@.map_values(|x: Json| x@);
    let mut i: usize = 0;
    assert(nv.subrange(0, nv.len() as int) =~= nv);
    while i < nodes.len()
        invariant
            i <= nodes@.len(),
            nv == nodes@.map_values(|x: Json| x@),
            tree_find(nv, collection@) == tree_find(nv.subrange(i as int, nv.len() as int), collection@),
        decreases nodes.len() - i,
    {
        let ghost rest = nv.subrange(i as int, nv.len() as int);
        assert(rest[0] == nodes@[i as int]@);
        assert(rest.subrange(1, rest.len() as int) =~= nv.subrange(i + 1, nv.len() as int));
        let node = &nodes[i];
        if node_is_exec(node, collection) {
            return Some(node.clone_json());
        }
        let mut found: Option<Json> = None;
        match node {
            Json::Object(m) => {
                let ghost mv = m@.map_values(|x: (String, Json)| (x.0@, x.1@));
                assert(mv =~= (node@->Object_0));
                match find_member(m, "children") {
                    Some(j) => {
                        proof {
                            crate::json::lemma_key_index(mv, "children"@);
                        }
                        match &m[j].1 {
                            Json::Array(kids) => {
                                assert(decreases_to!(*nodes => *kids)) by {
                                    assert(decreases_to!(*nodes => nodes@));
                                    assert(decreases_to!(nodes@ => nodes@[i as int]));
                                    assert(decreases_to!(nodes@[i as int] => (nodes@[i as int])->Object_0));
                                    assert(decreases_to!(*m => m@));
                                    assert(decreases_to!(m@ => m@[j as int]));
                                    assert(decreases_to!(m@[j as int] => m@[j as int].1));
                                    assert(decreases_to!(m@[j as int].1 => (m@[j as int].1)->Array_0));
                                }
                                assert(mv[j as int].1 == JsonV::Array(kids@.map_values(|x: Json| x@))) by {
                                    assert((mv[j as int].1->Array_0) =~= kids@.map_values(|x: Json| x@));
                                }
                                found = search_collection_tree(kids, collection);
                            },
                            _ => {},
                        }
                    },
                    None => {},
                }
            },
            _ => {},
        }
        match found {
            Some(f) => return Some(f),
            None => {},
        }
        i += 1;
    }
    None
}

/// A lookup result by its view.
pub open spec fn found_view(r: Result<Option<Json>, String>) -> Result<Option<JsonV>, Seq<char>> {
    match r {
        Ok(Some(v)) => Ok(Some(v@)),
        Ok(None) => Ok(None),
        Err(e) => Err(e@),
    }
}

/// Finds a collection in the tree Zotero reports, with one
/// `collections.tree` call.
pub fn find_collection_in_tree<C: RpcCaller>(client: &mut C, collection: &str) -> (r: Result<
    Option<Json>,
    String,
>)
    ensures
        called(old(client).exchanges(), final(client).exchanges(), "collections.tree"@, None),
        found_view(r) == tree_answer(replied(final(client).exchanges()), collection@),
{
    let reply = client.call("collections.tree", None);
    assert(client.exchanges().drop_last() =~= old(client).exchanges());
    let tree = match reply {
        Ok(t) => t,
        Err(e) => return Err(e),
    };
    let nodes = match tree.as_array() {
        Some(n) => n,
        None => return Err(to_string("collections.tree returned non-array result")),
    };
    let r = search_collection_tree(nodes, collection);
    assert(tree@ == JsonV::Array(nodes@.map_values(|x: Json| x@)));
    Ok(r)
}

/// What the tree lookup yields for the reply to `collections.tree`.
pub open spec fn tree_answer(reply: Result<JsonV, Seq<char>>, c: Seq<char>) -> Result<
    Option<JsonV>,
    Seq<char>,
> {
    match reply {
        Err(e) => Err(e),
        Ok(tree) => match as_array(tree) {
            Some(nodes) => Ok(tree_find(nodes, c)),
            None => Err("collections.tree returned non-array result"@),
        },
    }
}

// ---------------------------------------------------------------------------
// Annotation arguments.
// ---------------------------------------------------------------------------

/// Five, six and five ASCII digits joined by `|` (Zotero's PDF sort index).
pub open spec fn pdf_sort_index(v: Seq<char>) -> bool {
    v.len() == 18 && v[5] == '|' && v[12] == '|' && forall|i: int|
        0 <= i < 18 && i != 5 && i != 12 ==> '0' <= #[trigger] v[i] <= '9'
}

/// Whether a sort index is in Zotero's PDF form `ppppp|oooooo|yyyyy`.
pub fn is_zotero_pdf_sort_index(value: &str) -> (r: bool)
    ensures
        r == pdf_sort_index(value@),
{
    let v = chars_of(value);
    if v.len() != 18 || v[5] != '|' || v[12] != '|' {
        return false;
    }
    let mut i: usize = 0;
    while i < 18
        invariant
            i <= 18,
            v@ == value@,
            v@.len() == 18,
            v@[5] == '|',
            v@[12] == '|',
            forall|k: int| 0 <= k < i && k != 5 && k != 12 ==> '0' <= #[trigger] v@[k] <= '9',
        decreases 18 - i,
    {
        if i != 5 && i != 12 && !('0' <= v[i] && v[i] <= '9') {
            return false;
        }
        i += 1;
    }
    true
}

/// A rectangle `[x1, y1, x2, y2]`: four numbers. (A JSON number is always
/// finite.)
pub open spec fn annotation_rect(v: JsonV) -> bool {
    match as_array(v) {
        Some(c) => c.len() == 4 && forall|i: int| 0 <= i < 4 ==> #[trigger] c[i] is Number,
        None => false,
    }
}

pub fn is_annotation_rect(value: &Json) -> (r: bool)
    ensures
        r == annotation_rect(value@),
{
    let c = match value.as_array() {
        Some(c) => c,
        None => return false,
    };
    if c.len() != 4 {
        return false;
    }
    let mut i: usize = 0;
    while i < 4
        invariant
            i <= 4,
            c@.len() == 4,
            as_array(value@) == Some(c@.map_values(|x: Json| x@)),
            forall|k: int| 0 <= k < i ==> c@[k]@ is Number,
        decreases 4 - i,
    {
        match &c[i] {
            Json::Number(_) => {},
            _ => {
                assert(!(c@.map_values(|x: Json| x@)[i as int] is Number));
                return false;
            },
        }
        i += 1;
    }
    let ghost cv = c@.map_values(|x: Json| x@);
    assert forall|k: int| 0 <= k < 4 implies #[trigger] cv[k] is Number by {
        assert(cv[k] == c@[k]@);
    }
    true
}

/// What an annotation's position must hold: a non-negative integer
/// `pageIndex`; non-empty `paths` for ink, non-empty `rects` of four numbers
/// otherwise.
pub open spec fn position_check(annotation_type: Seq<char>, position: JsonV) -> Result<(), Seq<char>> {
    match crate::json::as_i64(at(position, "pageIndex"@)) {
        Some(p) if p >= 0 => if annotation_type == "ink"@ {
            match as_array(at(position, "paths"@)) {
                Some(ps) if ps.len() > 0 => Ok(()),
                _ => Err("INVALID_ARGS: ink --position must include non-empty paths"@),
            }
        } else {
            match as_array(at(position, "rects"@)) {
                Some(rs) if rs.len() > 0 && forall|i: int|
                    0 <= i < rs.len() ==> annotation_rect(#[trigger] rs[i]) => Ok(()),
                _ => Err(
                    "INVALID_ARGS: --position must include non-empty rects of [x1, y1, x2, y2]"@,
                ),
            }
        },
        _ => Err("INVALID_ARGS: --position must include a non-negative integer pageIndex"@),
    }
}

/// Checks an annotation's `--position` (see `position_check`).
pub fn validate_annotation_position(annotation_type: &str, position: &Json) -> (r: Result<(), String>)
    ensures
        match (r, position_check(annotation_type@, position@)) {
            (Ok(()), Ok(())) => true,
            (Err(e), Err(f)) => e@ == f,
            _ => false,
        },
{
    let page = position.at("pageIndex").as_i64();
    match page {
        Some(p) => if p < 0 {
            return Err(to_string("INVALID_ARGS: --position must include a non-negative integer pageIndex"));
        },
        None => return Err(to_string("INVALID_ARGS: --position must include a non-negative integer pageIndex")),
    }
    if str_eq(annotation_type, "ink") {
        let paths = position.at("paths");
        let ok = match paths.as_array() {
            Some(ps) => ps.len() > 0,
            None => false,
        };
        if !ok {
            return Err(to_string("INVALID_ARGS: ink --position must include non-empty paths"));
        }
        return Ok(());
    }
    let rects = position.at("rects");
    let rs = match rects.as_array() {
        Some(rs) => rs,
        None => return Err(to_string("INVALID_ARGS: --position must include non-empty rects of [x1, y1, x2, y2]")),
    };
    let ghost rv = rs@.map_values(|x: Json| x@);
    if rs.len() == 0 {
        return Err(to_string("INVALID_ARGS: --position must include non-empty rects of [x1, y1, x2, y2]"));
    }
    let mut i: usize = 0;
    while i < rs.len()
        invariant
            i <= rs@.len(),
            rv == rs@.map_values(|x: Json| x@),
            rv.len() > 0,
            as_array(at(position@, "rects"@)) == Some(rv),
            annotation_type@ != "ink"@,
            crate::json::as_i64(at(position@, "pageIndex"@)) matches Some(p) && p >= 0,
            forall|k: int| 0 <= k < i ==> annotation_rect(#[trigger] rv[k]),
        decreases rs.len() - i,
    {
        if !is_annotation_rect(&rs[i]) {
            assert(!annotation_rect(rv[i as int]));
            return Err(to_string("INVALID_ARGS: --position must include non-empty rects of [x1, y1, x2, y2]"));
        }
        i += 1;
    }
    Ok(())
}

/// What the tree search finds is the collection asked for: a node whose key
/// or name is it.
pub proof fn law_tree_find_matches(nodes: Seq<JsonV>, c: Seq<char>)
    ensures
        tree_find(nodes, c) matches Some(v) ==> node_is(v, c),
    decreases nodes,
{
    if nodes.len() > 0 && !node_is(nodes[0], c) {
        if let JsonV::Object(m) = nodes[0] {
            if let Some(j) = key_index(m, "children"@) {
                if 0 <= j < m.len() {
                    if let JsonV::Array(kids) = m[j].1 {
                        assert(decreases_to!(nodes => kids)) by {
                            assert(decreases_to!(nodes => nodes[0]));
                            assert(decreases_to!(nodes[0] => m));
                            assert(decreases_to!(m => m[j]));
                            assert(decreases_to!(m[j] => m[j].1));
                            assert(decreases_to!(m[j].1 => kids));
                        }
                        law_tree_find_matches(kids, c);
                    }
                }
            }
        }
        law_tree_find_matches(nodes.subrange(1, nodes.len() as int), c);
    }
}

} // verus!
