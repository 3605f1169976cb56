use zotron::cli::collections::{normalize_collection_name, resolve_collection, resolve_collection_in};
use zotron::cli::items::{
    collection_items, extract_page, first_hit_key, has_pdf_attachment, is_library_root,
    is_pdf_attachment, is_remote_pdf, paginate_rpc, take_embedded_pdf, to_xpi_payload,
};
use zotron::cli::search::{
    find_collection_in_tree, is_annotation_rect, is_zotero_pdf_sort_index, parse_search_condition,
    quick_item_matches, search_collection_tree, validate_annotation_position,
};
use zotron::cli::RpcCaller;
use zotron::json::{Json, JsonNumber};
use zotron::text::parse_i64;

fn to_json(v: &serde_json::Value) -> Json {
    match v {
        serde_json::Value::Null => Json::Null,
        serde_json::Value::Bool(b) => Json::Bool(*b),
        serde_json::Value::Number(n) => match (n.as_u64(), n.as_i64()) {
            (Some(u), _) => Json::Number(JsonNumber::PosInt(u)),
            (None, Some(i)) => Json::Number(JsonNumber::NegInt(i)),
            _ => Json::Number(JsonNumber::Float(n.to_string())),
        },
        serde_json::Value::String(s) => Json::Str(s.clone()),
        serde_json::Value::Array(a) => Json::Array(a.iter().map(to_json).collect()),
        serde_json::Value::Object(m) => {
            Json::Object(m.iter().map(|(k, x)| (k.clone(), to_json(x))).collect())
        }
    }
}

fn j(text: &str) -> Json {
    to_json(&serde_json::from_str::<serde_json::Value>(text).expect("valid JSON"))
}

fn to_value(j: &Json) -> serde_json::Value {
    match j {
        Json::Null => serde_json::Value::Null,
        Json::Bool(b) => serde_json::Value::Bool(*b),
        Json::Number(JsonNumber::PosInt(n)) => serde_json::Value::from(*n),
        Json::Number(JsonNumber::NegInt(n)) => serde_json::Value::from(*n),
        Json::Number(JsonNumber::Float(t)) => serde_json::from_str(t).expect("number"),
        Json::Str(s) => serde_json::Value::String(s.clone()),
        Json::Array(a) => serde_json::Value::Array(a.iter().map(to_value).collect()),
        Json::Object(m) => serde_json::Value::Object(
            m.iter().map(|(k, x)| (k.clone(), to_value(x))).collect(),
        ),
    }
}

fn v(text: &str) -> serde_json::Value {
    serde_json::from_str(text).expect("valid JSON")
}

struct FakeRpc {
    responses: Vec<Result<Json, String>>,
    calls: Vec<(String, Option<serde_json::Value>)>,
}

impl RpcCaller for FakeRpc {
    fn call(&mut self, method: &str, params: Option<Json>) -> Result<Json, String> {
        self.calls.push((method.to_string(), params.as_ref().map(to_value)));
        if self.responses.is_empty() {
            Err("rpc unreachable".to_string())
        } else {
            self.responses.remove(0)
        }
    }
}

fn fake(responses: Vec<Result<Json, String>>) -> FakeRpc {
    FakeRpc { responses, calls: Vec::new() }
}

#[test]
fn collection_names_normalize_whitespace_and_case() {
    assert_eq!(normalize_collection_name("  My   Reading\tList "), "my reading list");
}

#[test]
fn integers_parse_like_std() {
    assert_eq!(parse_i64("42"), Some(42));
    assert_eq!(parse_i64("-7"), Some(-7));
    assert_eq!(parse_i64("+3"), Some(3));
    assert_eq!(parse_i64("-9223372036854775808"), Some(i64::MIN));
    assert_eq!(parse_i64("9223372036854775808"), None);
    assert_eq!(parse_i64(""), None);
    assert_eq!(parse_i64("-"), None);
    assert_eq!(parse_i64("1a"), None);
}

#[test]
fn collections_resolve_by_key_then_exact_then_fuzzy_name() {
    let list = j(r#"{"items": [
        {"key": "AAA", "name": "Deep Learning"},
        {"key": "BBB", "name": "Reading List"},
        {"key": "CCC", "name": "reading   list archive"}
    ]}"#);
    assert_eq!(to_value(&resolve_collection_in(&list, "BBB").unwrap()), v(r#""BBB""#));
    assert_eq!(to_value(&resolve_collection_in(&list, "Deep Learning").unwrap()), v(r#""AAA""#));
    assert_eq!(to_value(&resolve_collection_in(&list, "ARCHIVE").unwrap()), v(r#""CCC""#));
    assert_eq!(
        resolve_collection_in(&list, "reading").unwrap_err(),
        "COLLECTION_AMBIGUOUS: Multiple collections match \"reading\""
    );
    assert_eq!(
        resolve_collection_in(&list, "nope").unwrap_err(),
        "COLLECTION_NOT_FOUND: No collection named \"nope\""
    );
    assert_eq!(
        resolve_collection_in(&j("{}"), "x").unwrap_err(),
        "collections.list returned non-array result"
    );
}

#[test]
fn numeric_collection_ids_need_no_rpc() {
    let mut rpc = fake(vec![]);
    let key = resolve_collection(&mut rpc, " 12 ").unwrap();
    assert_eq!(to_value(&key), v("12"));
    assert!(rpc.calls.is_empty());
    let mut rpc = fake(vec![Ok(j(r#"[{"key": "K1", "name": "Inbox"}]"#))]);
    assert_eq!(to_value(&resolve_collection(&mut rpc, "Inbox").unwrap()), v(r#""K1""#));
    assert_eq!(rpc.calls[0].0, "collections.list");
}

#[test]
fn tree_search_finds_nested_collections_depth_first() {
    let tree = j(r#"[
        {"key": "A", "name": "Top", "children": [
            {"key": "B", "name": "Child", "children": [{"key": "C", "name": "Leaf"}]}
        ]},
        {"key": "D", "name": "Leaf"}
    ]"#);
    let nodes = match &tree {
        Json::Array(a) => a,
        _ => panic!("array"),
    };
    let found = search_collection_tree(nodes, "Leaf").unwrap();
    assert_eq!(to_value(&found), v(r#"{"key": "C", "name": "Leaf"}"#));
    assert!(search_collection_tree(nodes, "Z").is_none());
    let mut rpc = fake(vec![Ok(j(r#"{"not": "a list"}"#))]);
    assert_eq!(
        find_collection_in_tree(&mut rpc, "A").unwrap_err(),
        "collections.tree returned non-array result"
    );
}

#[test]
fn xpi_payload_keeps_fields_creators_tags_and_collection() {
    let item = j(r#"{
        "itemType": "book",
        "title": "T",
        "abstractNote": "",
        "date": null,
        "key": "IGNORED",
        "_pdf": "/tmp/x.pdf",
        "creators": [{"lastName": "Doe", "fieldMode": 1}],
        "tags": [{"tag": "ml"}, "raw"]
    }"#);
    let payload = to_xpi_payload(&item, Some(&j(r#""COLL""#)));
    assert_eq!(
        to_value(&payload),
        v(r#"{
            "itemType": "book",
            "fields": {"title": "T"},
            "creators": [{"firstName": "", "lastName": "Doe", "creatorType": "author", "fieldMode": 1}],
            "tags": ["ml", "raw"],
            "collections": ["COLL"]
        }"#)
    );
    let bare = to_xpi_payload(&j(r#"{"title": "X"}"#), Some(&j("0")));
    assert_eq!(
        to_value(&bare),
        v(r#"{"itemType": "journalArticle", "fields": {"title": "X"}}"#)
    );
    assert!(is_library_root(&j("0")));
    assert!(!is_library_root(&j(r#""0""#)));
}

#[test]
fn embedded_pdf_is_taken_out_of_the_item() {
    let mut item = j(r#"{"title": "T", "_pdf": " https://x.org/a.pdf "}"#);
    assert_eq!(take_embedded_pdf(&mut item), Ok(Some(" https://x.org/a.pdf ".to_string())));
    assert_eq!(to_value(&item), v(r#"{"title": "T"}"#));
    let mut blank = j(r#"{"_pdf": "  "}"#);
    assert_eq!(take_embedded_pdf(&mut blank), Ok(None));
    let mut bad = j(r#"{"_pdf": 3}"#);
    assert_eq!(
        take_embedded_pdf(&mut bad),
        Err("INVALID_ARGS: \"_pdf\" must be a URL or local path string, got 3".to_string())
    );
    assert!(is_remote_pdf("  HTTPS://x.org/a.pdf"));
    assert!(!is_remote_pdf("/home/a.pdf"));
}

#[test]
fn response_shapes_and_attachments() {
    assert_eq!(first_hit_key(&j(r#"{"items": [{"key": "K"}]}"#)).as_deref(), Some("K"));
    assert_eq!(first_hit_key(&j(r#"[{"key": "L"}]"#)).as_deref(), Some("L"));
    assert_eq!(first_hit_key(&j(r#"{"items": []}"#)), None);
    assert_eq!(collection_items(&j(r#"{"total": 1}"#)).len(), 0);
    assert!(is_pdf_attachment(&j(r#"{"contentType": "Application/PDF"}"#)));
    assert!(is_pdf_attachment(&j(r#"{"path": "/x/A.PDF"}"#)));
    assert!(!is_pdf_attachment(&j(r#"{"contentType": "text/html"}"#)));
    assert!(has_pdf_attachment(&j(r#"[{"path": "a.txt"}, {"contentType": "application/x-pdf"}]"#)));
    assert!(!has_pdf_attachment(&j(r#"{"items": []}"#)));
    let page = extract_page(&j(r#"{"total": 2, "tags": [1, 2]}"#)).unwrap();
    assert_eq!(page.len(), 2);
    assert!(extract_page(&j(r#"{"total": 2}"#)).is_none());
}

#[test]
fn pagination_collects_until_a_short_page() {
    let mut rpc = fake(vec![Ok(j("[1, 2]")), Ok(j(r#"{"items": [3, 4]}"#)), Ok(j("[5]"))]);
    let all = paginate_rpc(&mut rpc, "items.list", j(r#"{"q": 1}"#), 2).unwrap();
    assert_eq!(to_value(&all), v("[1, 2, 3, 4, 5]"));
    assert_eq!(rpc.calls[1].1, Some(v(r#"{"q": 1, "offset": 2, "limit": 2}"#)));
    let mut rpc = fake(vec![Ok(j("[1, 2]")), Ok(j("[1, 2]"))]);
    let err = paginate_rpc(&mut rpc, "m", j("{}"), 2).unwrap_err();
    assert!(err.contains("identical pages"));
    let mut rpc = fake(vec![Ok(j(r#"{"ok": true}"#))]);
    assert_eq!(to_value(&paginate_rpc(&mut rpc, "m", j("{}"), 2).unwrap()), v(r#"{"ok": true}"#));
    let mut rpc = fake(vec![]);
    assert_eq!(paginate_rpc(&mut rpc, "m", j("[]"), 2).unwrap_err(), "params must be a JSON object");
}

#[test]
fn quick_search_matches_every_word_in_any_field() {
    let item = j(r#"{"title": "Deep Learning", "creators": [{"lastName": "LeCun"}], "year": 2015}"#);
    assert!(quick_item_matches(&item, "deep lecun"));
    assert!(quick_item_matches(&item, "2015"));
    assert!(quick_item_matches(&item, "   "));
    assert!(!quick_item_matches(&item, "deep hinton"));
}

#[test]
fn search_conditions_need_three_parts() {
    let c = parse_search_condition("title contains deep learning").unwrap();
    assert_eq!(
        to_value(&c),
        v(r#"{"field": "title", "operator": "contains", "value": "deep learning"}"#)
    );
    assert_eq!(
        parse_search_condition("title contains").unwrap_err(),
        "INVALID_ARGS: --condition must be 'field operator value', got: \"title contains\""
    );
}

#[test]
fn annotation_positions_and_sort_indexes() {
    assert!(is_zotero_pdf_sort_index("00001|000123|00045"));
    assert!(!is_zotero_pdf_sort_index("0001|000123|00045"));
    assert!(!is_zotero_pdf_sort_index("00001|00012a|00045"));
    assert!(is_annotation_rect(&j("[1, 2.5, 3, 4]")));
    assert!(!is_annotation_rect(&j("[1, 2, 3]")));
    assert_eq!(
        validate_annotation_position("highlight", &j(r#"{"pageIndex": 0, "rects": [[0, 0, 1, 1]]}"#)),
        Ok(())
    );
    assert_eq!(
        validate_annotation_position("ink", &j(r#"{"pageIndex": 1, "paths": []}"#)),
        Err("INVALID_ARGS: ink --position must include non-empty paths".to_string())
    );
    assert_eq!(
        validate_annotation_position("note", &j(r#"{"pageIndex": -1}"#)),
        Err("INVALID_ARGS: --position must include a non-negative integer pageIndex".to_string())
    );
    assert_eq!(
        validate_annotation_position("highlight", &j(r#"{"pageIndex": 0, "rects": [[0, 0, 1]]}"#)),
        Err("INVALID_ARGS: --position must include non-empty rects of [x1, y1, x2, y2]".to_string())
    );
}
