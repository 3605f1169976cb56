use zotron::cli::commands::{
    check_on_duplicate, find_duplicate, parse_field_options, prepare_push, push_dry_run, push_item,
    resolve_export_keys, run_annotations_command, run_collections_command, run_export,
    run_items_command, run_notes_command, run_search_management_command, run_settings_command,
    run_system_command, run_tags_command, AnnotationsCommand, CollectionsCommand, ExportArgs,
    ItemsCommand, NotesCommand, SearchManagementCommand, SettingsCommand, SystemCommand,
    TagsCommand,
};
use zotron::cli::commands::{run_attachments_command, run_ping, run_rpc_command, AttachmentsCommand};
use zotron::output::format_json;
use zotron::cli::RpcCaller;
use zotron::json::{Json, JsonNumber};
use zotron::ocr::{
    fetch_ocr_api_key_from_settings, resolve_ocr_process_settings, fetch_ocr_provider_from_settings, has_ocr_note,
    resolve_attachment_path, resolve_first_pdf_attachment_key,
};
use zotron::cli::lookup::{finish_quick_search, quick_titles, run_search, SearchArgs, Searched};
use zotron::rag::{
    fetch_embedding_settings, fetch_rag_cutoff_settings, fetch_retrieval_mode, run_rag_search_in_zotero, run_rag_search_xpi_fallback,
    RagSearchOptions,
};

fn to_json(v: &serde_json::Value) -> Json {
    match v {
        serde_json::Value::Null => Json::Null,
        serde_json::Value::Bool(b) => Json::Bool(*b),
        serde_json::Value::Number(n) => match (n.as_u64(), n.as_i64()) {
            (Some(u), _) => Json::Number(JsonNumber::PosInt(u)),
            (None, Some(i)) => Json::Number(JsonNumber::NegInt(i)),
            _ => Json::Number(JsonNumber::Float(n.to_string())),
        },
        serde_json::Value::String(s) => Json::Str(s.clone()),
        serde_json::Value::Array(a) => Json::Array(a.iter().map(to_json).collect()),
        serde_json::Value::Object(m) => {
            Json::Object(m.iter().map(|(k, x)| (k.clone(), to_json(x))).collect())
        }
    }
}

fn j(text: &str) -> Json {
    to_json(&serde_json::from_str::<serde_json::Value>(text).expect("valid JSON"))
}

fn to_value(j: &Json) -> serde_json::Value {
    match j {
        Json::Null => serde_json::Value::Null,
        Json::Bool(b) => serde_json::Value::Bool(*b),
        Json::Number(JsonNumber::PosInt(n)) => serde_json::Value::from(*n),
        Json::Number(JsonNumber::NegInt(n)) => serde_json::Value::from(*n),
        Json::Number(JsonNumber::Float(t)) => serde_json::from_str(t).expect("number"),
        Json::Str(s) => serde_json::Value::String(s.clone()),
        Json::Array(a) => serde_json::Value::Array(a.iter().map(to_value).collect()),
        Json::Object(m) => serde_json::Value::Object(
            m.iter().map(|(k, x)| (k.clone(), to_value(x))).collect(),
        ),
    }
}

fn v(text: &str) -> serde_json::Value {
    serde_json::from_str(text).expect("valid JSON")
}

struct FakeRpc {
    responses: Vec<Result<Json, String>>,
    calls: Vec<(String, Option<serde_json::Value>)>,
}

impl RpcCaller for FakeRpc {
    fn call(&mut self, method: &str, params: Option<Json>) -> Result<Json, String> {
        self.calls.push((method.to_string(), params.as_ref().map(to_value)));
        if self.responses.is_empty() {
            Err("rpc unreachable".to_string())
        } else {
            self.responses.remove(0)
        }
    }
}

fn fake(responses: Vec<Result<Json, String>>) -> FakeRpc {
    FakeRpc { responses, calls: Vec::new() }
}

fn ok(text: &str) -> Result<Json, String> {
    Ok(j(text))
}

fn calls_of(rpc: &FakeRpc) -> Vec<(String, Option<serde_json::Value>)> {
    rpc.calls.clone()
}

fn call(method: &str, params: Option<&str>) -> (String, Option<serde_json::Value>) {
    (method.to_string(), params.map(v))
}

fn strings(items: &[&str]) -> Vec<String> {
    items.iter().map(|s| s.to_string()).collect()
}

#[test]
fn collections_get_accepts_collection_key_reference() {
    let mut rpc = fake(vec![
        ok(r#"[
            {"key": "COL1", "name": "Research", "parentKey": null},
            {"key": "COL2", "name": "Other", "parentKey": null}
        ]"#),
        ok(r#"{"key": "COL1", "name": "Research", "parentKey": null}"#),
    ]);
    let out = run_collections_command(
        CollectionsCommand::Get { name_or_id: "COL1".to_string() },
        &mut rpc,
    )
    .expect("collection key reference resolves");
    assert_eq!(
        calls_of(&rpc),
        vec![call("collections.list", None), call("collections.get", Some(r#"{"key": "COL1"}"#))]
    );
    let payload = to_value(&out);
    assert_eq!(payload["key"], "COL1");
    assert_eq!(payload["name"], "Research");
}

#[test]
fn collections_items_alias_calls_get_items_rpc() {
    let mut rpc = fake(vec![
        ok(r#"[{"key": "COL1", "name": "习中心", "parentKey": null}]"#),
        ok(r#"{"items": [{"key": "ITEM1", "title": "A"}], "total": 1}"#),
    ]);
    let out = run_collections_command(
        CollectionsCommand::GetItems { name_or_id: "习中心".to_string(), limit: None, offset: 0 },
        &mut rpc,
    )
    .expect("collections items alias succeeds");
    assert_eq!(to_value(&out)["total"], 1);
    assert_eq!(
        calls_of(&rpc),
        vec![
            call("collections.list", None),
            call("collections.getItems", Some(r#"{"key": "COL1"}"#)),
        ]
    );
}

#[test]
fn collections_get_items_passes_limit_and_positive_offset() {
    let mut rpc = fake(vec![ok(r#"[{"a": 1}, {"a": 2}]"#)]);
    let out = run_collections_command(
        CollectionsCommand::GetItems { name_or_id: "7".to_string(), limit: Some(2), offset: 4 },
        &mut rpc,
    )
    .unwrap();
    assert_eq!(
        calls_of(&rpc),
        vec![call("collections.getItems", Some(r#"{"key": 7, "limit": 2, "offset": 4}"#))]
    );
    assert_eq!(
        to_value(&out),
        v(r#"{"items": [{"a": 1}, {"a": 2}], "total": 2, "limit": 2, "offset": 4, "hasMore": false}"#)
    );
}

#[test]
fn collection_mutations_refuse_the_library_root_and_honour_dry_run() {
    let mut rpc = fake(vec![]);
    let err = run_collections_command(
        CollectionsCommand::Delete { name_or_id: "0".to_string(), dry_run: false },
        &mut rpc,
    )
    .unwrap_err();
    assert_eq!(err, "COLLECTION_NOT_FOUND: \"0\" resolved to library root (cannot delete)");
    assert!(rpc.calls.is_empty());

    let out = run_collections_command(
        CollectionsCommand::Rename {
            old_name: "12".to_string(),
            new_name: "New".to_string(),
            dry_run: true,
        },
        &mut rpc,
    )
    .unwrap();
    assert_eq!(
        to_value(&out),
        v(r#"{"ok": true, "dryRun": true, "wouldCall": "collections.rename",
              "wouldCallParams": {"key": 12, "name": "New"}}"#)
    );
    assert!(rpc.calls.is_empty());

    let mut rpc = fake(vec![ok(r#"{"ok": true}"#)]);
    run_collections_command(
        CollectionsCommand::AddItems {
            collection: "3".to_string(),
            item_keys: strings(&["A", "B"]),
            dry_run: false,
        },
        &mut rpc,
    )
    .unwrap();
    assert_eq!(
        calls_of(&rpc),
        vec![call("collections.addItems", Some(r#"{"key": 3, "keys": ["A", "B"]}"#))]
    );
}

#[test]
fn collection_create_resolves_the_parent_first() {
    let mut rpc = fake(vec![ok(r#"[{"key": "P1", "name": "Parent"}]"#), ok(r#"{"key": "NEW"}"#)]);
    let out = run_collections_command(
        CollectionsCommand::Create {
            name: "Child".to_string(),
            parent: Some("Parent".to_string()),
            dry_run: false,
        },
        &mut rpc,
    )
    .unwrap();
    assert_eq!(to_value(&out), v(r#"{"key": "NEW"}"#));
    assert_eq!(
        calls_of(&rpc),
        vec![
            call("collections.list", None),
            call("collections.create", Some(r#"{"name": "Child", "parentKey": "P1"}"#)),
        ]
    );
    let mut rpc = fake(vec![Err("boom".to_string())]);
    let err = run_collections_command(CollectionsCommand::Tree, &mut rpc).unwrap_err();
    assert_eq!(err, "boom");
}

#[test]
fn tags_add_one_item_or_batch() {
    let mut rpc = fake(vec![ok("{}"), ok("{}")]);
    run_tags_command(
        TagsCommand::Add { keys: strings(&["K1"]), tags: strings(&["x", "y"]), dry_run: false },
        &mut rpc,
    )
    .unwrap();
    run_tags_command(
        TagsCommand::Remove { keys: strings(&["K1", "K2"]), tags: strings(&["x"]), dry_run: false },
        &mut rpc,
    )
    .unwrap();
    assert_eq!(
        calls_of(&rpc),
        vec![
            call("tags.add", Some(r#"{"key": "K1", "tags": ["x", "y"]}"#)),
            call("tags.batchUpdate", Some(r#"{"keys": ["K1", "K2"], "remove": ["x"]}"#)),
        ]
    );
    let mut rpc = fake(vec![ok(r#"[{"tag": "a"}]"#)]);
    let out = run_tags_command(TagsCommand::List { limit: 200 }, &mut rpc).unwrap();
    assert_eq!(
        to_value(&out),
        v(r#"{"items": [{"tag": "a"}], "total": 1, "limit": 200, "offset": 0, "hasMore": false}"#)
    );
    assert_eq!(calls_of(&rpc), vec![call("tags.list", Some(r#"{"limit": 200}"#))]);
}

#[test]
fn notes_create_with_tags_and_delete_through_items() {
    let mut rpc = fake(vec![]);
    let out = run_notes_command(
        NotesCommand::Create {
            parent: "P".to_string(),
            content: "<p>hi</p>".to_string(),
            tags: strings(&["t"]),
            dry_run: true,
        },
        &mut rpc,
    )
    .unwrap();
    assert_eq!(
        to_value(&out)["wouldCallParams"],
        v(r#"{"parentKey": "P", "content": "<p>hi</p>", "tags": ["t"]}"#)
    );
    let out = run_notes_command(
        NotesCommand::Delete { note_key: "N1".to_string(), dry_run: true },
        &mut rpc,
    )
    .unwrap();
    assert_eq!(to_value(&out)["wouldCall"], "items.delete");
    assert!(rpc.calls.is_empty());
}

#[test]
fn system_schema_collects_field_and_creator_names() {
    let mut rpc = fake(vec![
        ok(r#"[{"field": "title"}, {"other": 1}, {"field": "date"}]"#),
        ok(r#"[{"creatorType": "author"}]"#),
    ]);
    let out = run_system_command(
        SystemCommand::Schema { item_type: Some("book".to_string()) },
        &mut rpc,
    )
    .unwrap();
    assert_eq!(
        to_value(&out),
        v(r#"{"itemType": "book", "fields": ["title", "date"], "creatorTypes": ["author"]}"#)
    );
    assert_eq!(
        calls_of(&rpc),
        vec![
            call("system.itemFields", Some(r#"{"itemType": "book"}"#)),
            call("system.creatorTypes", Some(r#"{"itemType": "book"}"#)),
        ]
    );
    let mut rpc = fake(vec![ok(r#"[{"itemType": "book"}, {"itemType": "thesis"}]"#)]);
    let out = run_system_command(SystemCommand::Schema { item_type: None }, &mut rpc).unwrap();
    assert_eq!(to_value(&out), v(r#"["book", "thesis"]"#));
    let mut rpc = fake(vec![ok("{}")]);
    run_system_command(SystemCommand::LibraryStats { library: Some(-2) }, &mut rpc).unwrap();
    assert_eq!(calls_of(&rpc), vec![call("system.libraryStats", Some(r#"{"id": -2}"#))]);
}

#[test]
fn settings_values_are_read_as_json_or_kept_as_text() {
    let mut rpc = fake(vec![]);
    let out = run_settings_command(
        SettingsCommand::SetValues {
            pairs: strings(&["a", "1", "b", "text", "a", "true"]),
            file_text: None,
            dry_run: true,
        },
        &mut rpc,
    )
    .unwrap();
    assert_eq!(to_value(&out)["wouldCall"], "settings.setAll");
    assert_eq!(to_value(&out)["wouldCallParams"], v(r#"{"a": true, "b": "text"}"#));
    let out = run_settings_command(
        SettingsCommand::SetValues { pairs: strings(&["k", "[1,2]"]), file_text: None, dry_run: true },
        &mut rpc,
    )
    .unwrap();
    assert_eq!(to_value(&out)["wouldCallParams"], v(r#"{"key": "k", "value": [1, 2]}"#));
    let err = run_settings_command(
        SettingsCommand::SetValues { pairs: strings(&["k"]), file_text: None, dry_run: true },
        &mut rpc,
    )
    .unwrap_err();
    assert_eq!(err, "INVALID_ARGS: provide key value pairs (even number of args) or --file");
    let err = run_settings_command(
        SettingsCommand::SetValues {
            pairs: Vec::new(),
            file_text: Some("{oops".to_string()),
            dry_run: true,
        },
        &mut rpc,
    )
    .unwrap_err();
    assert!(err.starts_with("INVALID_JSON: Could not parse JSON: "), "{err}");
    assert!(rpc.calls.is_empty());
}

#[test]
fn annotations_create_rejects_invalid_position_shape_without_rpc() {
    let mut rpc = fake(vec![]);
    let err = run_annotations_command(
        AnnotationsCommand::Create {
            parent: "ATTACH1".to_string(),
            attachment: None,
            annotation_type: Some("highlight".to_string()),
            position: Some("{\"foo\":1}".to_string()),
            quote: None,
            page: None,
            sort_index: None,
            text: None,
            comment: None,
            color: "#ffd400".to_string(),
            dry_run: true,
        },
        &mut rpc,
    )
    .expect_err("invalid position is rejected");
    assert!(err.contains("INVALID_ARGS"), "{err}");
    assert!(err.contains("pageIndex") || err.contains("rects"), "{err}");
    assert!(rpc.calls.is_empty(), "validation should fail before RPC");
}

fn create(
    annotation_type: Option<&str>,
    position: Option<&str>,
    quote: Option<&str>,
    sort_index: Option<Result<Json, String>>,
) -> AnnotationsCommand {
    AnnotationsCommand::Create {
        parent: "P".to_string(),
        attachment: Some("A".to_string()),
        annotation_type: annotation_type.map(str::to_string),
        position: position.map(str::to_string),
        quote: quote.map(str::to_string),
        page: Some(3),
        sort_index,
        text: None,
        comment: Some("c".to_string()),
        color: "#ffd400".to_string(),
        dry_run: true,
    }
}

#[test]
fn annotations_create_builds_params_in_order_of_checks() {
    let mut rpc = fake(vec![]);
    let out = run_annotations_command(create(None, None, Some("words"), None), &mut rpc).unwrap();
    assert_eq!(
        to_value(&out)["wouldCallParams"],
        v(r##"{"parentKey": "P", "attachmentKey": "A", "type": "highlight", "color": "#ffd400",
               "quote": "words", "pageIndex": 3, "comment": "c"}"##)
    );
    let err = run_annotations_command(create(Some("arrow"), None, None, None), &mut rpc).unwrap_err();
    assert_eq!(err, "INVALID_ARGS: --type must be highlight|note|underline|image|ink, got \"arrow\"");
    let err = run_annotations_command(create(Some("note"), None, Some("q"), None), &mut rpc).unwrap_err();
    assert_eq!(err, "INVALID_ARGS: --quote is only valid for highlight|underline, got \"note\"");
    let err = run_annotations_command(create(Some("note"), None, None, None), &mut rpc).unwrap_err();
    assert_eq!(err, "INVALID_ARGS: --position JSON is required (or use --quote)");
    let err = run_annotations_command(create(None, Some("{"), None, None), &mut rpc).unwrap_err();
    assert!(err.starts_with("INVALID_JSON: Could not parse --position: "), "{err}");
    let pos = r#"{"pageIndex": 0, "rects": [[1, 2, 3, 4]]}"#;
    let err = run_annotations_command(
        create(None, Some(pos), None, Some(Err("INVALID_ARGS: bad sort".to_string()))),
        &mut rpc,
    )
    .unwrap_err();
    assert_eq!(err, "INVALID_ARGS: bad sort");
    let out = run_annotations_command(create(None, Some(pos), None, Some(Ok(j("5")))), &mut rpc).unwrap();
    assert_eq!(to_value(&out)["wouldCallParams"]["sortIndex"], 5);
    assert_eq!(to_value(&out)["wouldCallParams"]["position"], v(pos));
    assert!(rpc.calls.is_empty());
}

#[test]
fn annotation_batches_must_be_arrays_and_lists_count_their_items() {
    let mut rpc = fake(vec![]);
    let err = run_annotations_command(
        AnnotationsCommand::CreateBatch {
            parent: "P".to_string(),
            attachment: None,
            input: "{}".to_string(),
            dry_run: true,
        },
        &mut rpc,
    )
    .unwrap_err();
    assert_eq!(err, "INVALID_ARGS: input must be a JSON array");
    let mut rpc = fake(vec![ok(r#"{"items": [{"k": 1}, {"k": 2}]}"#)]);
    let out = run_annotations_command(
        AnnotationsCommand::List { parent: "P".to_string(), attachment: None, context: Some(2) },
        &mut rpc,
    )
    .unwrap();
    assert_eq!(calls_of(&rpc), vec![call("annotations.list", Some(r#"{"parentKey": "P", "context": 2}"#))]);
    assert_eq!(to_value(&out)["total"], 2);
    assert_eq!(to_value(&out)["limit"], 2);
}

#[test]
fn items_add_by_doi_files_into_a_named_collection() {
    let mut rpc = fake(vec![ok(r#"[{"key": "C1", "name": "Reading"}]"#), ok(r#"{"key": "NEW"}"#)]);
    run_items_command(
        ItemsCommand::Add {
            doi: Some("10.1/x".to_string()),
            isbn: None,
            from_url: None,
            file: None,
            item_type: None,
            fields: Vec::new(),
            collection: Some("Reading".to_string()),
            dry_run: false,
        },
        &mut rpc,
    )
    .unwrap();
    assert_eq!(
        calls_of(&rpc),
        vec![
            call("collections.list", None),
            call("items.addByDOI", Some(r#"{"doi": "10.1/x", "collection": "C1"}"#)),
        ]
    );
    let mut rpc = fake(vec![]);
    let out = run_items_command(
        ItemsCommand::Add {
            doi: None,
            isbn: Some("978".to_string()),
            from_url: None,
            file: None,
            item_type: None,
            fields: Vec::new(),
            collection: Some("0".to_string()),
            dry_run: true,
        },
        &mut rpc,
    )
    .unwrap();
    assert_eq!(to_value(&out)["wouldCallParams"], v(r#"{"isbn": "978"}"#));
}

#[test]
fn items_create_and_update_take_field_options() {
    let mut rpc = fake(vec![]);
    let out = run_items_command(
        ItemsCommand::Add {
            doi: None,
            isbn: None,
            from_url: None,
            file: None,
            item_type: Some("book".to_string()),
            fields: strings(&["title=A=B", "date=2020"]),
            collection: None,
            dry_run: true,
        },
        &mut rpc,
    )
    .unwrap();
    assert_eq!(
        to_value(&out)["wouldCallParams"],
        v(r#"{"itemType": "book", "fields": {"title": "A=B", "date": "2020"}}"#)
    );
    let err = run_items_command(
        ItemsCommand::Update { key: "K".to_string(), fields: strings(&["bad"]), dry_run: true },
        &mut rpc,
    )
    .unwrap_err();
    assert_eq!(err, "INVALID_ARGS: --field must be key=value, got: \"bad\"");
    let err = run_items_command(
        ItemsCommand::Add {
            doi: None,
            isbn: None,
            from_url: None,
            file: None,
            item_type: None,
            fields: Vec::new(),
            collection: None,
            dry_run: true,
        },
        &mut rpc,
    )
    .unwrap_err();
    assert_eq!(err, "INVALID_ARGS: provide one of --doi, --isbn, --from-url, --file, or --type");
    assert!(rpc.calls.is_empty());
}

#[test]
fn field_options_split_at_the_first_equals_sign() {
    let parsed = parse_field_options(&strings(&["a=1", "b=x=y", "a=2"])).unwrap();
    let obj = to_value(&Json::Object(parsed));
    assert_eq!(obj, v(r#"{"a": "2", "b": "x=y"}"#));
}

#[test]
fn items_trash_merge_recent_and_attachments() {
    let mut rpc = fake(vec![]);
    let out = run_items_command(
        ItemsCommand::Trash { items: strings(&["A"]), dry_run: true },
        &mut rpc,
    )
    .unwrap();
    assert_eq!(to_value(&out)["wouldCall"], "items.trash");
    let out = run_items_command(
        ItemsCommand::Trash { items: strings(&["A", "B"]), dry_run: true },
        &mut rpc,
    )
    .unwrap();
    assert_eq!(to_value(&out)["wouldCallParams"], v(r#"{"keys": ["A", "B"]}"#));
    let err = run_items_command(
        ItemsCommand::MergeDuplicates { keys: strings(&["A"]), dry_run: true },
        &mut rpc,
    )
    .unwrap_err();
    assert_eq!(err, "INVALID_ARGS: need at least 2 keys to merge");
    let err = run_items_command(
        ItemsCommand::Recent { limit: 20, offset: 0, recent_type: "deleted".to_string() },
        &mut rpc,
    )
    .unwrap_err();
    assert_eq!(err, "--type must be added or modified, got \"deleted\"");
    assert!(rpc.calls.is_empty());
    let mut rpc = fake(vec![ok(r#"{"items": [{"key": "A1"}]}"#), ok("[]")]);
    let out = run_items_command(
        ItemsCommand::Attachments { key: "P".to_string(), offset: 0 },
        &mut rpc,
    )
    .unwrap();
    assert_eq!(to_value(&out)["total"], 1);
    run_items_command(
        ItemsCommand::List {
            limit: 5,
            offset: 10,
            sort: Some("title".to_string()),
            direction: "desc".to_string(),
            trash: false,
        },
        &mut rpc,
    )
    .unwrap();
    assert_eq!(
        calls_of(&rpc)[1],
        call("items.list", Some(r#"{"limit": 5, "offset": 10, "direction": "desc", "sort": "title"}"#))
    );
}

#[test]
fn saved_searches_parse_every_condition_first() {
    let mut rpc = fake(vec![]);
    let out = run_search_management_command(
        SearchManagementCommand::CreateSaved {
            name: "S".to_string(),
            condition: strings(&["title contains deep learning"]),
            dry_run: true,
        },
        &mut rpc,
    )
    .unwrap();
    assert_eq!(
        to_value(&out)["wouldCallParams"],
        v(r#"{"name": "S", "conditions": [{"field": "title", "operator": "contains", "value": "deep learning"}]}"#)
    );
    let err = run_search_management_command(
        SearchManagementCommand::CreateSaved {
            name: "S".to_string(),
            condition: strings(&["title contains x", "bad"]),
            dry_run: true,
        },
        &mut rpc,
    )
    .unwrap_err();
    assert!(err.contains("bad"), "{err}");
    assert!(rpc.calls.is_empty());
}

#[test]
fn export_csl_json_prints_valid_json_content() {
    let mut rpc = fake(vec![ok(
        r#"{"format": "csl-json", "content": [{"id": "ITEM1", "title": "Paper"}], "count": 1}"#,
    )]);
    let out = run_export(
        ExportArgs {
            keys: strings(&["ITEM1"]),
            format: "csl-json".to_string(),
            collection: None,
            style: "http://www.zotero.org/styles/apa".to_string(),
            html: false,
        },
        &mut rpc,
    )
    .expect("csl-json export should succeed");
    let payload: serde_json::Value = serde_json::from_str(&out).expect("stdout must be valid JSON");
    assert_eq!(payload, v(r#"[{"id": "ITEM1", "title": "Paper"}]"#));
    assert_eq!(calls_of(&rpc), vec![call("export.cslJson", Some(r#"{"keys": ["ITEM1"]}"#))]);
}

#[test]
fn export_merges_collection_keys_and_prints_raw_content() {
    let mut rpc = fake(vec![
        ok(r#"{"items": [{"key": "A"}, {"key": "B"}, {"title": "no key"}]}"#),
        ok(r#"{"content": "@article{a}"}"#),
    ]);
    let out = run_export(
        ExportArgs {
            keys: strings(&["B"]),
            format: "bibtex".to_string(),
            collection: Some("4".to_string()),
            style: String::new(),
            html: false,
        },
        &mut rpc,
    )
    .unwrap();
    assert_eq!(out, "@article{a}\n");
    assert_eq!(
        calls_of(&rpc),
        vec![
            call("collections.getItems", Some(r#"{"key": 4}"#)),
            call("export.bibtex", Some(r#"{"keys": ["B", "A"]}"#)),
        ]
    );
    let mut rpc = fake(vec![]);
    let err = resolve_export_keys(&mut rpc, Vec::new(), None).unwrap_err();
    assert_eq!(err, "No item keys provided. Pass positional keys and/or --collection.");
    let err = run_export(
        ExportArgs {
            keys: strings(&["K"]),
            format: "docx".to_string(),
            collection: None,
            style: String::new(),
            html: false,
        },
        &mut rpc,
    )
    .unwrap_err();
    assert_eq!(err, "INVALID_ARGS: unknown format \"docx\", expected bibtex/ris/csl-json/bibliography");
    let mut rpc = fake(vec![ok(r#"{"html": "<p>x</p>", "text": "x"}"#)]);
    let out = run_export(
        ExportArgs {
            keys: strings(&["K"]),
            format: "bibliography".to_string(),
            collection: None,
            style: "apa".to_string(),
            html: true,
        },
        &mut rpc,
    )
    .unwrap();
    assert_eq!(out, "<p>x</p>\n");
    assert_eq!(
        calls_of(&rpc),
        vec![call("export.bibliography", Some(r#"{"keys": ["K"], "style": "apa"}"#))]
    );
}

#[test]
fn duplicates_are_found_by_doi_then_exact_title() {
    let item = j(r#"{"DOI": "10.1/x", "title": "A long enough title"}"#);
    let mut rpc = fake(vec![ok(r#"{"items": []}"#), ok(r#"[{"title": "A long enough title", "key": "T1"}]"#)]);
    assert_eq!(find_duplicate(&mut rpc, &item).unwrap(), Some("T1".to_string()));
    assert_eq!(
        calls_of(&rpc),
        vec![
            call("search.byIdentifier", Some(r#"{"doi": "10.1/x"}"#)),
            call("search.quick", Some(r#"{"query": "A long enough title", "limit": 20}"#)),
        ]
    );
    let mut rpc = fake(vec![ok(r#"{"items": [{"key": "D1"}]}"#)]);
    assert_eq!(find_duplicate(&mut rpc, &item).unwrap(), Some("D1".to_string()));
    let mut rpc = fake(vec![]);
    assert_eq!(find_duplicate(&mut rpc, &j(r#"{"title": "short"}"#)).unwrap(), None);
    assert!(rpc.calls.is_empty());
    let mut rpc = fake(vec![ok("[]")]);
    assert_eq!(find_duplicate(&mut rpc, &j(r#"{"title": "数字经济与产业"}"#)).unwrap(), None);
    assert_eq!(rpc.calls.len(), 1);
}

#[test]
fn push_creates_attaches_and_reports() {
    let item = j(r#"{"itemType": "journalArticle", "title": "Tiny"}"#);
    let mut rpc = fake(vec![
        ok(r#"{"key": "C1"}"#),
        ok(r#"{"key": "NEW1"}"#),
        ok(r#"{"key": "ATT"}"#),
    ]);
    let out = push_item(&mut rpc, &item, Some("C:\\p.pdf"), 1234, None, "skip").unwrap();
    assert_eq!(
        to_value(&out),
        v(r#"{"status": "created", "zotero_item_key": "NEW1", "pdf_attached": true,
              "pdf_size_bytes": 1234, "error": null}"#)
    );
    let calls = calls_of(&rpc);
    assert_eq!(calls[0], call("system.currentCollection", None));
    assert_eq!(calls[1].0, "items.create");
    assert_eq!(calls[1].1.as_ref().unwrap()["collections"], v(r#"["C1"]"#));
    assert_eq!(
        calls[2],
        call("attachments.add", Some(r#"{"parentKey": "NEW1", "path": "C:\\p.pdf", "title": "Full Text PDF"}"#))
    );
}

#[test]
fn push_skips_or_updates_duplicates() {
    let item = j(r#"{"itemType": "book", "DOI": "10.2/y", "title": "Short"}"#);
    let mut rpc = fake(vec![
        ok(r#"{"key": "C1"}"#),
        ok(r#"{"items": [{"key": "DUP"}]}"#),
        ok("{}"),
    ]);
    let out = push_item(&mut rpc, &item, None, 0, None, "skip").unwrap();
    assert_eq!(to_value(&out)["status"], "skipped_duplicate");
    assert_eq!(to_value(&out)["zotero_item_key"], "DUP");
    assert_eq!(
        calls_of(&rpc)[2],
        call("collections.addItems", Some(r#"{"key": "C1", "keys": ["DUP"]}"#))
    );
    let mut rpc = fake(vec![
        ok(r#"{"items": [{"key": "DUP"}]}"#),
        ok("{}"),
        ok(r#"[{"contentType": "application/pdf"}]"#),
    ]);
    let out = push_item(&mut rpc, &item, Some("/x.pdf"), 9, Some("0"), "update").unwrap();
    assert_eq!(
        to_value(&out),
        v(r#"{"status": "updated", "zotero_item_key": "DUP", "pdf_attached": false,
              "pdf_size_bytes": 0, "error": null}"#)
    );
    let calls = calls_of(&rpc);
    assert_eq!(calls.len(), 3);
    assert_eq!(calls[1].0, "items.update");
    assert_eq!(calls[1].1.as_ref().unwrap()["key"], "DUP");
    assert_eq!(calls[2], call("attachments.list", Some(r#"{"parentKey": "DUP"}"#)));
    let mut rpc = fake(vec![ok(r#"{"items": []}"#), ok(r#"{"nokey": 1}"#)]);
    let err = push_item(&mut rpc, &j(r#"{"itemType": "book", "DOI": "d"}"#), None, 0, Some("5"), "create")
        .unwrap_err();
    assert!(err.starts_with("items.create returned unexpected shape: "), "{err}");
}

#[test]
fn push_input_is_checked_before_any_call() {
    assert!(check_on_duplicate("update").is_ok());
    assert_eq!(
        check_on_duplicate("merge").unwrap_err(),
        "INVALID_ARGS: --on-duplicate must be skip|update|create, got \"merge\""
    );
    let (item, pdf) = prepare_push(r#"{"itemType": "book", "_pdf": "https://x/y.pdf"}"#, None).unwrap();
    assert_eq!(to_value(&item), v(r#"{"itemType": "book"}"#));
    assert_eq!(pdf, Some("https://x/y.pdf".to_string()));
    let (_, pdf) = prepare_push(r#"{"itemType": "book", "_pdf": "a.pdf"}"#, Some("b.pdf".to_string())).unwrap();
    assert_eq!(pdf, Some("b.pdf".to_string()));
    assert_eq!(
        prepare_push(r#"{"title": "x"}"#, None).unwrap_err(),
        "INVALID_ARGS: input JSON must include a non-empty \"itemType\" field"
    );
    assert!(prepare_push("nope", None).unwrap_err().starts_with("INVALID_JSON: Could not parse JSON: "));
    let mut rpc = fake(vec![]);
    let out = push_dry_run(&mut rpc, &j(r#"{"itemType": "book", "title": "T"}"#), &None, Some("9"), "skip")
        .unwrap();
    let payload: serde_json::Value = serde_json::from_str(&out).unwrap();
    assert_eq!(
        payload,
        v(r#"{"ok": true, "dryRun": true, "wouldPush": {"title": "T", "itemType": "book",
              "collectionKey": 9, "pdfPath": null, "onDuplicate": "skip"}}"#)
    );
    assert!(rpc.calls.is_empty());
}

#[test]
fn find_pdfs_scans_items_then_searches_the_missing_ones() {
    let mut rpc = fake(vec![
        ok(r#"{"items": [{"key": "A", "title": "Ta"}, {"key": "B", "title": "Tb"},
                          {"title": "no key"}, {"key": "D"}]}"#),
        ok(r#"[{"contentType": "application/pdf"}]"#),
        ok("[]"),
        ok("[]"),
        ok(r#"{"attachment": {"key": "ATT1"}}"#),
        ok(r#"{"attachment": null}"#),
    ]);
    let out = run_items_command(
        ItemsCommand::FindPdfs { collection: "5".to_string(), limit: 0 },
        &mut rpc,
    )
    .unwrap();
    assert_eq!(
        to_value(&out),
        v(r#"{"scanned": 4, "attempted": 2, "results": [
            {"item_key": "B", "title": "Tb", "found": true, "attachment_key": "ATT1"},
            {"item_key": "D", "title": null, "found": false, "attachment_key": null}]}"#)
    );
    assert_eq!(
        calls_of(&rpc),
        vec![
            call("collections.getItems", Some(r#"{"key": 5}"#)),
            call("attachments.list", Some(r#"{"parentKey": "A"}"#)),
            call("attachments.list", Some(r#"{"parentKey": "B"}"#)),
            call("attachments.list", Some(r#"{"parentKey": "D"}"#)),
            call("attachments.findPDF", Some(r#"{"parentKey": "B"}"#)),
            call("attachments.findPDF", Some(r#"{"parentKey": "D"}"#)),
        ]
    );
    let mut rpc = fake(vec![
        ok(r#"[{"key": "B"}, {"key": "D"}]"#),
        ok("[]"),
        ok(r#"{"attachment": {"key": "X"}}"#),
    ]);
    let out = run_items_command(
        ItemsCommand::FindPdfs { collection: "5".to_string(), limit: 1 },
        &mut rpc,
    )
    .unwrap();
    assert_eq!(to_value(&out)["attempted"], 1);
    assert_eq!(rpc.calls.len(), 3);
}

#[test]
fn ocr_notes_and_first_pdf_attachment() {
    let mut rpc = fake(vec![ok(r#"[{"tags": ["x"]}, {"tags": [{"tag": "ocr"}]}]"#), ok("[]")]);
    assert!(has_ocr_note(&mut rpc, &j(r#""ITEM1""#)).unwrap());
    assert!(!has_ocr_note(&mut rpc, &j(r#""ITEM1""#)).unwrap());
    assert_eq!(calls_of(&rpc)[0], call("notes.list", Some(r#"{"parentKey": "ITEM1"}"#)));
    let mut rpc = fake(vec![
        ok(r#"{"items": [{"key": "A", "contentType": "text/html"}, {"key": "B", "path": "x.PDF"}]}"#),
        ok("{}"),
        ok("[]"),
    ]);
    assert_eq!(resolve_first_pdf_attachment_key(&mut rpc, "P").unwrap(), "B");
    assert_eq!(
        resolve_first_pdf_attachment_key(&mut rpc, "P").unwrap_err(),
        "NO_PDF_ATTACHMENT: no attachments found for item P"
    );
    assert_eq!(
        resolve_first_pdf_attachment_key(&mut rpc, "P").unwrap_err(),
        "NO_PDF_ATTACHMENT: no PDF attachment found for item P"
    );
    let mut rpc = fake(vec![ok(r#"{"path": "  "}"#), ok(r#"{"path": "C:\\x.pdf"}"#)]);
    assert_eq!(
        resolve_attachment_path(&mut rpc, "ATT").unwrap_err(),
        "ATTACHMENT_PATH_NOT_FOUND: attachment ATT has no local PDF path"
    );
    assert_eq!(resolve_attachment_path(&mut rpc, "ATT").unwrap(), "C:\\x.pdf");
    assert_eq!(calls_of(&rpc)[0], call("attachments.getPath", Some(r#"{"key": "ATT"}"#)));
}

#[test]
fn ocr_and_embedding_settings_fall_back_as_documented() {
    let mut rpc = fake(vec![ok(r#"{"ocr.provider": ""}"#), ok(r#"{"ocr.provider": "glm"}"#)]);
    assert!(fetch_ocr_provider_from_settings(&mut rpc).unwrap_err().starts_with("MISSING_CONFIG: ocr.provider"));
    assert_eq!(fetch_ocr_provider_from_settings(&mut rpc).unwrap(), "glm");
    let mut rpc = fake(vec![Err("down".to_string()), ok(r#"{"ocr.apiKey": "k"}"#)]);
    assert_eq!(fetch_ocr_api_key_from_settings(&mut rpc), "");
    assert_eq!(fetch_ocr_api_key_from_settings(&mut rpc), "k");
    assert_eq!(calls_of(&rpc)[0], call("settings.getRaw", Some(r#"{"key": "ocr.apiKey"}"#)));
    let mut rpc = fake(vec![ok(r#"{"embedding.model": "m"}"#), ok(r#"{"embedding.apiKey": "K"}"#)]);
    assert_eq!(
        fetch_embedding_settings(&mut rpc).unwrap(),
        ("ollama".to_string(), "m".to_string(), String::new(), "K".to_string())
    );
    let mut rpc = fake(vec![Err("down".to_string()), ok(r#"{"rag.retrievalMode": "bm25"}"#)]);
    assert_eq!(fetch_retrieval_mode(&mut rpc), "hybrid");
    assert_eq!(fetch_retrieval_mode(&mut rpc), "bm25");
}

#[test]
fn raw_rpc_needs_object_params() {
    let mut rpc = fake(vec![ok(r#"{"key": "YR5BUGHG"}"#)]);
    let out = run_rpc_command(&mut rpc, "items.get", r#"{"key":"YR5BUGHG"}"#, false, 100).unwrap();
    assert_eq!(to_value(&out), v(r#"{"key": "YR5BUGHG"}"#));
    assert_eq!(calls_of(&rpc), vec![call("items.get", Some(r#"{"key": "YR5BUGHG"}"#))]);
    let err = run_rpc_command(&mut rpc, "items.get", "not-json", false, 100).unwrap_err();
    assert!(err.starts_with("INVALID_JSON: params must be a JSON object: "), "{err}");
    assert_eq!(
        run_rpc_command(&mut rpc, "items.get", "[1]", false, 100).unwrap_err(),
        "INVALID_JSON: params must be a JSON object"
    );
    let mut rpc = fake(vec![ok(r#"{"status": "ok"}"#)]);
    assert_eq!(to_value(&run_ping(&mut rpc).unwrap()), v(r#"{"status": "ok"}"#));
    assert_eq!(calls_of(&rpc), vec![call("system.ping", None)]);
}

#[test]
fn rag_cutoff_settings_default_and_honor_legacy_top_k() {
    let mut rpc = fake(vec![Err("down".to_string())]);
    let d = fetch_rag_cutoff_settings(&mut rpc);
    assert_eq!((d.min_k, d.max_k, d.token_budget), (3, 20, 6000));
    assert_eq!((d.mmr_lambda.as_str(), d.score_floor.as_str(), d.gap_threshold.as_str()), ("0.7", "0.1", "0.15"));
    assert!(!d.top_k_deprecated);
    assert_eq!(calls_of(&rpc), vec![call("settings.getAll", None)]);

    let mut rpc = fake(vec![ok(r#"{"rag.topK": "8", "rag.minK": "x", "rag.tokenBudget": "+900"}"#)]);
    let s = fetch_rag_cutoff_settings(&mut rpc);
    assert_eq!((s.min_k, s.max_k, s.token_budget), (3, 8, 900));
    assert!(s.top_k_deprecated);

    let mut rpc = fake(vec![ok(r#"{"rag.topK": "8", "rag.maxK": "12", "rag.mmrLambda": "0.5"}"#)]);
    let s = fetch_rag_cutoff_settings(&mut rpc);
    assert_eq!(s.max_k, 12);
    assert_eq!(s.mmr_lambda, "0.5");
    assert!(!s.top_k_deprecated);
}

fn rag_options(output: &str, collection: Option<&str>, keys: &[&str]) -> RagSearchOptions {
    RagSearchOptions {
        query: "attention".to_string(),
        collection: collection.map(str::to_string),
        keys: keys.iter().map(|k| k.to_string()).collect(),
        zotero: true,
        top_spans_per_item: 2,
        include_fulltext_spans: false,
        top_k: 5,
        output: output.to_string(),
    }
}

#[test]
fn rag_plugin_search_sends_scope_and_wraps_hits() {
    let mut rpc = fake(vec![ok(r#"{"hits": [{"key": "A"}, {"key": "B"}]}"#)]);
    let out = run_rag_search_xpi_fallback(&mut rpc, &rag_options("json", Some("COL1"), &[])).unwrap();
    assert_eq!(
        calls_of(&rpc),
        vec![call(
            "rag.searchHits",
            Some(r#"{"query": "attention", "limit": 5, "top_spans_per_item": 2, "include_fulltext_spans": false, "collection": "COL1"}"#)
        )]
    );
    let doc: serde_json::Value = serde_json::from_str(out.trim()).unwrap();
    assert_eq!(doc["items"].as_array().map(|a| a.len()), Some(2));
    assert_eq!(doc["total"], 2);
    assert_eq!(doc["limit"], 5);
    assert_eq!(doc["offset"], 0);
    assert_eq!(doc["hasMore"], false);
}

#[test]
fn rag_plugin_search_prints_json_lines_and_passes_errors() {
    let mut rpc = fake(vec![ok(r#"{"hits": [{"key": "A"}, {"key": "B"}]}"#)]);
    let out = run_rag_search_xpi_fallback(&mut rpc, &rag_options("jsonl", None, &["K1", "K2"])).unwrap();
    assert_eq!(out, "{\"key\":\"A\"}\n{\"key\":\"B\"}\n");
    assert_eq!(calls_of(&rpc)[0].1.as_ref().unwrap()["keys"], v(r#"["K1", "K2"]"#));
    let mut rpc = fake(vec![ok(r#"{"other": 1}"#)]);
    assert_eq!(run_rag_search_xpi_fallback(&mut rpc, &rag_options("jsonl", None, &["K"])).unwrap(), "");
    let mut rpc = fake(vec![Err("XPI down".to_string())]);
    assert_eq!(run_rag_search_xpi_fallback(&mut rpc, &rag_options("json", None, &["K"])), Err("XPI down".to_string()));
}

fn search_args(query: Option<&str>) -> SearchArgs {
    SearchArgs {
        query: query.map(str::to_string),
        fulltext: false,
        author: None,
        after: None,
        before: None,
        journal: None,
        tag: None,
        doi: None,
        isbn: None,
        issn: None,
        collection: None,
        limit: 50,
        offset: 0,
    }
}

/// The artifact verdicts the tests use: the plugin names its evidence
/// attachments `<item>.zotron-<kind>`.
fn artifact_verdicts(reply: &Json, in_collection: bool) -> Vec<bool> {
    quick_titles(reply, in_collection)
        .iter()
        .map(|t| t.as_deref().is_some_and(|t| t.contains(".zotron-")))
        .collect()
}

fn finish(searched: Searched) -> serde_json::Value {
    match searched {
        Searched::Done(v) => to_value(&v),
        Searched::Quick { reply, query, limit, in_collection } => {
            let verdicts = artifact_verdicts(&reply, in_collection);
            to_value(&finish_quick_search(reply, &query, limit, in_collection, &verdicts))
        }
    }
}

#[test]
fn search_quick_filters_zotron_ocr_and_embedding_artifacts_from_cli_output() {
    let mut rpc = fake(vec![ok(r#"{
        "items": [
            {"key": "ITEM1", "title": "Real Literature", "version": 1},
            {"key": "ATT1", "title": "ITEM1.zotron-chunks.jsonl", "version": 1},
            {"key": "ATT2", "title": "ITEM1.zotron-embed.npz", "version": 1},
            {"key": "ATT3", "title": "ITEM1.zotron-ocr.raw.zip", "version": 1}
        ],
        "total": 4
    }"#)]);
    let payload = finish(run_search(search_args(Some("risk")), &mut rpc).expect("search succeeds"));
    assert_eq!(payload["total"], 1);
    assert_eq!(payload["items"].as_array().expect("items array").len(), 1);
    assert_eq!(payload["items"][0]["key"], "ITEM1");
    assert_eq!(calls_of(&rpc), vec![call("search.quick", Some(r#"{"query": "risk", "limit": 50}"#))]);
}

#[test]
fn search_quick_collection_filters_collection_items_locally() {
    let mut rpc = fake(vec![
        ok(r#"[{"key": "COL1", "name": "习中心", "parentKey": null}]"#),
        ok(r#"{
            "items": [
                {"key": "ITEM1", "title": "宏观因子与资产配置"},
                {"key": "ITEM2", "title": "产业政策评估"},
                {"key": "ITEM3", "title": "宏观因子定价", "creators": [{"lastName": "王"}]},
                {"key": "ATT1", "title": "ITEM1.zotron-chunks.jsonl"}
            ],
            "total": 4
        }"#),
    ]);
    let mut args = search_args(Some("宏观 因子"));
    args.collection = Some("习中心".to_string());
    args.limit = 1;
    let payload = finish(run_search(args, &mut rpc).expect("collection quick search succeeds"));
    assert_eq!(payload["total"], 2);
    assert_eq!(payload["items"].as_array().expect("items").len(), 1);
    assert_eq!(payload["items"][0]["key"], "ITEM1");
    assert_eq!(
        calls_of(&rpc),
        vec![call("collections.list", None), call("collections.getItems", Some(r#"{"key": "COL1"}"#))]
    );
}

#[test]
fn search_fulltext_forwards_collection_filter_to_rpc() {
    let mut rpc = fake(vec![
        ok(r#"[{"key": "COL1", "name": "test", "parentKey": null}]"#),
        ok(r#"{"items": [{"key": "ITEM1", "title": "Paper"}], "total": 1, "limit": 5}"#),
    ]);
    let mut args = search_args(Some("数字经济 体育产业"));
    args.fulltext = true;
    args.collection = Some("test".to_string());
    args.limit = 5;
    run_search(args, &mut rpc).expect("fulltext search should accept collection");
    assert_eq!(
        calls_of(&rpc),
        vec![
            call("collections.list", None),
            call(
                "search.fulltext",
                Some(r#"{"query": "数字经济 体育产业", "limit": 5, "collection": "COL1"}"#)
            ),
        ]
    );
}

#[test]
fn search_by_identifier_and_filters_send_their_parameters() {
    let mut rpc = fake(vec![ok(r#"[{"key": "A"}]"#)]);
    let mut args = search_args(Some("ignored"));
    args.doi = Some("10.1/x".to_string());
    args.issn = Some("1234-5678".to_string());
    let payload = finish(run_search(args, &mut rpc).unwrap());
    assert_eq!(calls_of(&rpc), vec![call("search.byIdentifier", Some(r#"{"doi": "10.1/x", "issn": "1234-5678"}"#))]);
    assert_eq!(payload["items"][0]["key"], "A");
    assert_eq!(payload["total"], 1);

    let mut rpc = fake(vec![ok(r#"{"items": [], "total": 0}"#)]);
    let mut args = search_args(Some("growth"));
    args.author = Some("Smith".to_string());
    args.tag = Some("econ".to_string());
    args.offset = 10;
    run_search(args, &mut rpc).unwrap();
    assert_eq!(
        calls_of(&rpc),
        vec![call(
            "search.advanced",
            Some(r#"{"conditions": [
                {"field": "quicksearch-titleCreatorYear", "operator": "contains", "value": "growth"},
                {"field": "creator", "operator": "contains", "value": "Smith"},
                {"field": "tag", "operator": "is", "value": "econ"}
            ], "operator": "and", "limit": 50, "offset": 10}"#)
        )]
    );
}

#[test]
fn search_without_query_is_refused_before_any_call() {
    let mut rpc = fake(Vec::new());
    let err = run_search(search_args(None), &mut rpc).unwrap_err();
    assert!(err.starts_with("INVALID_ARGS: provide a search query"), "got {err}");
    let mut args = search_args(None);
    args.fulltext = true;
    assert_eq!(run_search(args, &mut rpc).unwrap_err(), "INVALID_ARGS: --fulltext requires a search query");
    assert!(calls_of(&rpc).is_empty());
}

#[test]
fn quick_titles_follow_the_reply_shape() {
    let reply = j(r#"{"items": [{"title": "A"}, {"key": "B"}], "total": 2}"#);
    assert_eq!(quick_titles(&reply, false), vec![Some("A".to_string()), None]);
    let bare = j(r#"[{"title": "C"}]"#);
    assert_eq!(quick_titles(&bare, true), vec![Some("C".to_string())]);
    assert!(quick_titles(&bare, false).is_empty());
}

#[test]
fn ping_calls_system_ping_and_prints_python_compact_json() {
    let mut rpc = fake(vec![ok(r#"{"status": "ok", "timestamp": "2026-04-22T12:00:00Z"}"#)]);
    let out = format_json(&run_ping(&mut rpc).expect("ping succeeds")).unwrap();
    assert_eq!(calls_of(&rpc), vec![call("system.ping", None)]);
    assert_eq!(out, "{\"status\": \"ok\", \"timestamp\": \"2026-04-22T12:00:00Z\"}\n");
}

#[test]
fn rpc_command_forwards_method_and_params_json() {
    let mut rpc = fake(vec![ok(r#"{"key":"YR5BUGHG"}"#)]);
    run_rpc_command(&mut rpc, "items.get", "{\"key\":\"YR5BUGHG\"}", false, 100).expect("rpc succeeds");
    assert_eq!(calls_of(&rpc), vec![call("items.get", Some(r#"{"key":"YR5BUGHG"}"#))]);
}

#[test]
fn rag_hits_accepts_item_key_filter_without_collection() {
    let mut rpc = fake(vec![ok(r#"{"hits": [{"item_key": "ITEM1", "title": "Paper", "text": "数字经济 evidence"}]}"#)]);
    let mut options = rag_options("json", None, &["ITEM1"]);
    options.query = "数字经济".to_string();
    options.top_k = 3;
    options.top_spans_per_item = 3;
    let out = run_rag_search_in_zotero(&mut rpc, &options).expect("rag hits should allow key-scoped lookup");
    let payload: serde_json::Value = serde_json::from_str(&out).expect("rag hits output is JSON");
    assert_eq!(payload["total"], 1);
    assert_eq!(
        calls_of(&rpc),
        vec![call(
            "rag.searchHits",
            Some(r#"{"query": "数字经济", "keys": ["ITEM1"], "limit": 3, "top_spans_per_item": 3, "include_fulltext_spans": false}"#)
        )]
    );
}

#[test]
fn rag_hits_missing_collection_returns_coded_error_instead_of_raw_json() {
    let mut rpc = fake(Vec::new());
    let err = run_rag_search_in_zotero(&mut rpc, &rag_options("json", None, &[])).expect_err("missing collection should fail");
    assert_eq!(err, "INVALID_ARGS: --collection or --key is required when --zotero is used");
    assert!(!err.trim_start().starts_with('{'));
    assert!(calls_of(&rpc).is_empty());
}

#[test]
fn items_dry_run_answers_the_call_the_wet_run_makes() {
    let mut dry = fake(Vec::new());
    let answer = run_items_command(ItemsCommand::Trash { items: strings(&["A", "B"]), dry_run: true }, &mut dry).unwrap();
    assert!(calls_of(&dry).is_empty());
    let mut wet = fake(vec![ok(r#"{"ok": true}"#)]);
    run_items_command(ItemsCommand::Trash { items: strings(&["A", "B"]), dry_run: false }, &mut wet).unwrap();
    let (method, params) = calls_of(&wet)[0].clone();
    let answer = to_value(&answer);
    assert_eq!(answer["dryRun"], true);
    assert_eq!(answer["wouldCall"], method.as_str());
    assert_eq!(answer["wouldCallParams"], params.unwrap());
    assert_eq!(method, "items.batchTrash");
}

#[test]
fn ocr_process_settles_provider_and_key_from_zotero_when_missing() {
    let mut rpc = fake(vec![ok(r#"{"ocr.provider": "glm"}"#), ok(r#"{"ocr.apiKey": "K1"}"#)]);
    let s = resolve_ocr_process_settings(&mut rpc, None, None, false, None).unwrap();
    assert_eq!((s.provider.as_str(), s.api_key_env.as_str(), s.api_key.as_deref()), ("glm", "ZOTRON_OCR_API_KEY", Some("K1")));
    assert_eq!(
        calls_of(&rpc),
        vec![call("settings.getAll", None), call("settings.getRaw", Some(r#"{"key": "ocr.apiKey"}"#))]
    );

    let mut rpc = fake(Vec::new());
    let s = resolve_ocr_process_settings(&mut rpc, Some("mineru".to_string()), Some("MY_KEY".to_string()), false, Some("set".to_string())).unwrap();
    assert_eq!((s.provider.as_str(), s.api_key_env.as_str(), s.api_key), ("mineru", "MY_KEY", None));
    assert!(calls_of(&rpc).is_empty());

    let mut rpc = fake(vec![ok(r#"{"ocr.apiKey": ""}"#)]);
    let s = resolve_ocr_process_settings(&mut rpc, Some("glm".to_string()), None, false, Some(String::new())).unwrap();
    assert_eq!(s.api_key, None);
    assert_eq!(calls_of(&rpc).len(), 1);

    let mut rpc = fake(vec![ok(r#"{"ocr.provider": ""}"#)]);
    assert!(resolve_ocr_process_settings(&mut rpc, None, None, true, None).unwrap_err().starts_with("MISSING_CONFIG"));
}

fn reply_object(members: &[(&str, &str)]) -> Json {
    Json::Object(members.iter().map(|(k, v)| (k.to_string(), Json::Str(v.to_string()))).collect())
}

#[test]
fn attachments_add_from_url_attaches_remote_url() {
    let mut rpc = fake(vec![Ok(reply_object(&[("key", "ATT4"), ("title", "Remote PDF"), ("parentKey", "ITEM1")]))]);
    run_attachments_command(
        AttachmentsCommand::Add {
            parent: "ITEM1".to_string(),
            from_url: Some("https://example.com/paper.pdf".to_string()),
            path: None,
            title: None,
            dry_run: false,
        },
        &mut rpc,
    )
    .expect("--from-url succeeds");
    assert_eq!(
        calls_of(&rpc),
        vec![call("attachments.addByURL", Some(r#"{"parentKey": "ITEM1", "url": "https://example.com/paper.pdf"}"#))]
    );
}

#[test]
fn attachments_add_from_url_with_title() {
    let mut rpc = fake(vec![Ok(reply_object(&[("key", "ATT3"), ("title", "Remote PDF"), ("parentKey", "ITEM1")]))]);
    let out = run_attachments_command(
        AttachmentsCommand::Add {
            parent: "ITEM1".to_string(),
            from_url: Some("https://example.com/paper.pdf".to_string()),
            path: None,
            title: Some("Remote PDF".to_string()),
            dry_run: false,
        },
        &mut rpc,
    )
    .expect("--from-url with --title succeeds");
    assert_eq!(
        calls_of(&rpc),
        vec![call(
            "attachments.addByURL",
            Some(r#"{"parentKey": "ITEM1", "url": "https://example.com/paper.pdf", "title": "Remote PDF"}"#)
        )]
    );
    assert_eq!(
        format_json(&out).unwrap(),
        "{\"key\": \"ATT3\", \"title\": \"Remote PDF\", \"parentKey\": \"ITEM1\"}\n"
    );
}

#[test]
fn attachments_add_by_path_dry_run_and_path_lookup() {
    let mut rpc = fake(Vec::new());
    let out = run_attachments_command(
        AttachmentsCommand::Add {
            parent: "ITEM1".to_string(),
            from_url: None,
            path: Some("C:\\Zotero\\paper.pdf".to_string()),
            title: None,
            dry_run: true,
        },
        &mut rpc,
    )
    .unwrap();
    let payload = to_value(&out);
    assert_eq!(payload["wouldCall"], "attachments.add");
    assert_eq!(payload["wouldCallParams"]["path"], "C:\\Zotero\\paper.pdf");
    assert!(calls_of(&rpc).is_empty());
    let err = run_attachments_command(
        AttachmentsCommand::Add { parent: "ITEM1".to_string(), from_url: None, path: None, title: None, dry_run: false },
        &mut rpc,
    )
    .unwrap_err();
    assert_eq!(err, "INVALID_ARGS: provide --from-url or --path");
    let mut rpc = fake(vec![ok(r#"{"key": "ATTACH1", "path": "/z/paper.pdf"}"#)]);
    run_attachments_command(AttachmentsCommand::Path { key: "ATTACH1".to_string() }, &mut rpc).unwrap();
    assert_eq!(calls_of(&rpc), vec![call("attachments.getPath", Some(r#"{"key": "ATTACH1"}"#))]);
}
