use zotron::output::{classify_error, format_error_json, EXIT_CALLER_ERROR, EXIT_RUNTIME_ERROR};

fn parsed(s: &str) -> serde_json::Value {
    serde_json::from_str(s).expect("valid JSON")
}

#[test]
fn caller_errors_exit_two_with_code_stripped() {
    let (json, code) = classify_error("[-32602] bad params  \n");
    assert_eq!(code, EXIT_CALLER_ERROR);
    assert_eq!(
        parsed(&json),
        parsed(r#"{"error":{"code":"CALLER_ERROR","message":"bad params"}}"#)
    );
}

#[test]
fn internal_errors_are_runtime_errors() {
    let (json, code) = classify_error("[-32603] boom");
    assert_eq!(code, EXIT_RUNTIME_ERROR);
    assert_eq!(
        parsed(&json),
        parsed(r#"{"error":{"code":"RUNTIME_ERROR","message":"boom"}}"#)
    );
}

#[test]
fn leading_code_names_the_error() {
    let (json, code) = classify_error("COLLECTION_NOT_FOUND: no such collection");
    assert_eq!(code, 1);
    assert_eq!(
        parsed(&json),
        parsed(r#"{"error":{"code":"COLLECTION_NOT_FOUND","message":"no such collection"}}"#)
    );
}

#[test]
fn anything_else_is_a_runtime_error() {
    let json = format_error_json("lower: case is no code");
    assert_eq!(
        parsed(&json),
        parsed(r#"{"error":{"code":"RUNTIME_ERROR","message":"lower: case is no code"}}"#)
    );
    let (_, code) = classify_error("[-32601] Method not found");
    assert_eq!(code, 1);
}

use zotron::json::{Json, JsonNumber};
use zotron::output::normalize_list_envelope;

fn to_json(v: &serde_json::Value) -> Json {
    match v {
        serde_json::Value::Null => Json::Null,
        serde_json::Value::Bool(b) => Json::Bool(*b),
        serde_json::Value::Number(n) => match (n.as_u64(), n.as_i64()) {
            (Some(u), _) => Json::Number(JsonNumber::PosInt(u)),
            (None, Some(i)) => Json::Number(JsonNumber::NegInt(i)),
            _ => Json::Number(JsonNumber::Float(n.to_string())),
        },
        serde_json::Value::String(s) => Json::Str(s.clone()),
        serde_json::Value::Array(a) => Json::Array(a.iter().map(to_json).collect()),
        serde_json::Value::Object(m) => {
            Json::Object(m.iter().map(|(k, x)| (k.clone(), to_json(x))).collect())
        }
    }
}

fn to_value(j: &Json) -> serde_json::Value {
    match j {
        Json::Null => serde_json::Value::Null,
        Json::Bool(b) => serde_json::Value::Bool(*b),
        Json::Number(JsonNumber::PosInt(n)) => serde_json::Value::from(*n),
        Json::Number(JsonNumber::NegInt(n)) => serde_json::Value::from(*n),
        Json::Number(JsonNumber::Float(t)) => serde_json::from_str(t).expect("number"),
        Json::Str(s) => serde_json::Value::String(s.clone()),
        Json::Array(a) => serde_json::Value::Array(a.iter().map(to_value).collect()),
        Json::Object(m) => serde_json::Value::Object(
            m.iter().map(|(k, x)| (k.clone(), to_value(x))).collect(),
        ),
    }
}

fn env(value: &str, key: &str, limit: Option<u64>, offset: u64) -> serde_json::Value {
    to_value(&normalize_list_envelope(to_json(&parsed(value)), key, limit, offset))
}

#[test]
fn bare_lists_get_the_envelope() {
    assert_eq!(
        env("[1, 2]", "items", Some(10), 0),
        parsed(r#"{"items": [1, 2], "total": 2, "limit": 10, "offset": 0, "hasMore": false}"#)
    );
}

#[test]
fn enveloped_lists_report_whether_more_remain() {
    assert_eq!(
        env(r#"{"items": [1, 2], "total": 5}"#, "items", None, 2),
        parsed(r#"{"items": [1, 2], "total": 5, "offset": 2, "hasMore": true}"#)
    );
    assert_eq!(
        env(r#"{"items": [1, 2]}"#, "items", None, 0),
        parsed(r#"{"items": [1, 2], "total": 2, "offset": 0, "hasMore": false}"#)
    );
    assert_eq!(env(r#"{"other": 1}"#, "items", None, 0), parsed(r#"{"other": 1}"#));
    assert_eq!(env("3", "items", None, 0), parsed("3"));
}

use zotron::output::format_json;
use zotron::render::render;

#[test]
fn documents_print_on_one_line_with_spaced_separators() {
    let doc = Json::Object(vec![
        ("b".to_string(), Json::Array(vec![Json::Number(JsonNumber::PosInt(1)), Json::Null, Json::Bool(false)])),
        ("a".to_string(), Json::Number(JsonNumber::NegInt(-7))),
        ("f".to_string(), Json::Number(JsonNumber::Float("2.5".to_string()))),
        ("e".to_string(), Json::Object(Vec::new())),
    ]);
    assert_eq!(render(&doc), "{\"b\": [1, null, false], \"a\": -7, \"f\": 2.5, \"e\": {}}");
    assert_eq!(format_json(&Json::Array(Vec::new())).unwrap(), "[]\n");
}

#[test]
fn strings_escape_quotes_backslashes_and_control_characters_only() {
    let s = Json::Str("say \"hi\"\\\n\t\u{1}\u{8}\u{c}\r 中文 é".to_string());
    assert_eq!(render(&s), "\"say \\\"hi\\\"\\\\\\n\\t\\u0001\\b\\f\\r 中文 é\"");
    assert_eq!(render(&Json::Str("\u{1f}".to_string())), "\"\\u001f\"");
}

#[test]
fn error_envelope_is_compact_with_escaped_strings() {
    let (json, _) = classify_error("BAD_INPUT: got \"x\"\tand \\ 中");
    assert_eq!(json, "{\"error\":{\"code\":\"BAD_INPUT\",\"message\":\"got \\\"x\\\"\\tand \\\\ 中\"}}");
    assert_eq!(parsed(&json)["error"]["message"], "got \"x\"\tand \\ 中");
}
