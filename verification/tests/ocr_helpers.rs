use zotron::cli::items::check_pdf_magic;
use zotron::ocr::{check_mineru_sources, ocr_status_report};
use zotron::json::{Json, JsonNumber};
use zotron::ocr::{
    base64_encode, guess_mime_type, is_image_file, mineru_api_base, mineru_batch_state,
    mineru_batch_status_url, mineru_batch_zip_url, mineru_file_urls_url, mineru_task_status_url,
    ocr_async_task_result, provider_auth_header_value, tag_is_ocr,
};

fn to_json(v: &serde_json::Value) -> Json {
    match v {
        serde_json::Value::Null => Json::Null,
        serde_json::Value::Bool(b) => Json::Bool(*b),
        serde_json::Value::Number(n) => match (n.as_u64(), n.as_i64()) {
            (Some(u), _) => Json::Number(JsonNumber::PosInt(u)),
            (None, Some(i)) => Json::Number(JsonNumber::NegInt(i)),
            _ => Json::Number(JsonNumber::Float(n.to_string())),
        },
        serde_json::Value::String(s) => Json::Str(s.clone()),
        serde_json::Value::Array(a) => Json::Array(a.iter().map(to_json).collect()),
        serde_json::Value::Object(m) => {
            Json::Object(m.iter().map(|(k, x)| (k.clone(), to_json(x))).collect())
        }
    }
}

fn j(text: &str) -> Json {
    to_json(&serde_json::from_str::<serde_json::Value>(text).expect("valid JSON"))
}

fn to_value(j: &Json) -> serde_json::Value {
    match j {
        Json::Null => serde_json::Value::Null,
        Json::Bool(b) => serde_json::Value::Bool(*b),
        Json::Number(JsonNumber::PosInt(n)) => serde_json::Value::from(*n),
        Json::Number(JsonNumber::NegInt(n)) => serde_json::Value::from(*n),
        Json::Number(JsonNumber::Float(t)) => serde_json::from_str(t).expect("number"),
        Json::Str(s) => serde_json::Value::String(s.clone()),
        Json::Array(a) => serde_json::Value::Array(a.iter().map(to_value).collect()),
        Json::Object(m) => serde_json::Value::Object(
            m.iter().map(|(k, x)| (k.clone(), to_value(x))).collect(),
        ),
    }
}

fn v(text: &str) -> serde_json::Value {
    serde_json::from_str(text).expect("valid JSON")
}

#[test]
fn mineru_urls_follow_the_endpoint() {
    assert_eq!(mineru_api_base(None), "https://mineru.net/api/v4");
    assert_eq!(mineru_api_base(Some("http://h/api/extract/")), "http://h/api");
    assert_eq!(mineru_api_base(Some("http://h/api//")), "http://h/api");
    assert_eq!(
        mineru_task_status_url(None, "T1"),
        "https://mineru.net/api/v4/extract/task/T1"
    );
    assert_eq!(mineru_task_status_url(Some("http://h/v1"), "T1"), "http://h/v1/extract/task/T1");
    assert_eq!(mineru_file_urls_url(None), "https://mineru.net/api/v4/file-urls/batch");
    assert_eq!(
        mineru_batch_status_url(Some("http://h/api/extract/task/"), "B"),
        "http://h/api/extract-results/batch/B"
    );
}

#[test]
fn batch_state_and_zip_are_found_in_any_of_three_places() {
    let s = j(r#"{"data": {"extract_result": [{"state": "done", "full_zip_url": "z1"}]}}"#);
    assert_eq!(mineru_batch_state(&s).as_deref(), Some("done"));
    assert_eq!(mineru_batch_zip_url(&s).as_deref(), Some("z1"));
    let s = j(r#"{"data": {"extractResult": [{"state": "running"}], "state": "x"}}"#);
    assert_eq!(mineru_batch_state(&s).as_deref(), Some("running"));
    let s = j(r#"{"data": {"state": "failed", "full_zip_url": "z3"}}"#);
    assert_eq!(mineru_batch_state(&s).as_deref(), Some("failed"));
    assert_eq!(mineru_batch_zip_url(&s).as_deref(), Some("z3"));
    let s = j(r#"{"data": {"extract_result": [{"state": 5}], "state": "x"}}"#);
    assert_eq!(mineru_batch_state(&s), None);
}

#[test]
fn async_tasks_are_reported_with_their_result_url() {
    let payload = j(r#"{"data": {"task_id": "T9", "markdown_url": "m"}}"#);
    let r = ocr_async_task_result("mineru", &payload).unwrap();
    assert_eq!(
        to_value(&r),
        v(r#"{"provider": "mineru", "status": "submitted", "taskId": "T9", "state": "submitted",
              "resultUrl": "m", "raw": {"data": {"task_id": "T9", "markdown_url": "m"}}}"#)
    );
    assert!(ocr_async_task_result("p", &j(r#"{"data": {}}"#)).is_none());
    assert!(tag_is_ocr(&j(r#""ocr""#)));
    assert!(tag_is_ocr(&j(r#"{"tag": "ocr"}"#)));
    assert!(!tag_is_ocr(&j(r#"{"tag": "OCR"}"#)));
}

#[test]
fn provider_credentials_get_their_scheme_once() {
    assert_eq!(provider_auth_header_value("K", Some(" abc "), "bearer"), Ok("Bearer abc".to_string()));
    assert_eq!(provider_auth_header_value("K", Some("Bearer abc"), "bearer"), Ok("Bearer abc".to_string()));
    assert_eq!(provider_auth_header_value("K", Some("abc"), "token"), Ok("token abc".to_string()));
    assert_eq!(provider_auth_header_value("K", Some("abc"), "raw"), Ok("abc".to_string()));
    assert_eq!(
        provider_auth_header_value("K", None, "bearer"),
        Err("missing provider credential env var K".to_string())
    );
    assert_eq!(
        provider_auth_header_value("K", Some("  "), "bearer"),
        Err("provider credential env var K is empty".to_string())
    );
}

#[test]
fn file_types_follow_extensions() {
    assert_eq!(guess_mime_type("/x/a.PNG"), "image/png");
    assert_eq!(guess_mime_type("a.jpeg"), "image/jpeg");
    assert_eq!(guess_mime_type("a.webp"), "image/webp");
    assert_eq!(guess_mime_type("paper"), "application/pdf");
    assert!(is_image_file("dir/fig.GIF"));
    assert!(!is_image_file("doc.pdf"));
}

#[test]
fn base64_matches_the_standard_alphabet_and_padding() {
    assert_eq!(base64_encode(b""), "");
    assert_eq!(base64_encode(b"f"), "Zg==");
    assert_eq!(base64_encode(b"fo"), "Zm8=");
    assert_eq!(base64_encode(b"foo"), "Zm9v");
    assert_eq!(base64_encode(b"foobar"), "Zm9vYmFy");
    assert_eq!(base64_encode(&[0xfb, 0xff]), "+/8=");
}

#[test]
fn ocr_status_report_counts_items_with_and_without_ocr() {
    let items = vec![Json::Null, Json::Null, Json::Null];
    let r = ocr_status_report("Macro", &items, &vec![true, false, true]);
    assert_eq!(r.get("collection").and_then(|v| v.as_str()), Some("Macro"));
    assert_eq!(r.get("total").and_then(|v| v.as_u64()), Some(3));
    assert_eq!(r.get("has_ocr").and_then(|v| v.as_u64()), Some(2));
    assert_eq!(r.get("missing_ocr").and_then(|v| v.as_u64()), Some(1));
    let empty = ocr_status_report("E", &Vec::new(), &Vec::new());
    assert_eq!(empty.get("missing_ocr").and_then(|v| v.as_u64()), Some(0));
}

#[test]
fn mineru_result_sources_are_exclusive() {
    assert_eq!(check_mineru_sources(false, true, true), Err("INVALID_ARGS: use either --result-dir or --result-zip, not both".to_string()));
    assert_eq!(
        check_mineru_sources(true, false, true),
        Err("INVALID_ARGS: --source-url cannot be combined with --result-dir/--result-zip".to_string())
    );
    assert_eq!(check_mineru_sources(true, false, false), Ok(()));
    assert_eq!(check_mineru_sources(false, true, false), Ok(()));
}

#[test]
fn pdf_magic_is_checked_on_the_bytes() {
    assert_eq!(check_pdf_magic("a.pdf", &b"%PDF-1.7 rest".to_vec()), Ok(13));
    assert_eq!(
        check_pdf_magic("b.pdf", &b"%PDF".to_vec()),
        Err("INVALID_PDF: b.pdf does not start with %PDF- magic bytes".to_string())
    );
    assert!(check_pdf_magic("c.pdf", &b"<html>".to_vec()).is_err());
}
