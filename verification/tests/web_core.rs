use zotron::http::Fetched;
use zotron::json::{Json, JsonNumber};
use zotron::web::sources::core_ac::{select_pdf, urlenc, Core};

fn to_json(v: &serde_json::Value) -> Json {
    match v {
        serde_json::Value::Null => Json::Null,
        serde_json::Value::Bool(b) => Json::Bool(*b),
        serde_json::Value::Number(n) => match (n.as_u64(), n.as_i64()) {
            (Some(u), _) => Json::Number(JsonNumber::PosInt(u)),
            (None, Some(i)) => Json::Number(JsonNumber::NegInt(i)),
            _ => Json::Number(JsonNumber::Float(n.to_string())),
        },
        serde_json::Value::String(s) => Json::Str(s.clone()),
        serde_json::Value::Array(a) => Json::Array(a.iter().map(to_json).collect()),
        serde_json::Value::Object(m) => {
            Json::Object(m.iter().map(|(k, x)| (k.clone(), to_json(x))).collect())
        }
    }
}

fn j(text: &str) -> Json {
    to_json(&serde_json::from_str::<serde_json::Value>(text).expect("valid JSON"))
}

#[test]
fn test_no_key_skips_without_error() {
    let core = Core { api_key: None };
    let r = core.find_pdf("10.1234/test", |_| -> zotron::http::Fetched<Json> {
        panic!("no request is made without a key")
    });
    assert_eq!(r, Ok(None));
}

#[test]
fn test_blank_key_treated_as_absent() {
    let core = Core::new(Some("   ".to_string()));
    assert!(core.api_key.is_none());
}

#[test]
fn test_empty_key_treated_as_absent() {
    let core = Core::new(Some(String::new()));
    assert!(core.api_key.is_none());
}

#[test]
fn test_present_key_kept() {
    let core = Core::new(Some("core-secret".to_string()));
    assert_eq!(core.api_key.as_deref(), Some("core-secret"));
}

#[test]
fn test_select_pdf_picks_download_url() {
    let resp = j(r#"{
        "totalHits": 1,
        "results": [
            { "doi": "10.1/x", "downloadUrl": "https://core.ac.uk/download/123.pdf" }
        ]
    }"#);
    assert_eq!(
        select_pdf(&resp).as_deref(),
        Some("https://core.ac.uk/download/123.pdf")
    );
}

#[test]
fn test_select_pdf_skips_empty_download_url() {
    let resp = j(r#"{
        "results": [
            { "downloadUrl": "" },
            { "downloadUrl": "https://core.ac.uk/download/9.pdf" }
        ]
    }"#);
    assert_eq!(
        select_pdf(&resp).as_deref(),
        Some("https://core.ac.uk/download/9.pdf")
    );
}

#[test]
fn test_select_pdf_no_results_none() {
    let resp = j(r#"{ "totalHits": 0, "results": [] }"#);
    assert_eq!(select_pdf(&resp), None);
}

#[test]
fn test_urlenc_quotes() {
    assert_eq!(urlenc("doi:\"10.1/x\""), "doi%3A%2210.1%2Fx%22");
}

#[test]
fn core_request_carries_key_and_exact_doi_query() {
    let core = Core::new(Some("k1".to_string()));
    let g = core.find_pdf_request("10.1/x").expect("a key gives a request");
    assert_eq!(
        g.url,
        "https://api.core.ac.uk/v3/search/works?q=doi%3A%2210.1%2Fx%22&limit=5"
    );
    assert_eq!(g.headers[0], ("Authorization".to_string(), "Bearer k1".to_string()));
    assert_eq!(g.headers[1], ("Accept".to_string(), "application/json".to_string()));
}

#[test]
fn core_rejected_key_and_missing_record_mean_no_pdf() {
    let core = Core::new(Some("k1".to_string()));
    for code in [404u16, 401, 403, 429] {
        let r = core.find_pdf_reply(&Fetched::Status(code, "x".to_string()));
        assert_eq!(r, Ok(None));
    }
    let r = core.find_pdf_reply(&Fetched::Status(500, "boom".to_string()));
    assert_eq!(r, Err("CORE request failed: boom".to_string()));
    let r = core.find_pdf_reply(&Fetched::Unreadable("bad".to_string()));
    assert_eq!(r, Err("CORE JSON parse failed: bad".to_string()));
}
