use zotron::http::Fetched;
use zotron::json::{Json, JsonNumber};
use zotron::web::sources::doaj::{eq_pdf, select_pdf, urlenc, Doaj};

fn to_json(v: &serde_json::Value) -> Json {
    match v {
        serde_json::Value::Null => Json::Null,
        serde_json::Value::Bool(b) => Json::Bool(*b),
        serde_json::Value::Number(n) => match (n.as_u64(), n.as_i64()) {
            (Some(u), _) => Json::Number(JsonNumber::PosInt(u)),
            (None, Some(i)) => Json::Number(JsonNumber::NegInt(i)),
            _ => Json::Number(JsonNumber::Float(n.to_string())),
        },
        serde_json::Value::String(s) => Json::Str(s.clone()),
        serde_json::Value::Array(a) => Json::Array(a.iter().map(to_json).collect()),
        serde_json::Value::Object(m) => {
            Json::Object(m.iter().map(|(k, x)| (k.clone(), to_json(x))).collect())
        }
    }
}

fn j(text: &str) -> Json {
    to_json(&serde_json::from_str::<serde_json::Value>(text).expect("valid JSON"))
}

#[test]
fn test_urlenc_escapes_doi_slash() {
    assert_eq!(urlenc("doi:10.7717/peerj.4375"), "doi%3A10.7717%2Fpeerj.4375");
}

#[test]
fn test_eq_pdf_case_insensitive() {
    assert!(eq_pdf("PDF"));
    assert!(eq_pdf("pdf"));
    assert!(!eq_pdf("HTML"));
}

#[test]
fn test_prefers_pdf_over_html() {
    let resp = j(r#"{
        "results": [{
            "bibjson": {
                "link": [
                    {"content_type": "HTML", "type": "fulltext", "url": "https://example.org/x/"},
                    {"content_type": "PDF", "type": "fulltext", "url": "https://example.org/x.pdf"}
                ]
            }
        }]
    }"#);
    assert_eq!(select_pdf(&resp).as_deref(), Some("https://example.org/x.pdf"));
}

#[test]
fn test_falls_back_to_any_fulltext() {
    let resp = j(r#"{
        "results": [{
            "bibjson": {
                "link": [
                    {"content_type": "HTML", "type": "fulltext", "url": "https://example.org/x/"}
                ]
            }
        }]
    }"#);
    assert_eq!(select_pdf(&resp).as_deref(), Some("https://example.org/x/"));
}

#[test]
fn test_empty_results_none() {
    let resp = j(r#"{ "results": [] }"#);
    assert_eq!(select_pdf(&resp), None);
}

#[test]
fn doaj_request_and_failure_texts() {
    let d = Doaj::new();
    let r = d.find_pdf("10.7717/peerj.4375", |g| {
        assert!(g.url.contains("doi%3A10.7717%2Fpeerj.4375"));
        Fetched::Transport("down".to_string())
    });
    assert!(r.is_err());
}
