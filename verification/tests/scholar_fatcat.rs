use zotron::http::Fetched;
use zotron::json::{Json, JsonNumber};
use zotron::scholar::sources::fatcat::{is_wayback, looks_like_pdf_url, select_pdf, urlenc, Fatcat};

fn to_json(v: &serde_json::Value) -> Json {
    match v {
        serde_json::Value::Null => Json::Null,
        serde_json::Value::Bool(b) => Json::Bool(*b),
        serde_json::Value::Number(n) => match (n.as_u64(), n.as_i64()) {
            (Some(u), _) => Json::Number(JsonNumber::PosInt(u)),
            (None, Some(i)) => Json::Number(JsonNumber::NegInt(i)),
            _ => Json::Number(JsonNumber::Float(n.to_string())),
        },
        serde_json::Value::String(s) => Json::Str(s.clone()),
        serde_json::Value::Array(a) => Json::Array(a.iter().map(to_json).collect()),
        serde_json::Value::Object(m) => {
            Json::Object(m.iter().map(|(k, x)| (k.clone(), to_json(x))).collect())
        }
    }
}

fn j(text: &str) -> Json {
    to_json(&serde_json::from_str::<serde_json::Value>(text).expect("valid JSON"))
}

#[test]
fn test_is_wayback() {
    assert!(is_wayback("https://web.archive.org/web/2020/http://x.org/a.pdf"));
    assert!(!is_wayback("https://repo.example.org/a.pdf"));
}

#[test]
fn test_prefers_pdf_mimetype_live_over_archive() {
    let release = j(r#"{
        "files": [{
            "mimetype": "application/pdf",
            "urls": [
                {"url": "https://web.archive.org/web/2020/http://x.org/a.pdf", "rel": "webarchive"},
                {"url": "https://repo.example.org/a.pdf", "rel": "repository"}
            ]
        }]
    }"#);
    assert_eq!(select_pdf(&release).as_deref(), Some("https://repo.example.org/a.pdf"));
}

#[test]
fn test_accepts_wayback_only() {
    let release = j(r#"{
        "files": [{
            "mimetype": "application/pdf",
            "urls": [
                {"url": "https://web.archive.org/web/2020/http://x.org/a.pdf", "rel": "webarchive"}
            ]
        }]
    }"#);
    assert_eq!(
        select_pdf(&release).as_deref(),
        Some("https://web.archive.org/web/2020/http://x.org/a.pdf")
    );
}

#[test]
fn test_pdf_mimetype_beats_pdf_looking_url() {
    let release = j(r#"{
        "files": [
            {
                "mimetype": "text/html",
                "urls": [{"url": "https://x.org/view/pdf", "rel": "web"}]
            },
            {
                "mimetype": "application/pdf",
                "urls": [{"url": "https://web.archive.org/web/2020/x.pdf", "rel": "webarchive"}]
            }
        ]
    }"#);
    assert_eq!(
        select_pdf(&release).as_deref(),
        Some("https://web.archive.org/web/2020/x.pdf")
    );
}

#[test]
fn test_no_files_none() {
    let release = j(r#"{ "files": [] }"#);
    assert_eq!(select_pdf(&release), None);
    let release2 = j(r#"{ "ident": "abc" }"#);
    assert_eq!(select_pdf(&release2), None);
}

#[test]
fn fatcat_test_urlenc() {
    assert_eq!(urlenc("10.1371/journal.pone.0173664"), "10.1371%2Fjournal.pone.0173664");
}

#[test]
fn fatcat_pdf_looking_urls_ignore_case() {
    assert!(looks_like_pdf_url("https://x.org/A.PDF"));
    assert!(looks_like_pdf_url("https://x.org/a.pdf?dl=1"));
    assert!(looks_like_pdf_url("https://x.org/content/PDF/12"));
    assert!(!looks_like_pdf_url("https://x.org/landing"));
}

#[test]
fn fatcat_live_guess_beats_archived_guess_and_skips_empty_urls() {
    let release = j(r#"{
        "files": [
            {"mimetype": "text/html", "urls": [
                {"url": ""},
                {"url": "https://web.archive.org/web/1/x.pdf"},
                {"url": "https://x.org/y.pdf"}
            ]},
            {"urls": [{"url": "https://x.org/landing"}]}
        ]
    }"#);
    assert_eq!(select_pdf(&release).as_deref(), Some("https://x.org/y.pdf"));
}

#[test]
fn fatcat_lookup_lowercases_doi_and_tolerates_missing_release() {
    let f = Fatcat::new();
    let g = f.find_pdf_request("10.1371/Journal.PONE");
    assert_eq!(
        g.url,
        "https://api.fatcat.wiki/v0/release/lookup?doi=10.1371%2Fjournal.pone&expand=files"
    );
    assert_eq!(f.find_pdf_reply(&Fetched::Status(404, "nf".to_string())), Ok(None));
    assert_eq!(f.find_pdf_reply(&Fetched::Status(400, "bad".to_string())), Ok(None));
    assert_eq!(
        f.find_pdf_reply(&Fetched::Status(503, "busy".to_string())),
        Err("fatcat request failed: busy".to_string())
    );
}
