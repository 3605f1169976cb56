use zotron::http::Fetched;
use zotron::json::{Json, JsonNumber};
use zotron::web::sources::unpaywall::{urlenc, urlenc_doi, Unpaywall};

fn to_json(v: &serde_json::Value) -> Json {
    match v {
        serde_json::Value::Null => Json::Null,
        serde_json::Value::Bool(b) => Json::Bool(*b),
        serde_json::Value::Number(n) => match (n.as_u64(), n.as_i64()) {
            (Some(u), _) => Json::Number(JsonNumber::PosInt(u)),
            (None, Some(i)) => Json::Number(JsonNumber::NegInt(i)),
            _ => Json::Number(JsonNumber::Float(n.to_string())),
        },
        serde_json::Value::String(s) => Json::Str(s.clone()),
        serde_json::Value::Array(a) => Json::Array(a.iter().map(to_json).collect()),
        serde_json::Value::Object(m) => {
            Json::Object(m.iter().map(|(k, x)| (k.clone(), to_json(x))).collect())
        }
    }
}

fn j(text: &str) -> Json {
    to_json(&serde_json::from_str::<serde_json::Value>(text).expect("valid JSON"))
}

#[test]
fn test_urlenc_doi() {
    assert_eq!(urlenc_doi("10.1234/test"), "10.1234/test");
}

#[test]
fn test_urlenc_email() {
    assert_eq!(urlenc("user@example.com"), "user%40example.com");
}

#[test]
fn test_default_email_used_when_env_not_set() {
    let u = Unpaywall { email: None };
    assert!(u.email.is_none());
}

#[test]
fn unpaywall_default_address_and_best_location() {
    let u = Unpaywall::new(None);
    let g = u.find_pdf_request("10.1/x");
    assert_eq!(
        g.url,
        "https://api.unpaywall.org/v2/10.1/x?email=zotron%40users.noreply.github.com"
    );
    let r = u.find_pdf_reply(&Fetched::Body(j(
        r#"{"best_oa_location": {"url": "https://x.org/landing"}}"#,
    )));
    assert_eq!(r, Ok(Some("https://x.org/landing".to_string())));
    let r = u.find_pdf_reply(&Fetched::Status(404, "nf".to_string()));
    assert_eq!(r, Ok(None));
}
