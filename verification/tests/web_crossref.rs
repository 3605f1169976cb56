use zotron::http::Fetched;
use zotron::json::{Json, JsonNumber};
use zotron::web::sources::crossref::{extract_date, parse_message, urlenc, urlenc_doi, CrossRef};

fn to_json(v: &serde_json::Value) -> Json {
    match v {
        serde_json::Value::Null => Json::Null,
        serde_json::Value::Bool(b) => Json::Bool(*b),
        serde_json::Value::Number(n) => match (n.as_u64(), n.as_i64()) {
            (Some(u), _) => Json::Number(JsonNumber::PosInt(u)),
            (None, Some(i)) => Json::Number(JsonNumber::NegInt(i)),
            _ => Json::Number(JsonNumber::Float(n.to_string())),
        },
        serde_json::Value::String(s) => Json::Str(s.clone()),
        serde_json::Value::Array(a) => Json::Array(a.iter().map(to_json).collect()),
        serde_json::Value::Object(m) => {
            Json::Object(m.iter().map(|(k, x)| (k.clone(), to_json(x))).collect())
        }
    }
}

fn j(text: &str) -> Json {
    to_json(&serde_json::from_str::<serde_json::Value>(text).expect("valid JSON"))
}

#[test]
fn test_urlenc_doi_preserves_slash() {
    assert_eq!(urlenc_doi("10.1234/test.foo"), "10.1234/test.foo");
    assert_eq!(urlenc_doi("10.1000/s12345-678"), "10.1000/s12345-678");
}

#[test]
fn test_urlenc_doi_encodes_special_chars() {
    assert_eq!(urlenc_doi("10.1000/foo(bar)"), "10.1000/foo%28bar%29");
}

#[test]
fn test_urlenc_query() {
    assert_eq!(urlenc("hello world"), "hello%20world");
    assert_eq!(urlenc("foo@bar.com"), "foo%40bar.com");
}

#[test]
fn test_parse_message_full() {
    let msg = j(r#"{
        "title": ["Deep Learning for NLP"],
        "author": [
            {"given": "Jane", "family": "Doe"},
            {"given": "John", "family": "Smith"}
        ],
        "abstract": "We study methods.",
        "published-print": {"date-parts": [[2023, 4, 15]]},
        "container-title": ["Nature"],
        "volume": "42",
        "page": "100-110",
        "URL": "https://doi.org/10.1234/test"
    }"#);
    let paper = parse_message(&msg, "10.1234/test");
    assert_eq!(paper.title, "Deep Learning for NLP");
    assert_eq!(paper.authors.len(), 2);
    assert_eq!(paper.authors[0].name, "Jane Doe");
    assert_eq!(paper.authors[1].name, "John Smith");
    assert_eq!(paper.doi.as_deref(), Some("10.1234/test"));
    assert_eq!(paper.abstract_text.as_deref(), Some("We study methods."));
    assert_eq!(paper.date.as_deref(), Some("2023-4-15"));
    assert_eq!(paper.publication.as_deref(), Some("Nature"));
    assert_eq!(paper.volume.as_deref(), Some("42"));
    assert_eq!(paper.pages.as_deref(), Some("100-110"));
    assert_eq!(paper.url.as_deref(), Some("https://doi.org/10.1234/test"));
    assert_eq!(paper.source.as_deref(), Some("crossref"));
}

#[test]
fn test_parse_message_minimal() {
    let msg = j("{}");
    let paper = parse_message(&msg, "10.0000/minimal");
    assert_eq!(paper.title, "(untitled)");
    assert!(paper.authors.is_empty());
    assert_eq!(paper.doi.as_deref(), Some("10.0000/minimal"));
    assert!(paper.date.is_none());
}

#[test]
fn test_parse_message_online_date_fallback() {
    let msg = j(r#"{
        "title": ["Online Only"],
        "published-online": {"date-parts": [[2024, 1]]}
    }"#);
    let paper = parse_message(&msg, "10.0000/online");
    assert_eq!(paper.date.as_deref(), Some("2024-1"));
}

#[test]
fn test_extract_date_year_only() {
    let msg = j(r#"{
        "published-print": {"date-parts": [[2020]]}
    }"#);
    assert_eq!(extract_date(&msg, "published-print").as_deref(), Some("2020"));
}

#[test]
fn crossref_author_with_one_name_part_and_citation_count() {
    let msg = j(r#"{
        "title": ["T"],
        "author": [{"family": "Plato"}, {"given": ""}, {"given": "Ada"}],
        "is-referenced-by-count": 7
    }"#);
    let paper = parse_message(&msg, "10.1/x");
    let names: Vec<&str> = paper.authors.iter().map(|a| a.name.as_str()).collect();
    assert_eq!(names, vec!["Plato", "Ada"]);
    assert_eq!(paper.cited_by_count, Some(7));
}

#[test]
fn crossref_works_request_and_replies() {
    let c = CrossRef::new(Some("me@x.org".to_string()));
    let g = c.fetch_doi_request("10.1/a(b)");
    assert_eq!(g.url, "https://api.crossref.org/works/10.1/a%28b%29?mailto=me%40x.org");
    let missing = c.fetch_doi_reply("10.1/a", &Fetched::Body(j(r#"{"status":"ok"}"#)));
    assert_eq!(missing.err().as_deref(), Some("CrossRef response missing 'message'"));
    let status = c.fetch_doi_reply("10.1/a", &Fetched::Status(404, "nf".to_string()));
    assert_eq!(status.err().as_deref(), Some("CrossRef request failed: HTTP status 404"));
    let ok = c.fetch_doi("10.1/a", |_| Fetched::Body(j(r#"{"message":{"title":["X"]}}"#)));
    assert_eq!(ok.expect("a paper").title, "X");
    assert!(c.search("q", 3).is_err());
}
