use zotron::http::Fetched;
use zotron::json::{Json, JsonNumber};
use zotron::web::sources::openalex::{parse_work, reconstruct_abstract, urlenc, OpenAlex};

fn to_json(v: &serde_json::Value) -> Json {
    match v {
        serde_json::Value::Null => Json::Null,
        serde_json::Value::Bool(b) => Json::Bool(*b),
        serde_json::Value::Number(n) => match (n.as_u64(), n.as_i64()) {
            (Some(u), _) => Json::Number(JsonNumber::PosInt(u)),
            (None, Some(i)) => Json::Number(JsonNumber::NegInt(i)),
            _ => Json::Number(JsonNumber::Float(n.to_string())),
        },
        serde_json::Value::String(s) => Json::Str(s.clone()),
        serde_json::Value::Array(a) => Json::Array(a.iter().map(to_json).collect()),
        serde_json::Value::Object(m) => {
            Json::Object(m.iter().map(|(k, x)| (k.clone(), to_json(x))).collect())
        }
    }
}

fn j(text: &str) -> Json {
    to_json(&serde_json::from_str::<serde_json::Value>(text).expect("valid JSON"))
}

fn members(text: &str) -> Vec<(String, Json)> {
    match j(text) {
        Json::Object(m) => m,
        _ => panic!("an object"),
    }
}

#[test]
fn openalex_test_urlenc() {
    assert_eq!(urlenc("hello world"), "hello%20world");
    assert_eq!(urlenc("machine+learning"), "machine%2Blearning");
    assert_eq!(urlenc("a&b=c"), "a%26b%3Dc");
}

#[test]
fn test_reconstruct_abstract() {
    let index = members(r#"{
        "We": [0],
        "study": [1],
        "deep": [2],
        "learning": [3],
        "methods.": [4]
    }"#);
    assert_eq!(reconstruct_abstract(&index), "We study deep learning methods.");
}

#[test]
fn test_reconstruct_abstract_repeated_words() {
    let index = members(r#"{
        "the": [0, 3],
        "cat": [1],
        "and": [2],
        "dog": [4]
    }"#);
    assert_eq!(reconstruct_abstract(&index), "the cat and the dog");
}

#[test]
fn test_parse_work_minimal() {
    let work = j(r#"{
        "title": "Test Paper",
        "authorships": [],
        "doi": null
    }"#);
    let paper = parse_work(&work);
    assert_eq!(paper.title, "Test Paper");
    assert!(paper.authors.is_empty());
    assert!(paper.doi.is_none());
    assert_eq!(paper.source.as_deref(), Some("openalex"));
}

#[test]
fn test_parse_work_strips_doi_prefix() {
    let work = j(r#"{
        "title": "Test",
        "doi": "https://doi.org/10.1234/test",
        "authorships": [{
            "author": { "display_name": "Jane Doe" }
        }]
    }"#);
    let paper = parse_work(&work);
    assert_eq!(paper.doi.as_deref(), Some("10.1234/test"));
    assert_eq!(paper.authors.len(), 1);
    assert_eq!(paper.authors[0].name, "Jane Doe");
}

#[test]
fn openalex_abstract_ignores_bad_positions_and_keeps_order_of_ties() {
    let index = members(r#"{"b": [1, "x", -2], "a": [1], "z": [0]}"#);
    assert_eq!(reconstruct_abstract(&index), "z a b");
}

#[test]
fn openalex_pdf_falls_back_to_best_location_and_caps_page() {
    let work = j(r#"{
        "title": "T",
        "best_oa_location": {"pdf_url": "https://x.org/a.pdf"},
        "biblio": {"volume": "3", "first_page": "10"},
        "cited_by_count": 5
    }"#);
    let paper = parse_work(&work);
    assert_eq!(paper.pdf_url.as_deref(), Some("https://x.org/a.pdf"));
    assert_eq!(paper.volume.as_deref(), Some("3"));
    assert_eq!(paper.pages.as_deref(), Some("10"));
    assert_eq!(paper.cited_by_count, Some(5));
    let src = OpenAlex::new(Some("a@b.c".to_string()));
    let g = src.search_request("deep learning", 500);
    assert_eq!(
        g.url,
        "https://api.openalex.org/works?search=deep%20learning&per_page=50&mailto=a%40b.c"
    );
    let r = src.search_reply(&Fetched::Body(j(r#"{"meta": {}}"#)));
    assert_eq!(r.err().as_deref(), Some("OpenAlex response missing 'results' array"));
}
