use zotron::http::Fetched;
use zotron::json::{Json, JsonNumber};
use zotron::scholar::sources::s2::{parse_paper, urlenc, SemanticScholar};
use zotron::scholar::sources::Source;

fn to_json(v: &serde_json::Value) -> Json {
    match v {
        serde_json::Value::Null => Json::Null,
        serde_json::Value::Bool(b) => Json::Bool(*b),
        serde_json::Value::Number(n) => match (n.as_u64(), n.as_i64()) {
            (Some(u), _) => Json::Number(JsonNumber::PosInt(u)),
            (None, Some(i)) => Json::Number(JsonNumber::NegInt(i)),
            _ => Json::Number(JsonNumber::Float(n.to_string())),
        },
        serde_json::Value::String(s) => Json::Str(s.clone()),
        serde_json::Value::Array(a) => Json::Array(a.iter().map(to_json).collect()),
        serde_json::Value::Object(m) => {
            Json::Object(m.iter().map(|(k, x)| (k.clone(), to_json(x))).collect())
        }
    }
}

fn j(text: &str) -> Json {
    to_json(&serde_json::from_str::<serde_json::Value>(text).expect("valid JSON"))
}

#[test]
fn s2_test_urlenc() {
    assert_eq!(urlenc("hello world"), "hello%20world");
    assert_eq!(urlenc("attention is all you need"), "attention%20is%20all%20you%20need");
}

#[test]
fn test_parse_paper_full() {
    let p = j(r#"{
        "title": "Attention Is All You Need",
        "authors": [
            {"name": "Ashish Vaswani"},
            {"name": "Noam Shazeer"}
        ],
        "year": 2017,
        "abstract": "The dominant sequence transduction models...",
        "externalIds": {
            "DOI": "10.48550/arXiv.1706.03762",
            "ArXiv": "1706.03762"
        },
        "openAccessPdf": {
            "url": "https://arxiv.org/pdf/1706.03762"
        },
        "journal": {
            "name": "Advances in Neural Information Processing Systems",
            "volume": "30"
        },
        "url": "https://www.semanticscholar.org/paper/abc123"
    }"#);
    let paper = parse_paper(&p);
    assert_eq!(paper.title, "Attention Is All You Need");
    assert_eq!(paper.authors.len(), 2);
    assert_eq!(paper.authors[0].name, "Ashish Vaswani");
    assert_eq!(paper.authors[1].name, "Noam Shazeer");
    assert_eq!(paper.doi.as_deref(), Some("10.48550/arXiv.1706.03762"));
    assert_eq!(paper.arxiv_id.as_deref(), Some("1706.03762"));
    assert_eq!(
        paper.abstract_text.as_deref(),
        Some("The dominant sequence transduction models...")
    );
    assert_eq!(paper.date.as_deref(), Some("2017"));
    assert_eq!(
        paper.publication.as_deref(),
        Some("Advances in Neural Information Processing Systems")
    );
    assert_eq!(paper.volume.as_deref(), Some("30"));
    assert_eq!(
        paper.pdf_url.as_deref(),
        Some("https://arxiv.org/pdf/1706.03762")
    );
    assert_eq!(
        paper.url.as_deref(),
        Some("https://www.semanticscholar.org/paper/abc123")
    );
    assert_eq!(paper.source.as_deref(), Some("s2"));
}

#[test]
fn test_parse_paper_minimal() {
    let p = j(r#"{ "title": "Minimal Paper" }"#);
    let paper = parse_paper(&p);
    assert_eq!(paper.title, "Minimal Paper");
    assert!(paper.authors.is_empty());
    assert!(paper.doi.is_none());
    assert!(paper.arxiv_id.is_none());
    assert!(paper.abstract_text.is_none());
    assert!(paper.date.is_none());
    assert!(paper.publication.is_none());
    assert!(paper.pdf_url.is_none());
    assert_eq!(paper.source.as_deref(), Some("s2"));
}

#[test]
fn test_parse_paper_null_fields() {
    let p = j(r#"{
        "title": null,
        "authors": null,
        "year": null,
        "abstract": null,
        "externalIds": null,
        "openAccessPdf": null,
        "journal": null,
        "url": null
    }"#);
    let paper = parse_paper(&p);
    assert_eq!(paper.title, "(untitled)");
    assert!(paper.authors.is_empty());
    assert!(paper.doi.is_none());
    assert!(paper.date.is_none());
}

#[test]
fn test_parse_paper_year_as_integer() {
    let p = j(r#"{ "title": "Test", "year": 2023 }"#);
    let paper = parse_paper(&p);
    assert_eq!(paper.date.as_deref(), Some("2023"));
}

#[test]
fn s2_year_as_string_and_citation_count() {
    let p = j(r#"{ "title": "Test", "year": "2019", "citationCount": 12 }"#);
    let paper = parse_paper(&p);
    assert_eq!(paper.date.as_deref(), Some("2019"));
    assert_eq!(paper.cited_by_count, Some(12));
}

#[test]
fn s2_search_caps_limit_and_reads_data() {
    let s2 = SemanticScholar::new();
    assert_eq!(s2.name(), "s2");
    let r = s2.search("graph nets", 1000, |g| {
        assert!(g.url.starts_with(
            "https://api.semanticscholar.org/graph/v1/paper/search?query=graph%20nets&limit=100&fields="
        ));
        Fetched::Body(j(r#"{"data": [{"title": "A"}, {"title": "B"}]}"#))
    });
    let papers = r.expect("papers");
    assert_eq!(papers.len(), 2);
    assert_eq!(papers[1].title, "B");
    let r = s2.search("q", 1, |_| Fetched::Body(j(r#"{"total": 0}"#)));
    assert_eq!(r.err().as_deref(), Some("Semantic Scholar response missing 'data' array"));
}
