use zotron::http::Fetched;
use zotron::json::{Json, JsonNumber};
use zotron::paper::{Author, Paper};
use zotron::scholar::fetch::{fetch_arxiv, fetch_doi, pdf_candidates, try_source, with_resolved_pdf};
use zotron::scholar::retry::{Outcome, Retry, RetryStep};
use zotron::scholar::sources::arxiv::ArXiv;
use zotron::scholar::sources::crossref::CrossRef;
use zotron::scholar::sources::openalex::OpenAlex;
use zotron::scholar::sources::unpaywall::Unpaywall;
use zotron::scholar::sources::Source;

fn paper(pdf: Option<&str>) -> Paper {
    Paper {
        title: "T".to_string(),
        authors: vec![Author { name: "Ada Lovelace".to_string() }],
        doi: Some("10.1/x".to_string()),
        abstract_text: None,
        date: None,
        publication: None,
        volume: None,
        pages: None,
        url: None,
        pdf_url: pdf.map(|s| s.to_string()),
        arxiv_id: None,
        source: Some("crossref".to_string()),
        cited_by_count: None,
    }
}

fn no_fetch(_: zotron::http::HttpGet) -> Fetched<Json> {
    panic!("stub sources make no request")
}

#[test]
fn scholar_stub_sources_refuse_with_their_messages() {
    assert_eq!(ArXiv::new().fetch_id("1").unwrap_err(), "arxiv fetch_id not yet implemented");
    assert_eq!(ArXiv::new().search("q", 1, no_fetch).unwrap_err(), "arxiv search not yet implemented");
    assert_eq!(CrossRef::new().fetch_doi("d").unwrap_err(), "crossref fetch_doi not yet implemented");
    assert_eq!(CrossRef::new().search("q", 1, no_fetch).unwrap_err(), "crossref search not yet implemented");
    let oa = OpenAlex::new(None);
    assert_eq!(oa.name(), "openalex");
    assert_eq!(oa.search("q", 1, no_fetch).unwrap_err(), "openalex search not yet implemented");
    let u = Unpaywall::new(Some("a@b".to_string()));
    assert_eq!(u.find_pdf("d").unwrap_err(), "unpaywall find_pdf not yet implemented");
    assert_eq!(fetch_arxiv("1706.03762").unwrap_err(), "arxiv fetch_id not yet implemented");
    assert_eq!(fetch_doi("10.1/x").unwrap_err(), "crossref fetch_doi not yet implemented");
}

#[test]
fn try_source_downgrades_errors() {
    assert_eq!(try_source("x", || Ok(Some("u".to_string()))), Some("u".to_string()));
    assert_eq!(try_source("x", || Ok(None)), None);
    assert_eq!(try_source("x", || Err("boom".to_string())), None);
}

#[test]
fn cascade_order_skips_missing_candidates() {
    let c = pdf_candidates(
        None,
        Some("d".to_string()),
        None,
        Some("f".to_string()),
        Some("m".to_string()),
    );
    let names: Vec<(&str, &str)> = c.iter().map(|(n, u)| (n.as_str(), u.as_str())).collect();
    assert_eq!(names, vec![("DOAJ", "d"), ("fatcat", "f"), ("OpenAlex/S2", "m")]);
}

#[test]
fn resolved_pdf_replaces_reported_one() {
    let p = with_resolved_pdf(paper(Some("old")), Some("new".to_string()));
    assert_eq!(p.pdf_url.as_deref(), Some("new"));
    let p = with_resolved_pdf(paper(Some("old")), None);
    assert_eq!(p.pdf_url.as_deref(), Some("old"));
}

#[test]
fn retry_gives_up_after_three_transport_failures() {
    let mut r = Retry::new();
    let t = Outcome::Transport("reset".to_string());
    assert!(matches!(r.step(&t), RetryStep::Wait(300)));
    assert!(matches!(r.step(&t), RetryStep::Wait(600)));
    match r.step(&t) {
        RetryStep::Fail(m) => assert_eq!(m, "transport error: reset"),
        _ => panic!("third failure gives up"),
    }
}

#[test]
fn retry_never_retries_a_status() {
    let mut r = Retry::new();
    match r.step(&Outcome::Status(404)) {
        RetryStep::Fail(m) => assert_eq!(m, "HTTP status 404"),
        _ => panic!("a status is final"),
    }
    let mut r = Retry::new();
    assert!(matches!(r.step(&Outcome::Success), RetryStep::Use));
}

fn value_of(j: &Json) -> serde_json::Value {
    match j {
        Json::Null => serde_json::Value::Null,
        Json::Bool(b) => serde_json::Value::Bool(*b),
        Json::Number(JsonNumber::PosInt(n)) => serde_json::Value::from(*n),
        Json::Number(JsonNumber::NegInt(n)) => serde_json::Value::from(*n),
        Json::Number(JsonNumber::Float(t)) => serde_json::from_str(t).expect("number"),
        Json::Str(s) => serde_json::Value::String(s.clone()),
        Json::Array(a) => serde_json::Value::Array(a.iter().map(value_of).collect()),
        Json::Object(m) => serde_json::Value::Object(
            m.iter().map(|(k, x)| (k.clone(), value_of(x))).collect(),
        ),
    }
}

#[test]
fn zotero_json_splits_names_at_last_space() {
    let mut p = paper(None);
    p.authors = vec![
        Author { name: "Ada King Lovelace".to_string() },
        Author { name: "Plato".to_string() },
    ];
    p.volume = Some("3".to_string());
    let got = value_of(&p.to_zotero_json());
    let want: serde_json::Value = serde_json::from_str(
        r#"{
            "itemType": "journalArticle",
            "title": "T",
            "creators": [
                {"creatorType": "author", "firstName": "Ada King", "lastName": "Lovelace"},
                {"creatorType": "author", "firstName": "", "lastName": "Plato"}
            ],
            "DOI": "10.1/x",
            "volume": "3"
        }"#,
    )
    .expect("valid JSON");
    assert_eq!(got, want);
}
