use zotron::http::Fetched;
use zotron::scholar::sources::publisher::{extract_attr, extract_citation_pdf_url, PublisherDirect};

#[test]
fn extracts_when_name_then_content_double_quotes() {
    let html = r#"<head><meta name="citation_pdf_url" content="https://x.com/a.pdf"></head>"#;
    assert_eq!(
        extract_citation_pdf_url(html).as_deref(),
        Some("https://x.com/a.pdf")
    );
}

#[test]
fn extracts_when_content_before_name_single_quotes() {
    let html = r#"<meta content='https://y.org/b.pdf' name='citation_pdf_url'/>"#;
    assert_eq!(
        extract_citation_pdf_url(html).as_deref(),
        Some("https://y.org/b.pdf")
    );
}

#[test]
fn none_when_no_citation_pdf_url() {
    let html = r#"<meta name="citation_title" content="A Paper"><meta name="dc.format" content="application/pdf">"#;
    assert!(extract_citation_pdf_url(html).is_none());
}

#[test]
fn publisher_tag_names_ignore_case_and_blank_content_is_skipped() {
    let html = r#"<META NAME="citation_pdf_url" CONTENT="  "><Meta Name="Citation_PDF_URL" Content=" https://z.org/c.pdf ">"#;
    assert_eq!(extract_citation_pdf_url(html).as_deref(), Some("https://z.org/c.pdf"));
}

#[test]
fn publisher_attribute_needs_a_quote() {
    assert_eq!(extract_attr("<a x=1>", "<a x=1>", "x"), None);
    assert_eq!(extract_attr("<a x='Q'>", "<a x='q'>", "x").as_deref(), Some("Q"));
}

#[test]
fn publisher_lands_on_doi_org_and_reports_errors() {
    let p = PublisherDirect::new();
    let r = p.find_pdf("10.1/x", |g| {
        assert_eq!(g.url, "https://doi.org/10.1/x");
        Fetched::Status(403, "forbidden".to_string())
    });
    assert_eq!(r, Err("HTTP status 403".to_string()));
    let r = p.find_pdf("10.1/x", |_| Fetched::Transport("tls".to_string()));
    assert_eq!(r, Err("transport error: tls".to_string()));
    let r = p.find_pdf("10.1/x", |_| {
        Fetched::Body(r#"<meta name="citation_pdf_url" content="https://p.org/x.pdf">"#.to_string())
    });
    assert_eq!(r, Ok(Some("https://p.org/x.pdf".to_string())));
}
