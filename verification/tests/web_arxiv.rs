use zotron::web::sources::arxiv::{
    extract_arxiv_id, extract_authors, extract_tag, parse_single_entry, split_entries, urlenc,
};

#[test]
fn arxiv_test_urlenc() {
    assert_eq!(urlenc("hello world"), "hello%20world");
    assert_eq!(urlenc("machine+learning"), "machine%2Blearning");
}

#[test]
fn test_extract_tag_simple() {
    let xml = r#"<entry><title>Test Title</title><summary>Abstract here</summary></entry>"#;
    assert_eq!(extract_tag(xml, "title"), Some("Test Title".to_string()));
    assert_eq!(
        extract_tag(xml, "summary"),
        Some("Abstract here".to_string())
    );
}

#[test]
fn test_extract_tag_with_attributes() {
    let xml = r#"<title type="html">Some Title</title>"#;
    assert_eq!(extract_tag(xml, "title"), Some("Some Title".to_string()));
}

#[test]
fn test_extract_tag_missing() {
    let xml = "<entry><title>Foo</title></entry>";
    assert_eq!(extract_tag(xml, "summary"), None);
}

#[test]
fn test_extract_authors() {
    let entry = r#"
        <entry>
            <author><name>Alice Smith</name></author>
            <author><name>Bob Jones</name></author>
        </entry>
    "#;
    let authors = extract_authors(entry);
    assert_eq!(authors.len(), 2);
    assert_eq!(authors[0].name, "Alice Smith");
    assert_eq!(authors[1].name, "Bob Jones");
}

#[test]
fn test_extract_arxiv_id() {
    let entry = "<entry><id>http://arxiv.org/abs/2301.12345v1</id></entry>";
    assert_eq!(
        extract_arxiv_id(entry),
        Some("2301.12345v1".to_string())
    );
}

#[test]
fn test_split_entries() {
    let xml = r#"
        <feed>
            <entry><title>A</title></entry>
            <entry><title>B</title></entry>
        </feed>
    "#;
    let entries = split_entries(xml);
    assert_eq!(entries.len(), 2);
    assert!(entries[0].contains("A"));
    assert!(entries[1].contains("B"));
}

#[test]
fn test_parse_single_entry() {
    let entry = r#"
        <entry>
            <id>http://arxiv.org/abs/2301.12345v1</id>
            <title>Attention Is All You Need</title>
            <summary>We propose a new architecture.</summary>
            <published>2023-01-15T12:00:00Z</published>
            <author><name>Ashish Vaswani</name></author>
            <author><name>Noam Shazeer</name></author>
        </entry>
    "#;
    let paper = parse_single_entry(entry).unwrap();
    assert_eq!(paper.title, "Attention Is All You Need");
    assert_eq!(paper.authors.len(), 2);
    assert_eq!(paper.authors[0].name, "Ashish Vaswani");
    assert_eq!(
        paper.abstract_text.as_deref(),
        Some("We propose a new architecture.")
    );
    assert_eq!(paper.date.as_deref(), Some("2023-01-15"));
    assert_eq!(paper.arxiv_id.as_deref(), Some("2301.12345v1"));
    assert_eq!(
        paper.pdf_url.as_deref(),
        Some("https://arxiv.org/pdf/2301.12345v1")
    );
    assert_eq!(
        paper.url.as_deref(),
        Some("https://arxiv.org/abs/2301.12345v1")
    );
    assert_eq!(paper.source.as_deref(), Some("arxiv"));
}

#[test]
fn test_parse_single_entry_missing_title() {
    let entry = "<entry><summary>No title</summary></entry>";
    let result = parse_single_entry(entry);
    assert!(result.is_err());
}

#[test]
fn test_parse_single_entry_multiline_title() {
    let entry = r#"
        <entry>
            <id>http://arxiv.org/abs/0000.00000v1</id>
            <title>
                Multi
                Line Title
            </title>
            <summary>Abstract</summary>
            <published>2024-06-01T00:00:00Z</published>
        </entry>
    "#;
    let paper = parse_single_entry(entry).unwrap();
    assert_eq!(paper.title, "Multi Line Title");
}

#[test]
fn arxiv_id_without_abs_segment_and_unclosed_entries() {
    assert_eq!(
        extract_arxiv_id("<id>https://example.org/x/1234</id>"),
        Some("1234".to_string())
    );
    assert_eq!(extract_arxiv_id("<id>plain</id>"), Some("plain".to_string()));
    assert_eq!(extract_tag("<title>   </title>", "title"), None);
    // An <entry> with no closing tag ends the scan.
    assert_eq!(split_entries("<entry>a</entry><entry>b").len(), 1);
    assert_eq!(urlenc("数"), "%E6%95%B0");
}
