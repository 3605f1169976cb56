use zotron::rag::{
    embedding_vector_filename, is_chunk_schema_header, map_reranked_to_candidates, parse_usize,
    rag_store_root_for_platform, rerank_settings_from, unique_paths, ArtifactStorePlatform,
    RerankProviderDefaults, RerankResult,
};
use zotron::json::{Json, JsonNumber};

fn to_json(v: &serde_json::Value) -> Json {
    match v {
        serde_json::Value::Null => Json::Null,
        serde_json::Value::Bool(b) => Json::Bool(*b),
        serde_json::Value::Number(n) => match (n.as_u64(), n.as_i64()) {
            (Some(u), _) => Json::Number(JsonNumber::PosInt(u)),
            (None, Some(i)) => Json::Number(JsonNumber::NegInt(i)),
            _ => Json::Number(JsonNumber::Float(n.to_string())),
        },
        serde_json::Value::String(s) => Json::Str(s.clone()),
        serde_json::Value::Array(a) => Json::Array(a.iter().map(to_json).collect()),
        serde_json::Value::Object(m) => {
            Json::Object(m.iter().map(|(k, x)| (k.clone(), to_json(x))).collect())
        }
    }
}

fn j(text: &str) -> Json {
    to_json(&serde_json::from_str::<serde_json::Value>(text).expect("valid JSON"))
}

#[test]
fn drops_out_of_range_indices_without_panicking() {
    let candidates = vec![(10_usize, 0.1_f64), (20, 0.2), (30, 0.3)];
    let reranked = vec![
        RerankResult { index: 1, score: 0.9 },
        RerankResult { index: 5, score: 0.8 },
        RerankResult { index: 0, score: 0.7 },
    ];

    let mapped = map_reranked_to_candidates(reranked, &candidates);

    assert_eq!(mapped.len(), 2);
    assert_eq!(mapped[0], (20, 0.9));
    assert_eq!(mapped[1], (10, 0.7));
}

#[test]
fn all_out_of_range_yields_empty() {
    let candidates = vec![(10_usize, 0.1_f64)];
    let reranked = vec![
        RerankResult { index: 1, score: 0.9 },
        RerankResult { index: 99, score: 0.8 },
    ];
    let mapped = map_reranked_to_candidates(reranked, &candidates);
    assert!(mapped.is_empty());
}

#[test]
fn detects_schema_version_header_line() {
    assert!(is_chunk_schema_header("{\"schema_version\":2}"));
    assert!(is_chunk_schema_header("{\"schema_version\": 1}"));
}

#[test]
fn does_not_flag_a_chunk_whose_text_is_the_token() {
    let chunk_line = "{\"chunk_key\":\"ATT1:c0\",\"item_key\":\"ITEM1\",\"attachment_key\":\"ATT1\",\"block_keys\":[],\"section_path\":[],\"text\":\"schema_version\",\"page_range\":[0,0],\"evidence_refs\":[]}";
    assert!(!is_chunk_schema_header(chunk_line));
}

#[test]
fn does_not_flag_a_plain_chunk_line() {
    assert!(!is_chunk_schema_header("{\"chunk_key\":\"x\",\"text\":\"hello world\"}"));
}

#[test]
fn vector_files_are_named_by_provider_and_model() {
    assert_eq!(embedding_vector_filename(" OpenAI ", "text/Embed-3"), "openai--text-embed-3.jsonl");
    assert_eq!(embedding_vector_filename("  ", ""), "vectors.jsonl");
    assert_eq!(embedding_vector_filename("p", ""), "p--.jsonl");
}

#[test]
fn unique_paths_keep_first_occurrences() {
    let u = unique_paths(vec![
        "/a/b".to_string(),
        "/a//b".to_string(),
        "/c".to_string(),
        "/a/b/".to_string(),
    ]);
    assert_eq!(u, vec!["/a/b".to_string(), "/c".to_string()]);
}

#[test]
fn store_roots_follow_platform_conventions() {
    let r = rag_store_root_for_platform(
        ArtifactStorePlatform::Linux,
        None,
        None,
        None,
        Some("/home/u".to_string()),
    );
    assert_eq!(r.base.as_deref(), Some("/home/u"));
    assert_eq!(r.parts, vec![".local", "share", "zotron", "rag"]);
    let r = rag_store_root_for_platform(
        ArtifactStorePlatform::Windows,
        None,
        None,
        Some("C:\\Users\\u".to_string()),
        None,
    );
    assert_eq!(r.parts, vec!["AppData", "Roaming", "Zotron", "rag"]);
    let r = rag_store_root_for_platform(ArtifactStorePlatform::Macos, None, None, None, None);
    assert!(r.base.is_none());
    assert_eq!(r.parts, vec![".zotron", "rag"]);
}

#[test]
fn rerank_settings_fill_defaults_and_parse_candidate_count() {
    let table = vec![RerankProviderDefaults {
        id: "jina".to_string(),
        default_url: "https://api.jina.ai/v1/rerank".to_string(),
        default_model: "jina-reranker".to_string(),
    }];
    let s = rerank_settings_from(
        &j(r#"{"rerank.provider": "jina", "rerank.candidateCount": "12"}"#),
        &j(r#"{"rerank.apiKey": "k"}"#),
        &table,
    );
    assert_eq!(s.api_url, "https://api.jina.ai/v1/rerank");
    assert_eq!(s.model, "jina-reranker");
    assert_eq!(s.api_key, "k");
    assert_eq!(s.candidate_count, 12);
    let s = rerank_settings_from(&j(r#"{"rerank.candidateCount": "-3"}"#), &j("{}"), &table);
    assert_eq!(s.candidate_count, 30);
    assert_eq!(parse_usize("+7"), Some(7));
    assert_eq!(parse_usize("-0"), None);
}
