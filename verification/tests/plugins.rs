use zotron::json::Json;
use zotron::output::format_json;
use zotron::plugins::{
    error_source, fuzzy_suggestions, is_stale_link, plugin_skill_link, sync_report, levenshtein, manifest_for, plugin_binaries, sources_document,
    unknown_command_error, ManifestRun, PathEntry, BUILTIN_COMMANDS,
};

#[test]
fn levenshtein_basic_distances() {
    assert_eq!(levenshtein("", ""), 0);
    assert_eq!(levenshtein("ping", "ping"), 0);
    assert_eq!(levenshtein("pign", "ping"), 2);
    assert_eq!(levenshtein("serch", "search"), 1);
    assert_eq!(levenshtein("", "rag"), 3);
}

#[test]
fn fuzzy_suggests_close_builtins() {
    // One transposition away from "search".
    let hits = fuzzy_suggestions("serch", &BUILTIN_COMMANDS);
    assert!(hits.contains(&"search".to_string()), "got {hits:?}");
}

#[test]
fn fuzzy_suggests_nothing_for_distant_input() {
    // "scholar" is not close to any built-in — it's a real plugin name.
    assert!(fuzzy_suggestions("scholar", &BUILTIN_COMMANDS).is_empty());
}

#[test]
fn fuzzy_ranks_by_edit_distance() {
    let hits = fuzzy_suggestions("item", &BUILTIN_COMMANDS);
    assert_eq!(hits.first().map(String::as_str), Some("items"));
}

#[test]
fn unknown_command_error_includes_suggestion() {
    let msg = unknown_command_error("serch", "zotron-serch");
    assert!(msg.starts_with("UNKNOWN_COMMAND:"), "got {msg}");
    assert!(msg.contains("zotron-serch"), "got {msg}");
    assert!(msg.contains("Did you mean"), "got {msg}");
    assert!(msg.contains("search"), "got {msg}");
}

#[test]
fn unknown_command_error_omits_suggestion_when_none() {
    let msg = unknown_command_error("scholar", "zotron-scholar");
    assert!(msg.starts_with("UNKNOWN_COMMAND:"), "got {msg}");
    assert!(!msg.contains("Did you mean"), "got {msg}");
}

#[test]
fn unknown_command_error_exact_text() {
    assert_eq!(
        unknown_command_error("serch", "zotron-serch"),
        "UNKNOWN_COMMAND: unknown command 'serch'. No plugin 'zotron-serch' found on PATH. Did you mean: search."
    );
    assert_eq!(
        unknown_command_error("scholar", "zotron-scholar"),
        "UNKNOWN_COMMAND: unknown command 'scholar'. No plugin 'zotron-scholar' found on PATH."
    );
}

#[test]
fn fuzzy_ties_are_ordered_by_name() {
    // "rag" and "tags" and "ocr" ... both "tag" neighbours at distance 1.
    let hits = fuzzy_suggestions("tag", &["tags", "rag", "tab"]);
    assert_eq!(hits, vec!["rag".to_string(), "tab".to_string(), "tags".to_string()]);
    assert_eq!(levenshtein("kitten", "sitting"), 3);
    assert_eq!(levenshtein("数字", "数据"), 1);
}

fn entry(name: &str, is_file: bool) -> PathEntry {
    PathEntry { name: name.to_string(), is_file }
}

#[test]
fn plugin_scan_keeps_first_on_path_sorted_by_name() {
    let entries = vec![
        entry("zotron-web", true),
        entry("ls", true),
        entry("zotron-", true),
        entry("zotron-alpha", false),
        entry("zotron-scholar", true),
        entry("zotron-web", true),
        entry("zotron-alpha", true),
    ];
    let picked = plugin_binaries(&entries);
    assert_eq!(picked, vec![6, 4, 0]);
}

#[test]
fn plugin_scan_of_nothing_is_empty() {
    assert!(plugin_binaries(&Vec::new()).is_empty());
    assert!(plugin_binaries(&vec![entry("zotron", true), entry("zotron-", true)]).is_empty());
}

#[test]
fn manifest_success_fills_name_and_binary() {
    let run = ManifestRun {
        success: true,
        stdout: "  {\"version\": \"1.0\"}\n".to_string(),
        stderr: String::new(),
    };
    let m = manifest_for("scholar", "/usr/bin/zotron-scholar", Some(run));
    assert_eq!(m.get("name").and_then(|v| v.as_str()), Some("scholar"));
    assert_eq!(m.get("binary").and_then(|v| v.as_str()), Some("/usr/bin/zotron-scholar"));
    assert_eq!(m.get("version").and_then(|v| v.as_str()), Some("1.0"));
}

#[test]
fn manifest_keeps_its_own_name() {
    let run = ManifestRun {
        success: true,
        stdout: "{\"name\": \"Scholar\", \"binary\": \"x\"}".to_string(),
        stderr: String::new(),
    };
    let m = manifest_for("scholar", "/bin/zotron-scholar", Some(run));
    assert_eq!(m.get("name").and_then(|v| v.as_str()), Some("Scholar"));
    assert_eq!(m.get("binary").and_then(|v| v.as_str()), Some("/bin/zotron-scholar"));
}

#[test]
fn manifest_failure_and_timeout_are_reported() {
    let failed = ManifestRun { success: false, stdout: String::new(), stderr: " boom \n".to_string() };
    let m = manifest_for("web", "/bin/zotron-web", Some(failed));
    assert_eq!(m.get("status").and_then(|v| v.as_str()), Some("error"));
    assert_eq!(m.get("error").and_then(|v| v.as_str()), Some("manifest command failed: boom"));
    let t = manifest_for("web", "/bin/zotron-web", None);
    assert_eq!(t.get("error").and_then(|v| v.as_str()), Some("manifest command timed out (5s)"));
}

#[test]
fn manifest_invalid_json_is_reported() {
    let bad = ManifestRun { success: true, stdout: "not json".to_string(), stderr: String::new() };
    let m = manifest_for("web", "/bin/zotron-web", Some(bad));
    let err = m.get("error").and_then(|v| v.as_str()).unwrap_or("");
    assert!(err.starts_with("invalid manifest JSON: "), "got {err}");
    assert_eq!(m.get("name").and_then(|v| v.as_str()), Some("web"));
}

#[test]
fn error_source_has_four_fields() {
    let e = error_source("a", "/b", "c");
    let text = format_json(&e).unwrap();
    assert!(text.contains("\"status\": \"error\""), "got {text}");
    assert_eq!(e.get("binary").and_then(|v| v.as_str()), Some("/b"));
}

#[test]
fn sources_document_lists_plugins() {
    let d = sources_document(vec![error_source("a", "/b", "c")]);
    assert_eq!(d.get("sources").and_then(|v| v.as_array()).map(|a| a.len()), Some(1));
    let empty = sources_document(Vec::new());
    assert!(matches!(empty.get("sources"), Some(Json::Array(a)) if a.is_empty()));
}

#[test]
fn skill_link_needs_name_and_dir() {
    let with_dir = Json::obj(vec![
        ("name", Json::str("scholar")),
        ("skill_dir", Json::str("/opt/skills/scholar")),
    ]);
    assert_eq!(
        plugin_skill_link(&with_dir),
        Some(("scholar".to_string(), "/opt/skills/scholar".to_string()))
    );
    let without = Json::obj(vec![("name", Json::str("web")), ("skill_dir", Json::str(""))]);
    assert_eq!(plugin_skill_link(&without), None);
    assert_eq!(plugin_skill_link(&error_source("a", "/b", "c")), None);
}

#[test]
fn stale_links_are_foreign_and_outside() {
    let active = vec!["scholar".to_string()];
    assert!(!is_stale_link("scholar", &active, false));
    assert!(is_stale_link("web", &active, false));
    assert!(!is_stale_link("web", &active, true));
}

#[test]
fn sync_report_counts() {
    let r = sync_report(2, 1, "/x/skills");
    assert_eq!(r.get("linked").and_then(|v| v.as_u64()), Some(2));
    assert_eq!(r.get("cleaned").and_then(|v| v.as_u64()), Some(1));
    assert!(matches!(r.get("ok"), Some(Json::Bool(true))));
    assert_eq!(r.get("skills_dir").and_then(|v| v.as_str()), Some("/x/skills"));
}
