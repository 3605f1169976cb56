use zotron::ocr::base64_encode;
use zotron::output::{classify_error, EXIT_CALLER_ERROR, EXIT_RUNTIME_ERROR};
use zotron::plugins::{fuzzy_suggestions, levenshtein};
use zotron::web::sources::crossref::urlenc;

#[test]
fn edit_distance_is_symmetric_and_zero_only_for_equal_texts() {
    assert_eq!(levenshtein("kitten", "sitting"), levenshtein("sitting", "kitten"));
    assert_eq!(levenshtein("flaw", "lawn"), levenshtein("lawn", "flaw"));
    assert_eq!(levenshtein("same", "same"), 0);
    assert!(levenshtein("same", "sane") > 0);
}

#[test]
fn suggestions_are_close_and_closest_first() {
    let cands = ["search", "settings", "sources", "tags"];
    let hints = fuzzy_suggestions("serch", &cands);
    assert!(!hints.is_empty());
    let mut last = 0;
    for h in &hints {
        let d = levenshtein("serch", h);
        assert!(d >= last);
        assert!(d <= std::cmp::max(1, std::cmp::max("serch".len(), h.len()) / 3));
        last = d;
    }
}

#[test]
fn only_invalid_params_exit_two() {
    assert_eq!(classify_error("[-32602] x").1, EXIT_CALLER_ERROR);
    for m in ["[-32603] x", "[-32601] x", "BAD: x", "plain", "[-32602x] y"] {
        assert_eq!(classify_error(m).1, EXIT_RUNTIME_ERROR);
    }
}

#[test]
fn percent_encoding_uses_only_safe_characters() {
    let out = urlenc("ünï cødé/?&=#%\u{1F600}");
    assert!(out.chars().all(|c| c.is_ascii_alphanumeric() || "-_.~%".contains(c)));
}

#[test]
fn base64_length_is_four_per_started_triple() {
    for n in 0..10usize {
        let bytes = vec![7u8; n];
        assert_eq!(base64_encode(&bytes).len(), 4 * ((n + 2) / 3));
    }
}

/// Percent-decoding as the law states it, for checking on concrete values.
fn percent_decode(s: &str) -> Vec<u8> {
    let b = s.as_bytes();
    let mut out = Vec::new();
    let mut i = 0;
    while i < b.len() {
        if b[i] == b'%' && i + 2 < b.len() {
            out.push(u8::from_str_radix(std::str::from_utf8(&b[i + 1..i + 3]).unwrap(), 16).unwrap());
            i += 3;
        } else {
            out.push(b[i]);
            i += 1;
        }
    }
    out
}

#[test]
fn percent_encoding_round_trips_and_counts_three_per_escaped_byte() {
    let input = "a b/ü~";
    let out = urlenc(input);
    assert_eq!(percent_decode(&out), input.as_bytes());
    let kept = input.bytes().filter(|b| b.is_ascii_alphanumeric() || b"-_.~".contains(b)).count();
    assert_eq!(out.len(), kept + 3 * (input.len() - kept));
}

#[test]
fn base64_is_padded_alphabet_text_that_decodes_back() {
    for (bytes, text) in [(&b"M"[..], "TQ=="), (&b"Ma"[..], "TWE="), (&b"Man"[..], "TWFu"), (&[0xffu8, 0xfe, 0x00, 0x10][..], "//4AEA==")] {
        let out = base64_encode(bytes);
        assert_eq!(out, text);
        let pad = (3 - bytes.len() % 3) % 3;
        assert!(out.ends_with(&"=".repeat(pad)));
        assert!(out[..out.len() - pad].bytes().all(|c| c.is_ascii_alphanumeric() || c == b'+' || c == b'/'));
    }
}

#[test]
fn edit_distance_obeys_the_triangle_inequality() {
    let words = ["kitten", "sitting", "mitten", "", "sit", "kit"];
    for a in words {
        for b in words {
            for c in words {
                assert!(levenshtein(a, b) <= levenshtein(a, c) + levenshtein(c, b), "{a} {b} {c}");
            }
        }
    }
}
