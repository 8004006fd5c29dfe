use vigil_echo::parser::{
    count_h3_under_section, extract_entries, extract_section_text, hash_content, tokenize,
    type_token_ratio,
};

#[test]
fn counts_h3_under_section() {
    let content = "## Active\n\n### One\nText\n\n### Two\nMore\n\n## Graduated\n\n### Old\n";
    assert_eq!(count_h3_under_section(content, "Active"), 2);
    assert_eq!(count_h3_under_section(content, "Graduated"), 1);
}

#[test]
fn tokenizes_text() {
    let tokens = tokenize("Hello, world! This is a test.");
    assert!(tokens.contains(&"hello".to_string()));
    assert!(tokens.contains(&"world".to_string()));
    assert!(tokens.contains(&"test".to_string()));
    // Single-char words filtered
    assert!(!tokens.contains(&"a".to_string()));
}

#[test]
fn computes_ttr() {
    // All unique words, in millionths
    let ttr = type_token_ratio("one two three four five").unwrap();
    assert!((ttr as f64 / 1e6 - 1.0).abs() < 0.01);

    // Repeated words
    let ttr = type_token_ratio("the the the cat cat").unwrap();
    assert!(ttr < 1_000_000);
    assert!(ttr > 0);

    // Empty
    assert!(type_token_ratio("").is_none());
}

#[test]
fn extracts_entries() {
    let content = "## Observations\n\n### First\nSome observation about D said something.\n\n### Second\nAnother one from 2026-02-27.\n\n## Unrelated\n\n### Skip\n";
    let entries = extract_entries(content, &["observations"]);
    assert_eq!(entries.len(), 2);
    assert_eq!(entries[0].0, "First");
    assert!(entries[0].1.contains("D said"));
}

#[test]
fn tokenize_keeps_apostrophes_and_lowercases() {
    let tokens = tokenize("Don't STOP-now x é");
    assert_eq!(tokens, vec!["don't", "stop", "now", "é"]);
}

#[test]
fn tokenize_empty_text() {
    assert!(tokenize("").is_empty());
    assert!(tokenize("a b c !!").is_empty());
}

#[test]
fn type_token_ratio_exact_value() {
    // 2 distinct of 5 words
    assert_eq!(type_token_ratio("the the the cat cat"), Some(400_000));
    // 2 distinct of 3, rounded down
    assert_eq!(type_token_ratio("Cat cat dog"), Some(666_666));
}

#[test]
fn count_h3_matches_ignoring_case_and_substrings() {
    let content = "## open questions\n### A\n## Still Open\n### B\n### C\n## Closed\n### D\n";
    assert_eq!(count_h3_under_section(content, "Open Questions"), 1);
    assert_eq!(count_h3_under_section(content, "Open"), 3);
    assert_eq!(count_h3_under_section(content, "Missing"), 0);
    assert_eq!(count_h3_under_section("", "Open"), 0);
}

#[test]
fn count_h3_handles_crlf_lines() {
    let content = "## Active\r\n### One\r\n### Two\r\n## Done\r\n### Three\r\n";
    assert_eq!(count_h3_under_section(content, "Active"), 2);
}

#[test]
fn section_text_collects_prose() {
    let content = "## Patterns\n\n### Title\nLine one\n   \nLine two\n## Other\nIgnored\n";
    assert_eq!(extract_section_text(content, &["patterns"]), "Line one Line two ");
    assert_eq!(extract_section_text(content, &["missing"]), "");
}

#[test]
fn entries_keep_titles_trimmed_and_bodies_joined() {
    let content = "## Lessons\n###   Spaced title  \nfirst\nsecond\n### Empty\n## Patterns\n### Next\nbody\n";
    let entries = extract_entries(content, &["lessons", "patterns"]);
    assert_eq!(entries.len(), 3);
    assert_eq!(entries[0], ("Spaced title".to_string(), "first second ".to_string()));
    assert_eq!(entries[1], ("Empty".to_string(), String::new()));
    assert_eq!(entries[2], ("Next".to_string(), "body ".to_string()));
}

#[test]
fn hash_content_is_djb2_hex() {
    assert_eq!(hash_content(""), "0000000000001505");
    // 5381 * 33 + 97 = 177670
    assert_eq!(hash_content("a"), "000000000002b606");
    assert_eq!(hash_content("abc").len(), 16);
    assert_ne!(hash_content("abc"), hash_content("abd"));
}
