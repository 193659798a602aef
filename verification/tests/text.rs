use overseer::pattern::escape;
use overseer::text::{normalize_ws, sanitize_snapshot_name};

#[test]
fn normalize_ws_collapses_and_trims() {
    assert_eq!(normalize_ws("  Kill \n a\tGulper  "), "Kill a Gulper");
    assert_eq!(normalize_ws(""), "");
    assert_eq!(normalize_ws(" \u{a0} "), "");
    assert_eq!(normalize_ws(&normalize_ws(" a  b ")), normalize_ws(" a  b "));
}

#[test]
fn snapshot_names_are_path_safe() {
    assert_eq!(
        sanitize_snapshot_name("2026-09-24T17:00:00+00:00"),
        "2026-09-24T17-00-00-00-00"
    );
    assert_eq!(sanitize_snapshot_name("a/b\\c d"), "a-b-c-d");
    assert_eq!(sanitize_snapshot_name("plain"), "plain");
}

#[test]
fn escape_quotes_pattern_characters() {
    assert_eq!(escape("End"), "End");
    assert_eq!(escape("a.b*c"), "a\\.b\\*c");
    assert_eq!(escape("(x)"), "\\(x\\)");
}

#[test]
fn normalized_text_is_single_spaced_words() {
    let input = "\u{2003} Treasure\u{a0}\u{a0}Hunter \r\n Double  Mutations \t";
    let out = normalize_ws(input);
    assert_eq!(out, "Treasure Hunter Double Mutations");
    assert!(!out.starts_with(' ') && !out.ends_with(' '));
    assert!(!out.contains("  "));
    assert!(out.chars().all(|c| !c.is_whitespace() || c == ' '));
    let words: Vec<&str> = input.split_whitespace().collect();
    assert_eq!(out.split(' ').collect::<Vec<_>>(), words);
    assert_eq!(normalize_ws("\t\u{3000}\n"), "");
}
