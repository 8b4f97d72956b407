use rv_core::patterns::{extract_db_pattern, extract_scan_pattern, matches_pattern, matches_pattern_folded, PatternMatcher};

#[test]
fn scan_and_db_patterns() {
    assert_eq!(extract_scan_pattern("  IGNORE: *.bak "), Some("*.bak"));
    assert_eq!(extract_scan_pattern("*.bak"), None);
    assert_eq!(extract_scan_pattern("ign"), None);
    assert_eq!(extract_db_pattern(" *.bak "), Some("*.bak"));
    assert_eq!(extract_db_pattern("ignore:*.bak"), None);
}

#[test]
fn pattern_kinds() {
    assert!(matches_pattern("game.nfo", "*.nfo"));
    assert!(matches_pattern("a1c", "a?c"));
    assert!(!matches_pattern("game.nfo", "*.txt"));
    assert!(matches_pattern("exact.txt", " exact.txt "));
    assert!(!matches_pattern("Exact.txt", "exact.txt"));
    assert!(matches_pattern("README.MD", "regex: ^readme\\.md$"));
    assert!(!matches_pattern("x", "regex:   "));
    assert!(!matches_pattern("x", "regex:("));
}

#[test]
fn matcher_from_scan_patterns() {
    let patterns: Vec<String> = vec![
        "ignore:thumbs.db".into(),
        "ignore:*.tmp".into(),
        "ignore:regex:^~".into(),
        "*.nfo".into(),
    ];
    let m = PatternMatcher::from_scan_ignore_patterns(&patterns);
    assert!(m.is_match("thumbs.db"));
    assert!(m.is_match("x.tmp"));
    assert!(m.is_match("~lock"));
    assert!(!m.is_match("read.nfo"));
    assert!(!m.is_match("game.zip"));
}

#[test]
fn wildcard_matcher_takes_a_literal_star_first() {
    // The greedy matcher compares a `*` of the pattern with a `*` of the name
    // as an ordinary byte before it treats it as a wildcard, and never goes
    // back on that choice.
    assert!(!matches_pattern("*a", "*"));
    assert!(matches_pattern("xa", "*"));
    assert!(matches_pattern("*", "*"));
}

#[test]
fn scan_matcher_ignores_ascii_case() {
    let patterns: Vec<String> = vec!["ignore:Thumbs.DB".into(), "ignore:*.TMP".into(), "ignore:a?C".into()];
    let m = PatternMatcher::from_scan_ignore_patterns(&patterns);
    assert!(m.is_match("thumbs.db"));
    assert!(m.is_match("THUMBS.DB"));
    assert!(m.is_match("x.tmp"));
    assert!(m.is_match("X.Tmp"));
    assert!(m.is_match("abc"));
    assert!(!m.is_match("thumbs.dbx"));
}

#[test]
fn folded_match_lowers_both_sides_outside_regex() {
    assert!(matches_pattern_folded("Exact.TXT", "exact.txt"));
    assert!(matches_pattern_folded("GAME.NFO", "*.nfo"));
    assert!(!matches_pattern_folded("game.nfo", "*.txt"));
    assert!(matches_pattern_folded("README.MD", "regex: ^readme\\.md$"));
    assert!(!matches_pattern_folded("x", "regex:("));
}

#[test]
fn wildcards_match_as_globs_on_names_without_stars() {
    assert!(matches_pattern("abcbcd", "a*bcd"));
    assert!(matches_pattern("x", "*x*"));
    assert!(matches_pattern("xyz.bin", "*.b?n"));
    assert!(matches_pattern("", "**"));
    assert!(!matches_pattern("abc", "a*b"));
    assert!(!matches_pattern("ab", "a?b"));
}
