use text_anonymizer::preserve_case_pattern;
use text_anonymizer::AnonymizerConfig;

#[test]
fn preserve_case_all_caps_with_longer_replacement() {
    // Positions past the end of the match default to lowercase.
    assert_eq!(preserve_case_pattern("JOHN", "lucas"), "LUCAs");
}

#[test]
fn preserve_case_title_case() {
    assert_eq!(preserve_case_pattern("David", "lucas"), "Lucas");
}

#[test]
fn preserve_case_mixed_pattern() {
    assert_eq!(preserve_case_pattern("aBcD", "wxyz"), "wXyZ");
}

#[test]
fn preserve_case_non_alphabetic_positions_lowercase() {
    // A digit in the match is not uppercase, so the replacement character
    // at that offset is lowercased.
    assert_eq!(preserve_case_pattern("A1C", "XYZ"), "XyZ");
}

#[test]
fn preserve_case_empty_match_returns_replacement() {
    assert_eq!(preserve_case_pattern("", "AbC"), "AbC");
}

#[test]
fn preserve_case_empty_replacement() {
    assert_eq!(preserve_case_pattern("WORD", ""), "");
}

#[test]
fn default_config_shape() {
    let c = AnonymizerConfig::default();
    assert_eq!(c.config_name, "Default");
    assert!(!c.case_insensitive);
    assert!(c.whole_words_only);
    assert!(c.replacements.is_empty());
    assert_eq!(c.created_date, c.last_modified);
}

#[test]
fn preserve_case_handles_non_ascii_match_characters() {
    assert_eq!(preserve_case_pattern("\u{c9}", "a"), "A");
    assert_eq!(preserve_case_pattern("\u{e9}", "A"), "a");
}

#[test]
fn preserve_case_produces_non_ascii_case_forms() {
    assert_eq!(preserve_case_pattern("AB", "\u{e9}\u{e8}"), "\u{c9}\u{c8}");
    assert_eq!(preserve_case_pattern("ab", "\u{c9}\u{c8}"), "\u{e9}\u{e8}");
}
