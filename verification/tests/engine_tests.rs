use text_anonymizer::{anonymize_text, deanonymize_text, AnonymizerConfig, ReplacementRule};

fn cfg(rules: &[(&str, &str)], ci: bool, ww: bool) -> AnonymizerConfig {
    AnonymizerConfig {
        config_name: String::from("Test"),
        case_insensitive: ci,
        whole_words_only: ww,
        replacements: rules
            .iter()
            .map(|(o, r)| ReplacementRule {
                original: String::from(*o),
                replacement: String::from(*r),
            })
            .collect(),
        created_date: String::from("2024-01-01"),
        last_modified: String::from("2024-01-01"),
    }
}

#[test]
fn empty_input_fails_forward() {
    let r = anonymize_text(String::new(), cfg(&[("a", "b")], false, false));
    assert!(!r.success);
    assert!(r.text.is_none());
    assert_eq!(r.message, "Please enter text to anonymize.");
}

#[test]
fn empty_input_fails_inverse() {
    let r = deanonymize_text(String::new(), cfg(&[("a", "b")], true, true));
    assert!(!r.success);
    assert!(r.text.is_none());
    assert_eq!(r.message, "Please enter text to de-anonymize.");
}

#[test]
fn empty_ruleset_is_identity() {
    for &(ci, ww) in &[(false, false), (false, true), (true, false), (true, true)] {
        let r = anonymize_text(String::from("hello world"), cfg(&[], ci, ww));
        assert!(r.success);
        assert_eq!(r.text.as_deref(), Some("hello world"));
        assert_eq!(r.message, "Text anonymized successfully! \u{1F512}");
    }
}

#[test]
fn plain_replacement_all_occurrences() {
    let r = anonymize_text(
        String::from("john met john and JOHN"),
        cfg(&[("john", "x")], false, false),
    );
    assert!(r.success);
    assert_eq!(r.text.as_deref(), Some("x met x and JOHN"));
}

#[test]
fn whole_word_boundary() {
    let r = anonymize_text(
        String::from("concatenate the cat"),
        cfg(&[("cat", "dog")], false, true),
    );
    assert!(r.success);
    assert_eq!(r.text.as_deref(), Some("concatenate the dog"));
}

#[test]
fn whole_word_underscore_counts_as_word_character() {
    let r = anonymize_text(
        String::from("cat_food and cat"),
        cfg(&[("cat", "dog")], false, true),
    );
    assert!(r.success);
    assert_eq!(r.text.as_deref(), Some("cat_food and dog"));
}

#[test]
fn whole_word_target_with_non_word_edge() {
    let r = anonymize_text(String::from("b.a"), cfg(&[(".a", "Z")], false, true));
    assert!(r.success);
    assert_eq!(r.text.as_deref(), Some("bZ"));
}

#[test]
fn case_preservation_all_caps() {
    let r = anonymize_text(
        String::from("DAVID said hi"),
        cfg(&[("david", "lucas")], true, false),
    );
    assert!(r.success);
    assert_eq!(r.text.as_deref(), Some("LUCAS said hi"));
}

#[test]
fn case_preservation_title_case() {
    let r = anonymize_text(
        String::from("David said hi"),
        cfg(&[("david", "lucas")], true, false),
    );
    assert!(r.success);
    assert_eq!(r.text.as_deref(), Some("Lucas said hi"));
}

#[test]
fn case_insensitive_and_whole_words_compose() {
    let r = anonymize_text(
        String::from("Cat concatenate CAT"),
        cfg(&[("cat", "dog")], true, true),
    );
    assert!(r.success);
    assert_eq!(r.text.as_deref(), Some("Dog concatenate DOG"));
}

#[test]
fn order_dependence_chains_rules() {
    let rules = [("a", "b"), ("b", "c")];
    let f = anonymize_text(String::from("a"), cfg(&rules, false, false));
    assert!(f.success);
    assert_eq!(f.text.as_deref(), Some("c"));
    let b = deanonymize_text(String::from("c"), cfg(&rules, false, false));
    assert!(b.success);
    assert_eq!(b.text.as_deref(), Some("a"));
}

#[test]
fn no_match_is_a_no_op() {
    let r = anonymize_text(
        String::from("hello world"),
        cfg(&[("zebra", "x")], false, false),
    );
    assert!(r.success);
    assert_eq!(r.text.as_deref(), Some("hello world"));
}

#[test]
fn round_trip_restores_text() {
    let c = cfg(&[("john", "X1"), ("acme", "Q2")], false, false);
    let original = String::from("john works at acme; acme pays john");
    let f = anonymize_text(original.clone(), c.clone());
    assert!(f.success);
    let masked = f.text.unwrap();
    assert_eq!(masked, "X1 works at Q2; Q2 pays X1");
    let b = deanonymize_text(masked, c);
    assert!(b.success);
    assert_eq!(b.text.as_deref(), Some(original.as_str()));
}

#[test]
fn empty_search_target_is_rejected_forward() {
    let r = anonymize_text(String::from("abc"), cfg(&[("", "x")], false, false));
    assert!(!r.success);
    assert!(r.text.is_none());
    assert_eq!(r.message, "A replacement rule has an empty search target.");
}

#[test]
fn empty_replacement_is_rejected_inverse() {
    let r = deanonymize_text(String::from("abc"), cfg(&[("a", "")], false, false));
    assert!(!r.success);
    assert!(r.text.is_none());
    assert_eq!(r.message, "A replacement rule has an empty search target.");
}

#[test]
fn empty_replacement_is_allowed_forward() {
    let r = anonymize_text(String::from("say nothing"), cfg(&[("nothing", "")], false, false));
    assert!(r.success);
    assert_eq!(r.text.as_deref(), Some("say "));
}

#[test]
fn metacharacters_are_literal() {
    let r = anonymize_text(String::from("a.b aXb"), cfg(&[("a.b", "x")], false, false));
    assert!(r.success);
    assert_eq!(r.text.as_deref(), Some("x aXb"));
}

#[test]
fn inverse_direction_runs_in_reverse_order() {
    // Forward, "ab" wins before "b"; inverse must undo "b" first.
    let rules = [("ab", "X"), ("b", "Y")];
    let f = anonymize_text(String::from("ab b"), cfg(&rules, false, false));
    assert!(f.success);
    assert_eq!(f.text.as_deref(), Some("X Y"));
    let b = deanonymize_text(String::from("X Y"), cfg(&rules, false, false));
    assert!(b.success);
    assert_eq!(b.text.as_deref(), Some("ab b"));
}

#[test]
fn replacement_scan_does_not_rescan_output() {
    // The pass resumes after each replacement instead of rescanning it.
    let r = anonymize_text(String::from("aa"), cfg(&[("a", "aa")], false, false));
    assert!(r.success);
    assert_eq!(r.text.as_deref(), Some("aaaa"));
}

#[test]
fn whole_word_round_trip_with_word_character_replacement() {
    let c = cfg(&[("cat", "zq")], false, true);
    let f = anonymize_text(String::from("a cat"), c.clone());
    assert_eq!(f.text.as_deref(), Some("a zq"));
    let b = deanonymize_text(String::from("a zq"), c);
    assert_eq!(b.text.as_deref(), Some("a cat"));
}

#[test]
fn whole_word_round_trip_can_fail_on_non_word_replacement_edge() {
    // The inserted replacement ends in a non-word character, so the
    // inverse pass finds no whole-word occurrence of it to undo.
    let c = cfg(&[("cat", "x.")], false, true);
    let f = anonymize_text(String::from("a cat"), c.clone());
    assert_eq!(f.text.as_deref(), Some("a x."));
    let b = deanonymize_text(String::from("a x."), c);
    assert_eq!(b.text.as_deref(), Some("a x."));
}

#[test]
fn non_ascii_text_is_matched_literally() {
    let r = anonymize_text(String::from("caf\u{e9} bar"), cfg(&[("caf\u{e9}", "shop")], false, false));
    assert!(r.success);
    assert_eq!(r.text.as_deref(), Some("shop bar"));
}

#[test]
fn case_insensitive_match_folds_non_ascii() {
    let r = anonymize_text(
        String::from("JOS\u{c9} said hi"),
        cfg(&[("jos\u{e9}", "name1")], true, false),
    );
    assert!(r.success);
    assert_eq!(r.text.as_deref(), Some("NAME1 said hi"));
}

#[test]
fn whole_word_boundary_is_unicode_aware() {
    // An accented letter is alphanumeric, so no boundary follows "cat".
    let c = cfg(&[("cat", "dog")], false, true);
    let inside = anonymize_text(String::from("cat\u{e9}"), c.clone());
    assert_eq!(inside.text.as_deref(), Some("cat\u{e9}"));
    let apart = anonymize_text(String::from("cat \u{e9}"), c);
    assert_eq!(apart.text.as_deref(), Some("dog \u{e9}"));
}
