//! The substitution engine: an ordered rule list applied pass by pass.
//!
//! Each rule performs one replacement pass over the cumulative output of
//! the passes before it, so a later rule sees what earlier rules
//! produced. The forward direction searches for each rule's `original`
//! and substitutes its `replacement`; the inverse direction walks the
//! list backwards with the roles swapped. An empty text is rejected as a
//! usage error, and a rule whose search target is empty is rejected as a
//! validation error; in both cases the whole call fails with no partial
//! output.

use vstd::prelude::*;
use vstd::string::StringExecFns;

use crate::matching::{rewrite, rewrite_exec};
use crate::rules::{AnonymizationResult, AnonymizerConfig, ReplacementRule};
use crate::text::{chars_to_string, str_to_chars};

verus! {

/// The rule list as the forward direction traverses it: search targets
/// are the `original` fields, substitution values the `replacement`
/// fields, in list order.
pub open spec fn forward_pairs(rules: Seq<ReplacementRule>) -> Seq<(Seq<char>, Seq<char>)> {
    Seq::new(rules.len(), |k: int| (rules[k].original@, rules[k].replacement@))
}

/// The rule list as the inverse direction traverses it: reverse list
/// order, with each rule's `replacement` as the search target and its
/// `original` as the substitution value.
pub open spec fn inverse_pairs(rules: Seq<ReplacementRule>) -> Seq<(Seq<char>, Seq<char>)> {
    Seq::new(
        rules.len(),
        |k: int|
            (
                rules[rules.len() - 1 - k].replacement@,
                rules[rules.len() - 1 - k].original@,
            ),
    )
}

/// Every search target in the traversal is non-empty.
pub open spec fn targets_nonempty(pairs: Seq<(Seq<char>, Seq<char>)>) -> bool {
    forall|k: int| 0 <= k < pairs.len() ==> #[trigger] pairs[k].0.len() > 0
}

/// The engine's result on a text: one replacement pass per pair, in
/// order, each pass working on the output of the passes before it.
pub open spec fn apply_rules(
    text: Seq<char>,
    pairs: Seq<(Seq<char>, Seq<char>)>,
    ci: bool,
    ww: bool,
) -> Seq<char>
    decreases pairs.len(),
{
    if pairs.len() == 0 {
        text
    } else {
        apply_rules(rewrite(text, pairs[0].0, pairs[0].1, ci, ww), pairs.drop_first(), ci, ww)
    }
}

/// Applying one more rule after a list of rules is one more pass over
/// the list's output.
pub proof fn lemma_apply_rules_push(
    text: Seq<char>,
    pairs: Seq<(Seq<char>, Seq<char>)>,
    pr: (Seq<char>, Seq<char>),
    ci: bool,
    ww: bool,
)
    ensures
        apply_rules(text, pairs.push(pr), ci, ww) == rewrite(
            apply_rules(text, pairs, ci, ww),
            pr.0,
            pr.1,
            ci,
            ww,
        ),
    decreases pairs.len(),
{
    let s = pairs.push(pr);
    assert(s.len() > 0);
    assert(apply_rules(text, s, ci, ww) == apply_rules(
        rewrite(text, s[0].0, s[0].1, ci, ww),
        s.drop_first(),
        ci,
        ww,
    ));
    if pairs.len() == 0 {
        assert(s[0] == pr);
        assert(s.drop_first() =~= Seq::<(Seq<char>, Seq<char>)>::empty());
        assert(apply_rules(rewrite(text, pr.0, pr.1, ci, ww), s.drop_first(), ci, ww) == rewrite(
            text,
            pr.0,
            pr.1,
            ci,
            ww,
        ));
        assert(apply_rules(text, pairs, ci, ww) == text);
    } else {
        assert(s[0] == pairs[0]);
        assert(s.drop_first() =~= pairs.drop_first().push(pr));
        lemma_apply_rules_push(
            rewrite(text, pairs[0].0, pairs[0].1, ci, ww),
            pairs.drop_first(),
            pr,
            ci,
            ww,
        );
        assert(apply_rules(text, pairs, ci, ww) == apply_rules(
            rewrite(text, pairs[0].0, pairs[0].1, ci, ww),
            pairs.drop_first(),
            ci,
            ww,
        ));
    }
}

/// The forward direction: every rule's `original` is replaced by its
/// `replacement`, rule after rule in list order. An empty text, or an
/// empty `original` in the list, fails the whole call with no text.
pub fn anonymize_text(text: String, config: AnonymizerConfig) -> (r: AnonymizationResult)
    ensures
        r.success <==> text@.len() > 0 && targets_nonempty(forward_pairs(config.replacements@)),
        !r.success ==> r.text is None,
        r.success ==> r.text is Some,
        r.success ==> r.text->0@ == apply_rules(
            text@,
            forward_pairs(config.replacements@),
            config.case_insensitive,
            config.whole_words_only,
        ),
        text@.len() == 0 ==> r.message@ == "Please enter text to anonymize."@,
        text@.len() > 0 && !targets_nonempty(forward_pairs(config.replacements@))
            ==> r.message@ == "A replacement rule has an empty search target."@,
        r.success ==> r.message@ == "Text anonymized successfully! \u{1F512}"@,
{
    if text.as_str().unicode_len() == 0 {
        return AnonymizationResult {
            success: false,
            message: String::from_str("Please enter text to anonymize."),
            text: None,
        };
    }
    let ghost pairs = forward_pairs(config.replacements@);
    let mut cur = str_to_chars(text.as_str());
    let n = config.replacements.len();
    let mut idx: usize = 0;
    while idx < n
        invariant
            text@.len() > 0,
            n == config.replacements@.len(),
            idx <= n,
            pairs == forward_pairs(config.replacements@),
            targets_nonempty(pairs.take(idx as int)),
            cur@ == apply_rules(
                text@,
                pairs.take(idx as int),
                config.case_insensitive,
                config.whole_words_only,
            ),
        decreases n - idx,
    {
        let rule = &config.replacements[idx];
        let target = str_to_chars(rule.original.as_str());
        if target.len() == 0 {
            proof {
                assert(pairs[idx as int].0.len() == 0);
            }
            return AnonymizationResult {
                success: false,
                message: String::from_str("A replacement rule has an empty search target."),
                text: None,
            };
        }
        let subst = str_to_chars(rule.replacement.as_str());
        let next = rewrite_exec(&cur, &target, &subst, config.case_insensitive, config.whole_words_only);
        proof {
            lemma_apply_rules_push(
                text@,
                pairs.take(idx as int),
                pairs[idx as int],
                config.case_insensitive,
                config.whole_words_only,
            );
            assert(pairs.take(idx as int).push(pairs[idx as int]) =~= pairs.take(idx + 1));
        }
        cur = next;
        idx = idx + 1;
    }
    proof {
        assert(pairs.take(n as int) =~= pairs);
    }
    let out = chars_to_string(&cur);
    AnonymizationResult {
        success: true,
        message: String::from_str("Text anonymized successfully! \u{1F512}"),
        text: Some(out),
    }
}

/// The inverse direction: the rule list is walked in reverse order, each
/// rule's `replacement` searched for and its `original` substituted
/// back. An empty text, or an empty `replacement` in the list, fails the
/// whole call with no text.
pub fn deanonymize_text(text: String, config: AnonymizerConfig) -> (r: AnonymizationResult)
    ensures
        r.success <==> text@.len() > 0 && targets_nonempty(inverse_pairs(config.replacements@)),
        !r.success ==> r.text is None,
        r.success ==> r.text is Some,
        r.success ==> r.text->0@ == apply_rules(
            text@,
            inverse_pairs(config.replacements@),
            config.case_insensitive,
            config.whole_words_only,
        ),
        text@.len() == 0 ==> r.message@ == "Please enter text to de-anonymize."@,
        text@.len() > 0 && !targets_nonempty(inverse_pairs(config.replacements@))
            ==> r.message@ == "A replacement rule has an empty search target."@,
        r.success ==> r.message@ == "Text de-anonymized successfully! \u{1F513}"@,
{
    if text.as_str().unicode_len() == 0 {
        return AnonymizationResult {
            success: false,
            message: String::from_str("Please enter text to de-anonymize."),
            text: None,
        };
    }
    let ghost pairs = inverse_pairs(config.replacements@);
    let mut cur = str_to_chars(text.as_str());
    let n = config.replacements.len();
    let mut idx: usize = 0;
    while idx < n
        invariant
            text@.len() > 0,
            n == config.replacements@.len(),
            idx <= n,
            pairs == inverse_pairs(config.replacements@),
            targets_nonempty(pairs.take(idx as int)),
            cur@ == apply_rules(
                text@,
                pairs.take(idx as int),
                config.case_insensitive,
                config.whole_words_only,
            ),
        decreases n - idx,
    {
        let rule = &config.replacements[n - 1 - idx];
        let target = str_to_chars(rule.replacement.as_str());
        if target.len() == 0 {
            proof {
                assert(pairs[idx as int].0.len() == 0);
            }
            return AnonymizationResult {
                success: false,
                message: String::from_str("A replacement rule has an empty search target."),
                text: None,
            };
        }
        let subst = str_to_chars(rule.original.as_str());
        let next = rewrite_exec(&cur, &target, &subst, config.case_insensitive, config.whole_words_only);
        proof {
            lemma_apply_rules_push(
                text@,
                pairs.take(idx as int),
                pairs[idx as int],
                config.case_insensitive,
                config.whole_words_only,
            );
            assert(pairs.take(idx as int).push(pairs[idx as int]) =~= pairs.take(idx + 1));
        }
        cur = next;
        idx = idx + 1;
    }
    proof {
        assert(pairs.take(n as int) =~= pairs);
    }
    let out = chars_to_string(&cur);
    AnonymizationResult {
        success: true,
        message: String::from_str("Text de-anonymized successfully! \u{1F513}"),
        text: Some(out),
    }
}

} // verus!
