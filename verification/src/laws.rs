//! The engine's laws, stated over the specification functions that the
//! public contracts use and proved once for all inputs.

use vstd::prelude::*;

use crate::engine::{apply_rules, forward_pairs, inverse_pairs, lemma_apply_rules_push};
use crate::matching::{boundary_at, chars_equal, is_word_char, match_at, match_ok, replacement_for, rewrite, rewrite_from, word_at};
use crate::rules::ReplacementRule;

verus! {

/// The character `c` occurs somewhere in `s`.
pub open spec fn occurs_char(s: Seq<char>, c: char) -> bool {
    exists|i: int| 0 <= i < s.len() && s[i] == c
}

/// No character of `a` equals a character of `b`.
pub open spec fn disjoint_chars(a: Seq<char>, b: Seq<char>) -> bool {
    forall|i: int, j: int| 0 <= i < a.len() && 0 <= j < b.len() ==> a[i] != b[j]
}

/// Every character of `s` occurs in `a` or in `b`.
pub open spec fn chars_from(s: Seq<char>, a: Seq<char>, b: Seq<char>) -> bool {
    forall|i: int| 0 <= i < s.len() ==> occurs_char(a, #[trigger] s[i]) || occurs_char(b, s[i])
}

/// An empty rule list is the identity transform.
pub proof fn lemma_identity_empty_rules(text: Seq<char>, ci: bool, ww: bool)
    ensures
        apply_rules(text, Seq::<(Seq<char>, Seq<char>)>::empty(), ci, ww) == text,
{
}

/// A pass whose target matches at no position of the text leaves the
/// text unchanged from `p` on.
proof fn lemma_no_match_no_op_from(
    text: Seq<char>,
    target: Seq<char>,
    subst: Seq<char>,
    ci: bool,
    ww: bool,
    p: int,
)
    requires
        0 <= p <= text.len(),
        target.len() > 0,
        forall|q: int| !match_ok(text, target, q, ci, ww),
    ensures
        rewrite_from(text, target, subst, ci, ww, p) == text.subrange(p, text.len() as int),
    decreases text.len() - p,
{
    if p >= text.len() {
        assert(text.subrange(p, text.len() as int) =~= Seq::<char>::empty());
    } else {
        assert(!match_ok(text, target, p, ci, ww));
        lemma_no_match_no_op_from(text, target, subst, ci, ww, p + 1);
        assert(seq![text[p]] + text.subrange(p + 1, text.len() as int) =~= text.subrange(
            p,
            text.len() as int,
        ));
    }
}

/// A rule whose search target occurs nowhere in the text (under the
/// active matching mode) is a no-op for that rule's pass.
pub proof fn lemma_no_match_no_op(
    text: Seq<char>,
    target: Seq<char>,
    subst: Seq<char>,
    ci: bool,
    ww: bool,
)
    requires
        target.len() > 0,
        forall|q: int| !match_ok(text, target, q, ci, ww),
    ensures
        rewrite(text, target, subst, ci, ww) == text,
{
    lemma_no_match_no_op_from(text, target, subst, ci, ww, 0);
    assert(text.subrange(0, text.len() as int) =~= text);
}

/// A configuration none of whose rules matches anywhere in the text
/// leaves it exactly as it was: with every search target non-empty and
/// matching at no position under the active mode, the engine's result
/// is the input text. Together with the engine contracts, such a call
/// succeeds and returns the text unchanged.
pub proof fn lemma_no_rules_match_identity(
    text: Seq<char>,
    pairs: Seq<(Seq<char>, Seq<char>)>,
    ci: bool,
    ww: bool,
)
    requires
        forall|k: int| 0 <= k < pairs.len() ==> (#[trigger] pairs[k]).0.len() > 0,
        forall|k: int, q: int|
            0 <= k < pairs.len() ==> !(#[trigger] match_ok(text, pairs[k].0, q, ci, ww)),
    ensures
        apply_rules(text, pairs, ci, ww) == text,
    decreases pairs.len(),
{
    if pairs.len() > 0 {
        assert forall|q: int| !match_ok(text, pairs[0].0, q, ci, ww) by {}
        lemma_no_match_no_op(text, pairs[0].0, pairs[0].1, ci, ww);
        let rest = pairs.drop_first();
        assert forall|k: int| 0 <= k < rest.len() implies (#[trigger] rest[k]).0.len() > 0 by {
            assert(rest[k] == pairs[k + 1]);
        }
        assert forall|k: int, q: int|
            0 <= k < rest.len() implies !(#[trigger] match_ok(text, rest[k].0, q, ci, ww)) by {
            assert(rest[k] == pairs[k + 1]);
            assert(!match_ok(text, pairs[k + 1].0, q, ci, ww));
        }
        lemma_no_rules_match_identity(text, rest, ci, ww);
        assert(apply_rules(text, pairs, ci, ww) == apply_rules(
            rewrite(text, pairs[0].0, pairs[0].1, ci, ww),
            rest,
            ci,
            ww,
        ));
    }
}

/// Without the whole-word constraint a pass from position `p` is the
/// same as a whole pass over the text from `p` on: matching looks at no
/// context outside the candidate positions.
proof fn lemma_rewrite_shift(
    text: Seq<char>,
    target: Seq<char>,
    subst: Seq<char>,
    ci: bool,
    p: int,
)
    requires
        0 <= p <= text.len(),
        target.len() > 0,
    ensures
        rewrite_from(text, target, subst, ci, false, p) == rewrite(
            text.subrange(p, text.len() as int),
            target,
            subst,
            ci,
            false,
        ),
    decreases text.len() - p,
{
    let suf = text.subrange(p, text.len() as int);
    if p >= text.len() {
        assert(suf.len() == 0);
    } else {
        assert(forall|j: int| 0 <= j < suf.len() ==> suf[j] == text[p + j]);
        if match_at(text, target, p, ci) {
            assert(match_at(suf, target, 0, ci));
            let t = target.len() as int;
            lemma_rewrite_shift(text, target, subst, ci, p + t);
            lemma_rewrite_shift(suf, target, subst, ci, t);
            assert(text.subrange(p, p + t) =~= suf.subrange(0, t));
            assert(text.subrange(p + t, text.len() as int) =~= suf.subrange(t, suf.len() as int));
            assert(rewrite_from(suf, target, subst, ci, false, 0) == replacement_for(
                suf.subrange(0, t),
                subst,
                ci,
            ) + rewrite_from(suf, target, subst, ci, false, t));
        } else {
            assert(!match_at(suf, target, 0, ci)) by {
                if match_at(suf, target, 0, ci) {
                    assert(forall|j: int|
                        0 <= j < target.len() ==> chars_equal(text[p + j], target[j], ci));
                }
            }
            lemma_rewrite_shift(text, target, subst, ci, p + 1);
            lemma_rewrite_shift(suf, target, subst, ci, 1);
            assert(text.subrange(p + 1, text.len() as int) =~= suf.subrange(1, suf.len() as int));
            assert(rewrite_from(suf, target, subst, ci, false, 0) == seq![suf[0]] + rewrite_from(
                suf,
                target,
                subst,
                ci,
                false,
                1,
            ));
            assert(suf[0] == text[p]);
        }
    }
}

/// Every character of a case-sensitive pass's output from `p` on comes
/// from the text or from the substitution value.
proof fn lemma_rewrite_chars_from(
    text: Seq<char>,
    target: Seq<char>,
    subst: Seq<char>,
    ww: bool,
    p: int,
)
    requires
        0 <= p <= text.len(),
        target.len() > 0,
    ensures
        chars_from(rewrite_from(text, target, subst, false, ww, p), text, subst),
    decreases text.len() - p,
{
    let out = rewrite_from(text, target, subst, false, ww, p);
    if p >= text.len() {
    } else if match_ok(text, target, p, false, ww) {
        let t = target.len() as int;
        lemma_rewrite_chars_from(text, target, subst, ww, p + t);
        let rest = rewrite_from(text, target, subst, false, ww, p + t);
        assert(out == subst + rest);
        assert forall|i: int| 0 <= i < out.len() implies occurs_char(text, #[trigger] out[i])
            || occurs_char(subst, out[i]) by {
            if i < subst.len() {
                assert(out[i] == subst[i]);
            } else {
                assert(out[i] == rest[i - subst.len()]);
            }
        }
    } else {
        lemma_rewrite_chars_from(text, target, subst, ww, p + 1);
        let rest = rewrite_from(text, target, subst, false, ww, p + 1);
        assert(out == seq![text[p]] + rest);
        assert forall|i: int| 0 <= i < out.len() implies occurs_char(text, #[trigger] out[i])
            || occurs_char(subst, out[i]) by {
            if i == 0 {
                assert(out[0] == text[p]);
            } else {
                assert(out[i] == rest[i - 1]);
            }
        }
    }
}

/// If every character of `s` comes from `a` or `b`, and neither shares
/// a character with `c`, then `s` shares no character with `c`.
proof fn lemma_disjoint_transfer(s: Seq<char>, a: Seq<char>, b: Seq<char>, c: Seq<char>)
    requires
        chars_from(s, a, b),
        disjoint_chars(a, c),
        disjoint_chars(b, c),
    ensures
        disjoint_chars(s, c),
{
    assert forall|i: int, j: int| 0 <= i < s.len() && 0 <= j < c.len() implies s[i] != c[j] by {
        assert(occurs_char(a, s[i]) || occurs_char(b, s[i]));
    }
}

/// One case-sensitive pass, inverted: replacing the target by a fresh
/// substitution value and then the substitution value by the target
/// restores the text from `p` on, whether or not the forward pass was
/// constrained to whole words. Freshness means that no character of the
/// substitution value occurs in the text.
proof fn lemma_rewrite_round_trip_from(
    text: Seq<char>,
    target: Seq<char>,
    subst: Seq<char>,
    fw: bool,
    p: int,
)
    requires
        0 <= p <= text.len(),
        target.len() > 0,
        subst.len() > 0,
        disjoint_chars(text, subst),
    ensures
        rewrite(rewrite_from(text, target, subst, false, fw, p), subst, target, false, false)
            == text.subrange(p, text.len() as int),
    decreases text.len() - p,
{
    let fwd = rewrite_from(text, target, subst, false, fw, p);
    if p >= text.len() {
        assert(fwd.len() == 0);
        assert(text.subrange(p, text.len() as int) =~= Seq::<char>::empty());
    } else if match_ok(text, target, p, false, fw) {
        let t = target.len() as int;
        let rest = rewrite_from(text, target, subst, false, fw, p + t);
        assert(fwd == subst + rest);
        assert(match_at(fwd, subst, 0, false)) by {
            assert(forall|j: int| 0 <= j < subst.len() ==> fwd[j] == subst[j]);
        }
        assert(rewrite_from(fwd, subst, target, false, false, 0) == target + rewrite_from(
            fwd,
            subst,
            target,
            false,
            false,
            subst.len() as int,
        ));
        lemma_rewrite_shift(fwd, subst, target, false, subst.len() as int);
        assert(fwd.subrange(subst.len() as int, fwd.len() as int) =~= rest);
        lemma_rewrite_round_trip_from(text, target, subst, fw, p + t);
        assert(rewrite_from(text, target, subst, false, fw, p + t) == rest);
        assert(text.subrange(p, p + t) =~= target);
        assert(target + text.subrange(p + t, text.len() as int) =~= text.subrange(
            p,
            text.len() as int,
        ));
    } else {
        let rest = rewrite_from(text, target, subst, false, fw, p + 1);
        assert(fwd == seq![text[p]] + rest);
        assert(fwd.len() > 0);
        assert(!match_at(fwd, subst, 0, false)) by {
            if match_at(fwd, subst, 0, false) {
                assert(fwd[0] == subst[0]);
                assert(fwd[0] == text[p]);
            }
        }
        assert(rewrite_from(fwd, subst, target, false, false, 0) == seq![fwd[0]] + rewrite_from(
            fwd,
            subst,
            target,
            false,
            false,
            1,
        ));
        lemma_rewrite_shift(fwd, subst, target, false, 1);
        assert(fwd.subrange(1, fwd.len() as int) =~= rest);
        lemma_rewrite_round_trip_from(text, target, subst, fw, p + 1);
        assert(seq![text[p]] + text.subrange(p + 1, text.len() as int) =~= text.subrange(
            p,
            text.len() as int,
        ));
    }
}

/// Every character of `s` is a word character.
pub open spec fn word_seq(s: Seq<char>) -> bool {
    forall|i: int| 0 <= i < s.len() ==> is_word_char(#[trigger] s[i])
}

/// Every plain occurrence of `pat` in `s` lies on word boundaries of `s`.
pub open spec fn all_matches_on_boundaries(s: Seq<char>, pat: Seq<char>) -> bool {
    forall|q: int|
        #[trigger] match_at(s, pat, q, false) ==> boundary_at(s, q) && boundary_at(
            s,
            q + pat.len(),
        )
}

/// When every plain occurrence of the target lies on word boundaries,
/// the whole-word pass and the plain pass coincide from `p` on.
proof fn lemma_rewrite_ww_agrees(text: Seq<char>, target: Seq<char>, subst: Seq<char>, p: int)
    requires
        0 <= p <= text.len(),
        target.len() > 0,
        all_matches_on_boundaries(text, target),
    ensures
        rewrite_from(text, target, subst, false, true, p) == rewrite_from(
            text,
            target,
            subst,
            false,
            false,
            p,
        ),
    decreases text.len() - p,
{
    if p >= text.len() {
    } else if match_at(text, target, p, false) {
        assert(boundary_at(text, p) && boundary_at(text, p + target.len()));
        assert(match_ok(text, target, p, false, true));
        lemma_rewrite_ww_agrees(text, target, subst, p + target.len() as int);
    } else {
        assert(!match_ok(text, target, p, false, true));
        assert(!match_ok(text, target, p, false, false));
        lemma_rewrite_ww_agrees(text, target, subst, p + 1);
    }
}

/// The structure of a whole-word pass whose substitution value is fresh
/// and made of word characters, as is the target: every plain occurrence
/// of the substitution value in the output starts where a match was
/// replaced, and so lies on word boundaries of the output; and the
/// output's first character is the scanned character, or the start of an
/// inserted substitution value.
proof fn lemma_rewrite_output_boundaries(
    text: Seq<char>,
    target: Seq<char>,
    subst: Seq<char>,
    p: int,
)
    requires
        0 <= p <= text.len(),
        target.len() > 0,
        subst.len() > 0,
        disjoint_chars(text, subst),
        word_seq(target),
        word_seq(subst),
    ensures
        all_matches_on_boundaries(rewrite_from(text, target, subst, false, true, p), subst),
        rewrite_from(text, target, subst, false, true, p).len() > 0 ==> (rewrite_from(
            text,
            target,
            subst,
            false,
            true,
            p,
        )[0] == text[p] || (match_ok(text, target, p, false, true) && rewrite_from(
            text,
            target,
            subst,
            false,
            true,
            p,
        )[0] == subst[0])),
    decreases text.len() - p,
{
    let out = rewrite_from(text, target, subst, false, true, p);
    let s = subst.len() as int;
    if p >= text.len() {
        assert(forall|q: int| !match_at(out, subst, q, false));
    } else if match_ok(text, target, p, false, true) {
        let t = target.len() as int;
        let nxt = rewrite_from(text, target, subst, false, true, p + t);
        lemma_rewrite_output_boundaries(text, target, subst, p + t);
        assert(out == subst + nxt);
        assert(out.len() == s + nxt.len());
        // The match ends on a boundary, and the target's last character
        // is a word character, so the character after the match is not.
        assert(p + t < text.len() ==> !is_word_char(text[p + t])) by {
            assert(chars_equal(text[p + t - 1], target[t - 1], false));
            assert(is_word_char(text[p + t - 1]));
            assert(boundary_at(text, p + t));
        }
        assert(nxt.len() > 0 ==> !is_word_char(nxt[0])) by {
            if nxt.len() > 0 {
                assert(p + t < text.len());
                if match_ok(text, target, p + t, false, true) {
                    assert(chars_equal(text[p + t], target[0], false));
                    assert(is_word_char(text[p + t]));
                } else {
                    assert(nxt[0] == text[p + t]);
                }
            }
        }
        assert forall|q: int| #[trigger] match_at(out, subst, q, false) implies boundary_at(
            out,
            q,
        ) && boundary_at(out, q + s) by {
            if q == 0 {
                assert(is_word_char(out[0]));
                assert(boundary_at(out, 0));
                assert(is_word_char(out[s - 1]));
                if s < out.len() {
                    assert(out[s] == nxt[0]);
                    assert(!is_word_char(out[s]));
                }
                assert(boundary_at(out, s));
            } else if q < s {
                // The window would cross the junction into a non-word
                // character where a word character of `subst` is required.
                assert(q + s <= out.len());
                assert(nxt.len() > 0);
                assert(out[s] == nxt[0]);
                assert(chars_equal(out[q + (s - q)], subst[s - q], false));
                assert(is_word_char(subst[s - q]));
                assert(false);
            } else {
                assert(forall|j: int|
                    0 <= j < s ==> #[trigger] out[q + j] == nxt[q - s + j]);
                assert(match_at(nxt, subst, q - s, false));
                if q == s {
                    assert(nxt[0] == subst[0]);
                    assert(is_word_char(subst[0]));
                    assert(false);
                } else {
                    assert(boundary_at(nxt, q - s) && boundary_at(nxt, q - s + s));
                    assert(word_at(out, q - 1) == word_at(nxt, q - 1 - s));
                    assert(word_at(out, q) == word_at(nxt, q - s));
                    assert(word_at(out, q + s - 1) == word_at(nxt, q - 1));
                    assert(word_at(out, q + s) == word_at(nxt, q));
                }
            }
        }
    } else {
        let nxt = rewrite_from(text, target, subst, false, true, p + 1);
        lemma_rewrite_output_boundaries(text, target, subst, p + 1);
        assert(out == seq![text[p]] + nxt);
        assert(out.len() == 1 + nxt.len());
        assert forall|q: int| #[trigger] match_at(out, subst, q, false) implies boundary_at(
            out,
            q,
        ) && boundary_at(out, q + s) by {
            if q == 0 {
                assert(out[0] == text[p]);
                assert(chars_equal(out[0], subst[0], false));
                assert(false);
            } else {
                assert(forall|j: int|
                    0 <= j < s ==> #[trigger] out[q + j] == nxt[q - 1 + j]);
                assert(match_at(nxt, subst, q - 1, false));
                assert(boundary_at(nxt, q - 1) && boundary_at(nxt, q - 1 + s));
                if q == 1 {
                    // The inserted value right after this character came
                    // from a match on a boundary, so this character is
                    // not a word character.
                    assert(nxt.len() > 0);
                    assert(nxt[0] == subst[0]);
                    if !match_ok(text, target, p + 1, false, true) {
                        assert(nxt[0] == text[p + 1]);
                        assert(false);
                    }
                    assert(boundary_at(text, p + 1));
                    assert(chars_equal(text[p + 1], target[0], false));
                    assert(is_word_char(text[p + 1]));
                    assert(!is_word_char(text[p]));
                    assert(word_at(out, 0) == false);
                    assert(word_at(out, 1) == word_at(nxt, 0));
                    assert(is_word_char(nxt[0]));
                    assert(boundary_at(out, 1));
                    assert(word_at(out, s) == word_at(nxt, s - 1));
                    assert(word_at(out, s + 1) == word_at(nxt, s));
                    assert(boundary_at(out, 1 + s));
                } else {
                    assert(word_at(out, q - 1) == word_at(nxt, q - 2));
                    assert(word_at(out, q) == word_at(nxt, q - 1));
                    assert(word_at(out, q + s - 1) == word_at(nxt, q + s - 2));
                    assert(word_at(out, q + s) == word_at(nxt, q + s - 1));
                }
            }
        }
    }
}

/// A pair list inverted: reverse order, each pair's roles swapped.
pub open spec fn invert_pairs(pairs: Seq<(Seq<char>, Seq<char>)>) -> Seq<(Seq<char>, Seq<char>)> {
    Seq::new(
        pairs.len(),
        |k: int| (pairs[pairs.len() - 1 - k].1, pairs[pairs.len() - 1 - k].0),
    )
}

/// The hypotheses of the round-trip law: every search target and every
/// substitution value is non-empty, and the substitution values are
/// fresh — no character of a substitution value occurs in the text, in
/// any search target, or in another rule's substitution value.
pub open spec fn round_trip_ready(text: Seq<char>, pairs: Seq<(Seq<char>, Seq<char>)>) -> bool {
    &&& forall|k: int|
        0 <= k < pairs.len() ==> (#[trigger] pairs[k]).0.len() > 0 && pairs[k].1.len() > 0
    &&& forall|k: int| 0 <= k < pairs.len() ==> disjoint_chars(text, (#[trigger] pairs[k]).1)
    &&& forall|j: int, k: int|
        0 <= j < pairs.len() && 0 <= k < pairs.len() ==> disjoint_chars(
            (#[trigger] pairs[j]).0,
            (#[trigger] pairs[k]).1,
        )
    &&& forall|j: int, k: int|
        0 <= j < pairs.len() && 0 <= k < pairs.len() && j != k ==> disjoint_chars(
            (#[trigger] pairs[j]).1,
            (#[trigger] pairs[k]).1,
        )
}

/// Round trip over pair lists, case-sensitive and without the
/// whole-word constraint: applying the pairs in order and then the
/// inverted list restores the text exactly.
pub proof fn lemma_round_trip_pairs(text: Seq<char>, pairs: Seq<(Seq<char>, Seq<char>)>)
    requires
        round_trip_ready(text, pairs),
    ensures
        apply_rules(apply_rules(text, pairs, false, false), invert_pairs(pairs), false, false)
            == text,
    decreases pairs.len(),
{
    if pairs.len() == 0 {
        assert(invert_pairs(pairs) =~= Seq::<(Seq<char>, Seq<char>)>::empty());
    } else {
        let o = pairs[0].0;
        let r = pairs[0].1;
        let t1 = rewrite(text, o, r, false, false);
        let rest = pairs.drop_first();
        assert(apply_rules(text, pairs, false, false) == apply_rules(t1, rest, false, false));
        lemma_rewrite_chars_from(text, o, r, false, 0);
        assert forall|k: int|
            0 <= k < rest.len() implies (#[trigger] rest[k]).0.len() > 0 && rest[k].1.len() > 0
            && disjoint_chars(t1, rest[k].1) by {
            assert(rest[k] == pairs[k + 1]);
            assert(disjoint_chars(text, pairs[k + 1].1));
            assert(disjoint_chars(pairs[0].1, pairs[k + 1].1));
            lemma_disjoint_transfer(t1, text, r, pairs[k + 1].1);
        }
        assert forall|j: int, k: int|
            0 <= j < rest.len() && 0 <= k < rest.len() implies disjoint_chars(
            (#[trigger] rest[j]).0,
            (#[trigger] rest[k]).1,
        ) by {
            assert(rest[j] == pairs[j + 1]);
            assert(rest[k] == pairs[k + 1]);
            assert(disjoint_chars(pairs[j + 1].0, pairs[k + 1].1));
        }
        assert forall|j: int, k: int|
            0 <= j < rest.len() && 0 <= k < rest.len() && j != k implies disjoint_chars(
            (#[trigger] rest[j]).1,
            (#[trigger] rest[k]).1,
        ) by {
            assert(rest[j] == pairs[j + 1]);
            assert(rest[k] == pairs[k + 1]);
            assert(disjoint_chars(pairs[j + 1].1, pairs[k + 1].1));
        }
        assert(round_trip_ready(t1, rest));
        lemma_round_trip_pairs(t1, rest);
        let f_all = apply_rules(t1, rest, false, false);
        assert(invert_pairs(pairs) =~= invert_pairs(rest).push((r, o)));
        lemma_apply_rules_push(f_all, invert_pairs(rest), (r, o), false, false);
        assert(disjoint_chars(text, pairs[0].1));
        lemma_rewrite_round_trip_from(text, o, r, false, 0);
        assert(text.subrange(0, text.len() as int) =~= text);
    }
}

/// The round-trip law: for a rule list whose substitution values are
/// non-empty and fresh (no character of a `replacement` occurs in the
/// text, in any `original`, or in another rule's `replacement`), and
/// whose search targets are non-empty, the inverse direction applied to
/// the forward direction's output restores the text exactly, in the
/// case-sensitive mode without the whole-word constraint. For the
/// whole-word mode see `lemma_round_trip_whole_words`.
pub proof fn lemma_round_trip(text: Seq<char>, rules: Seq<ReplacementRule>)
    requires
        round_trip_ready(text, forward_pairs(rules)),
    ensures
        apply_rules(
            apply_rules(text, forward_pairs(rules), false, false),
            inverse_pairs(rules),
            false,
            false,
        ) == text,
{
    assert(inverse_pairs(rules) =~= invert_pairs(forward_pairs(rules)));
    lemma_round_trip_pairs(text, forward_pairs(rules));
}


/// One whole-word pass, inverted under the whole-word constraint: with
/// a fresh substitution value, and target and substitution value both
/// made of word characters, the inverse pass restores the text exactly.
proof fn lemma_rewrite_round_trip_ww(text: Seq<char>, target: Seq<char>, subst: Seq<char>)
    requires
        target.len() > 0,
        subst.len() > 0,
        disjoint_chars(text, subst),
        word_seq(target),
        word_seq(subst),
    ensures
        rewrite(rewrite(text, target, subst, false, true), subst, target, false, true) == text,
{
    let f = rewrite(text, target, subst, false, true);
    lemma_rewrite_output_boundaries(text, target, subst, 0);
    lemma_rewrite_ww_agrees(f, subst, target, 0);
    lemma_rewrite_round_trip_from(text, target, subst, true, 0);
    assert(text.subrange(0, text.len() as int) =~= text);
}

/// The extra hypothesis of the whole-word round-trip law: every search
/// target and every substitution value consists of word characters.
pub open spec fn word_pairs(pairs: Seq<(Seq<char>, Seq<char>)>) -> bool {
    forall|k: int|
        0 <= k < pairs.len() ==> word_seq((#[trigger] pairs[k]).0) && word_seq(pairs[k].1)
}

/// Round trip over pair lists in the case-sensitive, whole-word mode:
/// with fresh substitution values and word-character rule strings,
/// applying the pairs in order and then the inverted list restores the
/// text exactly.
pub proof fn lemma_round_trip_pairs_whole_words(text: Seq<char>, pairs: Seq<(Seq<char>, Seq<char>)>)
    requires
        round_trip_ready(text, pairs),
        word_pairs(pairs),
    ensures
        apply_rules(apply_rules(text, pairs, false, true), invert_pairs(pairs), false, true)
            == text,
    decreases pairs.len(),
{
    if pairs.len() == 0 {
        assert(invert_pairs(pairs) =~= Seq::<(Seq<char>, Seq<char>)>::empty());
    } else {
        let o = pairs[0].0;
        let r = pairs[0].1;
        let t1 = rewrite(text, o, r, false, true);
        let rest = pairs.drop_first();
        assert(apply_rules(text, pairs, false, true) == apply_rules(t1, rest, false, true));
        lemma_rewrite_chars_from(text, o, r, true, 0);
        assert forall|k: int|
            0 <= k < rest.len() implies (#[trigger] rest[k]).0.len() > 0 && rest[k].1.len() > 0
            && disjoint_chars(t1, rest[k].1) && word_seq(rest[k].0) && word_seq(rest[k].1) by {
            assert(rest[k] == pairs[k + 1]);
            assert(disjoint_chars(text, pairs[k + 1].1));
            assert(disjoint_chars(pairs[0].1, pairs[k + 1].1));
            lemma_disjoint_transfer(t1, text, r, pairs[k + 1].1);
        }
        assert forall|j: int, k: int|
            0 <= j < rest.len() && 0 <= k < rest.len() implies disjoint_chars(
            (#[trigger] rest[j]).0,
            (#[trigger] rest[k]).1,
        ) by {
            assert(rest[j] == pairs[j + 1]);
            assert(rest[k] == pairs[k + 1]);
            assert(disjoint_chars(pairs[j + 1].0, pairs[k + 1].1));
        }
        assert forall|j: int, k: int|
            0 <= j < rest.len() && 0 <= k < rest.len() && j != k implies disjoint_chars(
            (#[trigger] rest[j]).1,
            (#[trigger] rest[k]).1,
        ) by {
            assert(rest[j] == pairs[j + 1]);
            assert(rest[k] == pairs[k + 1]);
            assert(disjoint_chars(pairs[j + 1].1, pairs[k + 1].1));
        }
        assert(round_trip_ready(t1, rest));
        assert(word_pairs(rest));
        lemma_round_trip_pairs_whole_words(t1, rest);
        let f_all = apply_rules(t1, rest, false, true);
        assert(invert_pairs(pairs) =~= invert_pairs(rest).push((r, o)));
        lemma_apply_rules_push(f_all, invert_pairs(rest), (r, o), false, true);
        assert(disjoint_chars(text, pairs[0].1));
        assert(word_seq(pairs[0].0) && word_seq(pairs[0].1));
        lemma_rewrite_round_trip_ww(text, o, r);
    }
}

/// The round-trip law in the whole-word mode: under the hypotheses of
/// the round-trip law, and with every rule string made of word
/// characters, the inverse direction applied to the forward direction's
/// output restores the text exactly, case-sensitively with the
/// whole-word constraint. (Without the word-character hypothesis the law
/// fails: an inserted replacement ending in a non-word character need
/// not sit on a word boundary of the transformed text, so the inverse
/// pass may not find it.)
pub proof fn lemma_round_trip_whole_words(text: Seq<char>, rules: Seq<ReplacementRule>)
    requires
        round_trip_ready(text, forward_pairs(rules)),
        word_pairs(forward_pairs(rules)),
    ensures
        apply_rules(
            apply_rules(text, forward_pairs(rules), false, true),
            inverse_pairs(rules),
            false,
            true,
        ) == text,
{
    assert(inverse_pairs(rules) =~= invert_pairs(forward_pairs(rules)));
    lemma_round_trip_pairs_whole_words(text, forward_pairs(rules));
}

} // verus!
