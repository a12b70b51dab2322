//! Literal substring matching and single-pass replacement.
//!
//! A search target is always treated as literal text, never as a pattern
//! language. One pass scans the text left to right and replaces every
//! non-overlapping occurrence, leftmost first; once a match is consumed
//! the scan resumes after it. Matching is optionally case-insensitive
//! (per-character case folding) and optionally constrained to word
//! boundaries, and the two constraints compose.

use vstd::prelude::*;

use crate::casing::{preserve_case, preserve_case_chars, to_lower_char};
use crate::text::{extend_chars, subvec};

verus! {

/// Whether the character is alphanumeric, by Unicode's derived
/// properties; the result of `char::is_alphanumeric`.
pub uninterp spec fn is_alphanumeric_char(c: char) -> bool;

/// Relies on std's `char::is_alphanumeric`, whose result depends on the
/// character alone. On ASCII it holds exactly of the letters and digits.
#[verifier::external_body]
fn is_alphanumeric_exec(c: char) -> (r: bool)
    ensures
        r == is_alphanumeric_char(c),
        (('a' <= c && c <= 'z') || ('A' <= c && c <= 'Z') || ('0' <= c && c <= '9')) ==> r,
        ((c as u32) < 128 && !(('a' <= c && c <= 'z') || ('A' <= c && c <= 'Z') || ('0' <= c
            && c <= '9'))) ==> !r,
{
    c.is_alphanumeric()
}

/// A word character: alphanumeric or underscore.
pub open spec fn is_word_char(c: char) -> bool {
    c == '_' || is_alphanumeric_char(c)
}

/// Position `p` of `text` holds a word character (positions outside the
/// text count as non-word).
pub open spec fn word_at(text: Seq<char>, p: int) -> bool {
    0 <= p < text.len() && is_word_char(text[p])
}

/// A word boundary before position `p`: the character before `p` and the
/// character at `p` differ in wordness, with the ends of the text
/// counting as non-word.
pub open spec fn boundary_at(text: Seq<char>, p: int) -> bool {
    word_at(text, p - 1) != word_at(text, p)
}

/// Two characters are equal, after per-character case folding (both
/// sides taken to lowercase) when `ci` is set.
pub open spec fn chars_equal(a: char, b: char, ci: bool) -> bool {
    if ci {
        to_lower_char(a) == to_lower_char(b)
    } else {
        a == b
    }
}

/// The target occurs at position `p` of the text, character for
/// character under the active case mode.
pub open spec fn match_at(text: Seq<char>, target: Seq<char>, p: int, ci: bool) -> bool {
    &&& 0 <= p
    &&& p + target.len() <= text.len()
    &&& forall|j: int| 0 <= j < target.len() ==> chars_equal(text[p + j], target[j], ci)
}

/// The target matches at position `p` under both flags: a literal
/// occurrence, flanked by word boundaries when `ww` is set.
pub open spec fn match_ok(text: Seq<char>, target: Seq<char>, p: int, ci: bool, ww: bool) -> bool {
    &&& match_at(text, target, p, ci)
    &&& (ww ==> boundary_at(text, p) && boundary_at(text, p + target.len()))
}

/// What one match is replaced with: the substitution value itself, or,
/// in case-insensitive mode, the substitution value reshaped to the case
/// pattern of the matched text.
pub open spec fn replacement_for(matched: Seq<char>, subst: Seq<char>, ci: bool) -> Seq<char> {
    if ci {
        preserve_case(matched, subst)
    } else {
        subst
    }
}

/// The single replacement pass, from scan position `p` to the end of the
/// text: at each position, either the target matches and is consumed and
/// replaced, or one character is carried over unchanged. Word boundaries
/// are judged against the full original text.
pub open spec fn rewrite_from(
    text: Seq<char>,
    target: Seq<char>,
    subst: Seq<char>,
    ci: bool,
    ww: bool,
    p: int,
) -> Seq<char>
    decreases text.len() - p,
    when 0 <= p && target.len() > 0
{
    if p >= text.len() {
        Seq::empty()
    } else if match_ok(text, target, p, ci, ww) {
        replacement_for(text.subrange(p, p + target.len() as int), subst, ci) + rewrite_from(
            text,
            target,
            subst,
            ci,
            ww,
            p + target.len() as int,
        )
    } else {
        seq![text[p]] + rewrite_from(text, target, subst, ci, ww, p + 1)
    }
}

/// One whole replacement pass over the text.
pub open spec fn rewrite(
    text: Seq<char>,
    target: Seq<char>,
    subst: Seq<char>,
    ci: bool,
    ww: bool,
) -> Seq<char> {
    rewrite_from(text, target, subst, ci, ww, 0)
}

fn chars_equal_exec(a: char, b: char, ci: bool) -> (r: bool)
    ensures
        r == chars_equal(a, b, ci),
{
    if ci {
        crate::casing::to_lower_exec(a) == crate::casing::to_lower_exec(b)
    } else {
        a == b
    }
}

fn is_word_char_exec(c: char) -> (r: bool)
    ensures
        r == is_word_char(c),
{
    c == '_' || is_alphanumeric_exec(c)
}

fn word_at_exec(text: &Vec<char>, p: usize, in_range: bool) -> (r: bool)
    requires
        in_range ==> p < text@.len(),
    ensures
        r == (in_range && word_at(text@, p as int)),
{
    in_range && is_word_char_exec(text[p])
}

/// Decides `match_ok` at position `p`.
fn match_ok_exec(text: &Vec<char>, target: &Vec<char>, p: usize, ci: bool, ww: bool) -> (r: bool)
    requires
        p <= text@.len(),
        target@.len() > 0,
    ensures
        r == match_ok(text@, target@, p as int, ci, ww),
{
    if target.len() > text.len() - p {
        return false;
    }
    let n = text.len();
    let mut j: usize = 0;
    while j < target.len()
        invariant
            n == text@.len(),
            p + target@.len() <= text@.len(),
            j <= target@.len(),
            forall|k: int| 0 <= k < j ==> chars_equal(text@[p + k], target@[k], ci),
        decreases target@.len() - j,
    {
        if !chars_equal_exec(text[p + j], target[j], ci) {
            return false;
        }
        j = j + 1;
    }
    if ww {
        let e = p + target.len();
        let wp = word_at_exec(text, if p > 0 { p - 1 } else { 0 }, p > 0);
        let wf = word_at_exec(text, p, true);
        let wl = word_at_exec(text, e - 1, true);
        let wa = word_at_exec(text, e, e < text.len());
        if wp == wf || wl == wa {
            return false;
        }
    }
    true
}

/// One replacement pass over the text: every non-overlapping occurrence
/// of the target, leftmost first, is replaced under the two flags.
pub fn rewrite_exec(
    text: &Vec<char>,
    target: &Vec<char>,
    subst: &Vec<char>,
    ci: bool,
    ww: bool,
) -> (out: Vec<char>)
    requires
        target@.len() > 0,
    ensures
        out@ == rewrite(text@, target@, subst@, ci, ww),
{
    let mut out: Vec<char> = Vec::new();
    let mut p: usize = 0;
    while p < text.len()
        invariant
            p <= text@.len(),
            target@.len() > 0,
            rewrite(text@, target@, subst@, ci, ww) == out@ + rewrite_from(
                text@,
                target@,
                subst@,
                ci,
                ww,
                p as int,
            ),
        decreases text@.len() - p,
    {
        let ghost prev = out@;
        if match_ok_exec(text, target, p, ci, ww) {
            proof {
                assert(rewrite_from(text@, target@, subst@, ci, ww, p as int)
                    == replacement_for(
                    text@.subrange(p as int, p + target@.len()),
                    subst@,
                    ci,
                ) + rewrite_from(text@, target@, subst@, ci, ww, p + target@.len()));
            }
            if ci {
                let matched = subvec(text, p, p + target.len());
                let shaped = preserve_case_chars(&matched, subst);
                extend_chars(&mut out, &shaped);
            } else {
                extend_chars(&mut out, subst);
            }
            proof {
                assert(out@ + rewrite_from(text@, target@, subst@, ci, ww, p + target@.len())
                    =~= prev + rewrite_from(text@, target@, subst@, ci, ww, p as int));
            }
            p = p + target.len();
        } else {
            proof {
                assert(rewrite_from(text@, target@, subst@, ci, ww, p as int) == seq![
                    text@[p as int],
                ] + rewrite_from(text@, target@, subst@, ci, ww, p + 1));
            }
            out.push(text[p]);
            proof {
                assert(out@ + rewrite_from(text@, target@, subst@, ci, ww, p + 1) =~= prev
                    + rewrite_from(text@, target@, subst@, ci, ww, p as int));
            }
            p = p + 1;
        }
    }
    proof {
        assert(rewrite_from(text@, target@, subst@, ci, ww, p as int) =~= Seq::<char>::empty());
        assert(out@ =~= out@ + Seq::<char>::empty());
    }
    out
}

} // verus!
