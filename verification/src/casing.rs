//! Per-character case handling and the case-pattern preserver.
//!
//! Case operations are Unicode per-character operations, taken from
//! std's `char` methods behind named results; their ASCII behaviour is
//! stated exactly. A character with no case (a digit, punctuation) is
//! unchanged by every case operation.

use vstd::prelude::*;

verus! {

/// Whether the character is uppercase, by Unicode's derived property;
/// the result of `char::is_uppercase`.
pub uninterp spec fn is_upper_char(c: char) -> bool;

/// The uppercase form of one character: the first character of its
/// Unicode uppercase mapping; the result of `char::to_uppercase`.
pub uninterp spec fn to_upper_char(c: char) -> char;

/// The lowercase form of one character: the first character of its
/// Unicode lowercase mapping; the result of `char::to_lowercase`.
pub uninterp spec fn to_lower_char(c: char) -> char;

/// Relies on std's `char::is_uppercase`, whose result depends on the
/// character alone. On ASCII it holds exactly of 'A' to 'Z'.
#[verifier::external_body]
pub(crate) fn is_upper_exec(c: char) -> (r: bool)
    ensures
        r == is_upper_char(c),
        ('A' <= c && c <= 'Z') ==> r,
        ((c as u32) < 128 && !('A' <= c && c <= 'Z')) ==> !r,
{
    c.is_uppercase()
}

/// Relies on std's `char::to_uppercase`, whose result depends on the
/// character alone; a multi-character mapping contributes its first
/// character, as the case-pattern preserver uses one character per
/// position. On ASCII it maps 'a' to 'z' up and leaves the rest.
#[verifier::external_body]
pub(crate) fn to_upper_exec(c: char) -> (r: char)
    ensures
        r == to_upper_char(c),
        ('a' <= c && c <= 'z') ==> r == (((c as u32) - 32) as char),
        ((c as u32) < 128 && !('a' <= c && c <= 'z')) ==> r == c,
{
    c.to_uppercase().next().unwrap_or(c)
}

/// Relies on std's `char::to_lowercase`, whose result depends on the
/// character alone; a multi-character mapping contributes its first
/// character. On ASCII it maps 'A' to 'Z' down and leaves the rest.
#[verifier::external_body]
pub(crate) fn to_lower_exec(c: char) -> (r: char)
    ensures
        r == to_lower_char(c),
        ('A' <= c && c <= 'Z') ==> r == (((c as u32) + 32) as char),
        ((c as u32) < 128 && !('A' <= c && c <= 'Z')) ==> r == c,
{
    c.to_lowercase().next().unwrap_or(c)
}

/// The case shape of `m` imposed on `s`: uppercase where the matched
/// character is uppercase, lowercase everywhere else.
pub open spec fn shaped_char(m: char, s: char) -> char {
    if is_upper_char(m) {
        to_upper_char(s)
    } else {
        to_lower_char(s)
    }
}

/// The case-pattern preserver: each character of `subst` mirrors the case
/// of the character at the same offset in `matched`; positions past the
/// end of `matched` default to lowercase. An empty `matched` leaves
/// `subst` unchanged.
pub open spec fn preserve_case(matched: Seq<char>, subst: Seq<char>) -> Seq<char> {
    if matched.len() == 0 {
        subst
    } else {
        Seq::new(
            subst.len(),
            |i: int|
                if i < matched.len() {
                    shaped_char(matched[i], subst[i])
                } else {
                    to_lower_char(subst[i])
                },
        )
    }
}

/// Case-pattern preservation on character vectors; the engine applies it
/// to each case-insensitive match.
pub fn preserve_case_chars(matched: &Vec<char>, subst: &Vec<char>) -> (out: Vec<char>)
    ensures
        out@ == preserve_case(matched@, subst@),
{
    if matched.len() == 0 {
        let mut out: Vec<char> = Vec::new();
        crate::text::extend_chars(&mut out, subst);
        return out;
    }
    let mut out: Vec<char> = Vec::new();
    let mut i: usize = 0;
    while i < subst.len()
        invariant
            matched@.len() > 0,
            i <= subst@.len(),
            out@ == preserve_case(matched@, subst@).subrange(0, i as int),
        decreases subst@.len() - i,
    {
        let c = if i < matched.len() {
            if is_upper_exec(matched[i]) {
                to_upper_exec(subst[i])
            } else {
                to_lower_exec(subst[i])
            }
        } else {
            to_lower_exec(subst[i])
        };
        out.push(c);
        proof {
            assert(out@ =~= preserve_case(matched@, subst@).subrange(0, i + 1 as int));
        }
        i = i + 1;
    }
    proof {
        assert(out@ =~= preserve_case(matched@, subst@));
    }
    out
}

/// Reshapes `replacement` so that its characters follow the per-character
/// case pattern of `original_match`; characters past the end of the match
/// default to lowercase, and an empty match returns `replacement`
/// unchanged.
pub fn preserve_case_pattern(original_match: &str, replacement: &str) -> (out: String)
    ensures
        out@ == preserve_case(original_match@, replacement@),
{
    let m = crate::text::str_to_chars(original_match);
    let s = crate::text::str_to_chars(replacement);
    let out = preserve_case_chars(&m, &s);
    crate::text::chars_to_string(&out)
}

} // verus!
