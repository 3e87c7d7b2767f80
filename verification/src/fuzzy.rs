//! The fuzzy-match boundary: the one call into the outside matcher, and the
//! exact condition under which it accepts a pattern against a choice string.
//!
//! The matcher accepts exactly when the pattern's characters appear in order
//! (not necessarily contiguously) in the choice. Matching is
//! ASCII-case-insensitive unless the pattern itself holds an ASCII uppercase
//! character, in which case it is exact ("smart case"). The numeric score and
//! the matched positions are functions of the two strings alone; nothing more
//! is assumed of them.

use vstd::prelude::*;

verus! {

/// ASCII case folding: the folding the matcher applies when it ignores case.
pub open spec fn ascii_fold(c: char) -> char {
    if 'A' <= c && c <= 'Z' {
        (((c as u8) + 32) as char)
    } else {
        c
    }
}

/// Character comparison of the matcher: exact when case-sensitive, ASCII-case
/// folded otherwise.
pub open spec fn skim_char_eq(a: char, b: char, case_sensitive: bool) -> bool {
    if case_sensitive {
        a == b
    } else {
        ascii_fold(a) == ascii_fold(b)
    }
}

/// Greedy subsequence matching: each pattern character is consumed at the
/// first choice position that compares equal. For subsequence existence the
/// greedy strategy is complete, so this holds exactly when the pattern occurs
/// in order within the choice.
pub open spec fn greedy_subsequence(pattern: Seq<char>, choice: Seq<char>, cs: bool) -> bool
    decreases choice.len(),
{
    if pattern.len() == 0 {
        true
    } else if choice.len() == 0 {
        false
    } else if skim_char_eq(choice[0], pattern[0], cs) {
        greedy_subsequence(pattern.drop_first(), choice.drop_first(), cs)
    } else {
        greedy_subsequence(pattern, choice.drop_first(), cs)
    }
}

/// Whether the pattern holds an ASCII uppercase character, which switches the
/// matcher to exact case ("smart case").
pub open spec fn has_ascii_upper(p: Seq<char>) -> bool {
    exists|i: int| 0 <= i < p.len() && 'A' <= #[trigger] p[i] && p[i] <= 'Z'
}

/// The exact accept condition of the matcher: an empty pattern always
/// matches; otherwise the pattern must occur in order within the choice,
/// compared case-sensitively exactly when the pattern holds an ASCII
/// uppercase character.
pub open spec fn skim_accepts(choice: Seq<char>, pattern: Seq<char>) -> bool {
    pattern.len() == 0 || greedy_subsequence(pattern, choice, has_ascii_upper(pattern))
}

/// The score and matched character positions the matcher computes for an
/// accepted (choice, pattern) pair. They depend on the two strings alone;
/// no further property of them is assumed.
pub uninterp spec fn skim_match(choice: Seq<char>, pattern: Seq<char>) -> (i64, Seq<usize>);

/// Relies on `fuzzy_matcher::skim::SkimMatcherV2` with its default settings:
/// an empty pattern matches with score 0 and no positions; otherwise the call
/// returns `Some` exactly when the pattern's characters occur in order in the
/// choice, compared ASCII-case-insensitively unless the pattern holds an
/// ASCII uppercase character ("smart case"); score and positions are a
/// function of the two strings alone.
#[verifier::external_body]
pub fn fuzzy_indices(choice: &str, pattern: &str) -> (r: Option<(i64, Vec<usize>)>)
    ensures
        r is Some <==> skim_accepts(choice@, pattern@),
        (r matches Some(p) ==> p.0 == skim_match(choice@, pattern@).0 && p.1@ == skim_match(
            choice@,
            pattern@,
        ).1),
        (pattern@.len() == 0 ==> (r matches Some(p) ==> p.0 == 0 && p.1.len() == 0)),
{
    let matcher = fuzzy_matcher::skim::SkimMatcherV2::default();
    fuzzy_matcher::FuzzyMatcher::fuzzy_indices(&matcher, choice, pattern)
}

/// Subsequence occurrence under a character comparison: there is some way to
/// consume the pattern in order within the choice (not necessarily at the
/// first equal position).
pub open spec fn is_subsequence(pattern: Seq<char>, choice: Seq<char>, cs: bool) -> bool
    decreases choice.len(),
{
    if pattern.len() == 0 {
        true
    } else if choice.len() == 0 {
        false
    } else {
        (skim_char_eq(choice[0], pattern[0], cs) && is_subsequence(
            pattern.drop_first(),
            choice.drop_first(),
            cs,
        )) || is_subsequence(pattern, choice.drop_first(), cs)
    }
}

/// Greedy matching is sound for subsequence occurrence.
pub proof fn lemma_greedy_implies_subsequence(pattern: Seq<char>, choice: Seq<char>, cs: bool)
    requires
        greedy_subsequence(pattern, choice, cs),
    ensures
        is_subsequence(pattern, choice, cs),
    decreases choice.len(),
{
    if pattern.len() == 0 {
    } else if choice.len() == 0 {
    } else if skim_char_eq(choice[0], pattern[0], cs) {
        lemma_greedy_implies_subsequence(pattern.drop_first(), choice.drop_first(), cs);
    } else {
        lemma_greedy_implies_subsequence(pattern, choice.drop_first(), cs);
    }
}

/// An exact-case subsequence occurrence is also a case-folded one.
pub proof fn lemma_subsequence_case_weaken(pattern: Seq<char>, choice: Seq<char>)
    requires
        is_subsequence(pattern, choice, true),
    ensures
        is_subsequence(pattern, choice, false),
    decreases choice.len(),
{
    if pattern.len() == 0 || choice.len() == 0 {
    } else {
        if skim_char_eq(choice[0], pattern[0], true) && is_subsequence(
            pattern.drop_first(),
            choice.drop_first(),
            true,
        ) {
            lemma_subsequence_case_weaken(pattern.drop_first(), choice.drop_first());
        } else {
            lemma_subsequence_case_weaken(pattern, choice.drop_first());
        }
    }
}

/// Whatever the case mode, an accepted non-empty pattern occurs in the choice
/// as an ASCII-case-folded subsequence.
pub proof fn lemma_accept_implies_folded_subsequence(choice: Seq<char>, pattern: Seq<char>)
    requires
        skim_accepts(choice, pattern),
        pattern.len() > 0,
    ensures
        is_subsequence(pattern, choice, false),
{
    let cs = has_ascii_upper(pattern);
    lemma_greedy_implies_subsequence(pattern, choice, cs);
    if cs {
        lemma_subsequence_case_weaken(pattern, choice);
    }
}

} // verus!
