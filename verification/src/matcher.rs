//! Fuzzy scores.
//!
//! Scores come from the skim matcher of the `fuzzy-matcher` crate. Whether a
//! pattern matches at all is stated here in full; the value of a match is
//! whatever the matcher computes, and is only given a name.

use crate::language::MAX_LABEL_CHARS;
use vstd::prelude::*;

verus! {

/// The code point of `c`, with the ASCII capitals mapped to their small
/// letters.
pub open spec fn ascii_fold(c: char) -> int {
    let u = c as u32 as int;
    if 0x41 <= u <= 0x5A {
        u + 0x20
    } else {
        u
    }
}

/// Whether the characters of `pattern` occur in `choice` in their order,
/// not necessarily next to each other, ASCII letters compared without
/// regard to case.
pub open spec fn is_loose_subsequence(pattern: Seq<char>, choice: Seq<char>) -> bool
    decreases choice.len(),
{
    if pattern.len() == 0 {
        true
    } else if choice.len() == 0 {
        false
    } else if ascii_fold(pattern.first()) == ascii_fold(choice.first()) {
        is_loose_subsequence(pattern.drop_first(), choice.drop_first())
    } else {
        is_loose_subsequence(pattern, choice.drop_first())
    }
}

/// The score that the skim matcher, with its default scoring and ignoring
/// case, gives to `pattern` against `choice` where the pattern matches.
pub uninterp spec fn skim_value(choice: Seq<char>, pattern: Seq<char>) -> i64;

/// The fuzzy score of `pattern` against `choice`: none where the pattern is
/// no loose subsequence of the choice, else the matcher's value.
pub open spec fn match_score(choice: Seq<char>, pattern: Seq<char>) -> Option<i64> {
    if is_loose_subsequence(pattern, choice) {
        Some(skim_value(choice, pattern))
    } else {
        None
    }
}

/// A loose subsequence is no longer than what it is found in.
pub proof fn lemma_subsequence_len(pattern: Seq<char>, choice: Seq<char>)
    requires
        is_loose_subsequence(pattern, choice),
    ensures
        pattern.len() <= choice.len(),
    decreases choice.len(),
{
    if pattern.len() != 0 && choice.len() != 0 {
        if ascii_fold(pattern.first()) == ascii_fold(choice.first()) {
            lemma_subsequence_len(pattern.drop_first(), choice.drop_first());
        } else {
            lemma_subsequence_len(pattern, choice.drop_first());
        }
    }
}

/// Every string is a loose subsequence of itself.
pub proof fn lemma_subsequence_refl(s: Seq<char>)
    ensures
        is_loose_subsequence(s, s),
    decreases s.len(),
{
    if s.len() != 0 {
        lemma_subsequence_refl(s.drop_first());
    }
}

/// Calls `SkimMatcherV2::default().ignore_case().fuzzy_match(choice, pattern)`
/// of `fuzzy-matcher` on a matcher of its own, so that nothing is carried
/// over from one call to the next.
///
/// Trusted: the matcher answers `Some` exactly where its greedy scan finds
/// the characters of the pattern in the choice, in order and comparing with
/// `char::eq_ignore_ascii_case`; the value it then returns depends on the two
/// strings alone. The bounds keep its 32-bit score arithmetic far from
/// overflow.
#[verifier::external_body]
pub(crate) fn fuzzy_score(choice: &str, pattern: &str) -> (score: Option<i64>)
    requires
        choice@.len() <= MAX_LABEL_CHARS,
        pattern@.len() <= MAX_LABEL_CHARS,
    ensures
        score is Some <==> is_loose_subsequence(pattern@, choice@),
        score matches Some(value) ==> value == skim_value(choice@, pattern@),
{
    let matcher = fuzzy_matcher::skim::SkimMatcherV2::default().ignore_case();
    fuzzy_matcher::FuzzyMatcher::fuzzy_match(&matcher, choice, pattern)
}

} // verus!
