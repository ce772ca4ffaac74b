//! The language resolver: which languages a token may mean, and how well.

use crate::language::{
    entry_views, is_table, LanguageEntryView, LanguageTable, MAX_LABEL_CHARS,
};
use crate::matcher::{fuzzy_score, lemma_subsequence_len, lemma_subsequence_refl, match_score};
use vstd::prelude::*;
use vstd::string::StrSliceExecFns;

verus! {

/// A language that a token matched, with the score of the match.
#[derive(Debug, PartialEq, Eq)]
pub struct ScoredCandidate {
    pub code: String,
    pub name: String,
    /// The better of the token's scores against the code and against the
    /// display name.
    pub score: i64,
}

/// The model of a [`ScoredCandidate`].
pub struct CandidateView {
    pub code: Seq<char>,
    pub name: Seq<char>,
    pub score: int,
}

impl View for ScoredCandidate {
    type V = CandidateView;

    open spec fn view(&self) -> CandidateView {
        CandidateView { code: self.code@, name: self.name@, score: self.score as int }
    }
}

impl ScoredCandidate {
    /// A copy of this candidate.
    pub fn duplicate(&self) -> (copy: ScoredCandidate)
        ensures
            copy == *self,
    {
        ScoredCandidate { code: self.code.clone(), name: self.name.clone(), score: self.score }
    }
}

/// The models of a sequence of candidates.
pub open spec fn candidate_views(candidates: Seq<ScoredCandidate>) -> Seq<CandidateView> {
    candidates.map_values(|c: ScoredCandidate| c@)
}

/// The better of two optional scores; a missing score is worse than any
/// score.
pub open spec fn better_score(a: Option<i64>, b: Option<i64>) -> Option<i64> {
    match (a, b) {
        (Some(x), Some(y)) => Some(if x >= y { x } else { y }),
        (Some(x), None) => Some(x),
        (None, _) => b,
    }
}

/// The score of `token` against an entry: the better of its scores against
/// the code and against the display name.
pub open spec fn entry_score(entry: LanguageEntryView, token: Seq<char>) -> Option<i64> {
    better_score(match_score(entry.code, token), match_score(entry.name, token))
}

/// The candidate that `token` makes of an entry, if it matches the entry.
pub open spec fn candidate_of(entry: LanguageEntryView, token: Seq<char>) -> Option<CandidateView> {
    match entry_score(entry, token) {
        Some(score) => Some(CandidateView { code: entry.code, name: entry.name, score: score as int }),
        None => None,
    }
}

/// The candidates for `token`: one for each entry that the token matches, in
/// table order. The empty token matches nothing.
pub open spec fn resolve_spec(table: Seq<LanguageEntryView>, token: Seq<char>) -> Seq<
    CandidateView,
> {
    if token.len() == 0 {
        Seq::empty()
    } else {
        table.filter_map(|entry: LanguageEntryView| candidate_of(entry, token))
    }
}

/// A token longer than every label of a table matches none of its entries.
pub proof fn lemma_long_token_matches_nothing(table: Seq<LanguageEntryView>, token: Seq<char>)
    requires
        is_table(table),
        token.len() > MAX_LABEL_CHARS,
    ensures
        resolve_spec(table, token) == Seq::<CandidateView>::empty(),
    decreases table.len(),
{
    if table.len() > 0 {
        let last = table.last();
        if match_score(last.code, token) is Some {
            lemma_subsequence_len(token, last.code);
        }
        if match_score(last.name, token) is Some {
            lemma_subsequence_len(token, last.name);
        }
        let rest = table.drop_last();
        assert(is_table(rest)) by {
            assert forall|i: int| 0 <= i < rest.len() implies (#[trigger] rest[i]) == table[i] by {}
        }
        lemma_long_token_matches_nothing(rest, token);
    }
}

/// An entry whose code is the token is among the candidates for the token,
/// whatever else matches: a match of the code itself is never missing.
pub proof fn lemma_exact_code_resolves(table: Seq<LanguageEntryView>, token: Seq<char>, i: int)
    requires
        0 <= i < table.len(),
        table[i].code == token,
        token.len() > 0,
    ensures
        entry_score(table[i], token) is Some,
        exists|k: int|
            0 <= k < resolve_spec(table, token).len() && (#[trigger] resolve_spec(
                table,
                token,
            )[k]).code == token,
    decreases table.len(),
{
    lemma_subsequence_refl(token);
    let found = resolve_spec(table, token);
    let rest = table.drop_last();
    if i == table.len() - 1 {
        // The candidate of the last entry is the last candidate.
        assert(found[found.len() - 1].code == token);
    } else {
        // The candidates of the entries before the last keep their places.
        lemma_exact_code_resolves(rest, token, i);
        let k = choose|k: int|
            0 <= k < resolve_spec(rest, token).len() && (#[trigger] resolve_spec(
                rest,
                token,
            )[k]).code == token;
        assert(found[k] == resolve_spec(rest, token)[k]);
    }
}

/// Resolves `token` against `table`.
pub fn resolve_language(table: &LanguageTable, token: &str) -> (found: Vec<ScoredCandidate>)
    ensures
        candidate_views(found@) == resolve_spec(table@, token@),
{
    let mut found: Vec<ScoredCandidate> = Vec::new();
    let token_chars = token.unicode_len();
    if token_chars == 0 {
        return found;
    }
    let entries = table.entries();
    if token_chars > MAX_LABEL_CHARS {
        proof {
            lemma_long_token_matches_nothing(table@, token@);
        }
        return found;
    }
    let ghost f = |entry: LanguageEntryView| candidate_of(entry, token@);
    let mut i: usize = 0;
    while i < entries.len()
        invariant
            i <= entries.len(),
            0 < token@.len() <= MAX_LABEL_CHARS,
            entry_views(entries@) == table@,
            is_table(table@),
            f == |entry: LanguageEntryView| candidate_of(entry, token@),
            candidate_views(found@) == table@.take(i as int).filter_map(f),
        decreases entries.len() - i,
    {
        let entry = &entries[i];
        assert(table@[i as int] == entry@);
        let by_code = fuzzy_score(entry.code.as_str(), token);
        let by_name = fuzzy_score(entry.name.as_str(), token);
        let best = match (by_code, by_name) {
            (Some(x), Some(y)) => Some(if x >= y { x } else { y }),
            (Some(x), None) => Some(x),
            (None, other) => other,
        };
        proof {
            table@.lemma_filter_map_take_succ(f, i as int);
        }
        if let Some(score) = best {
            found.push(ScoredCandidate { code: entry.code.clone(), name: entry.name.clone(), score });
        }
        i += 1;
    }
    assert(table@.take(i as int) =~= table@);
    found
}

} // verus!
