//! The result assembler.
//!
//! Outcomes come back index-aligned with the pairings they were asked for.
//! Each outcome that decodes becomes one result; a request that failed, or a
//! body that does not decode, becomes none. The results keep the order of
//! the pairings.

use crate::decoder::{decode_body_spec, decode_response, Translation, TranslationView};
use crate::language::{name_of, LanguageEntryView, LanguageTable};
use crate::pairing::{pairing_views, Pairing, PairingView};
use vstd::prelude::*;
use vstd::string::StringExecFns;

verus! {

/// One translation, as it is shown to the user.
#[derive(Debug, PartialEq, Eq)]
pub struct TranslationResult {
    /// The translated text.
    pub title: String,
    /// The direction of the translation, such as `English -> Ukrainian`.
    pub description: String,
}

/// The model of a [`TranslationResult`].
pub struct ResultView {
    pub title: Seq<char>,
    pub description: Seq<char>,
}

impl View for TranslationResult {
    type V = ResultView;

    open spec fn view(&self) -> ResultView {
        ResultView { title: self.title@, description: self.description@ }
    }
}

/// The models of a sequence of results.
pub open spec fn result_views(results: Seq<TranslationResult>) -> Seq<ResultView> {
    results.map_values(|r: TranslationResult| r@)
}

/// What a request brought back: the body of the response, or `None` where
/// the request failed.
pub type Outcome = Option<Vec<u8>>;

/// The model of an [`Outcome`].
pub open spec fn outcome_view(outcome: Outcome) -> Option<Seq<u8>> {
    match outcome {
        Some(body) => Some(body@),
        None => None,
    }
}

/// The models of a sequence of outcomes.
pub open spec fn outcome_views(outcomes: Seq<Outcome>) -> Seq<Option<Seq<u8>>> {
    outcomes.map_values(|o: Outcome| outcome_view(o))
}

/// What a language code is shown as: the display name that the table gives
/// it, or the code itself where the table does not know it.
pub open spec fn label_of(table: Seq<LanguageEntryView>, code: Seq<char>) -> Seq<char> {
    match name_of(table, code) {
        Some(name) => name,
        None => code,
    }
}

/// The source language that a pairing declares: the code of its source, or
/// `default_source` where the source is left to be detected.
pub open spec fn declared_source(pairing: PairingView, default_source: Seq<char>) -> Seq<char> {
    match pairing.source {
        Some(source) => source.code,
        None => default_source,
    }
}

/// The result shown for a translation that was asked for by `pairing`.
pub open spec fn describe_spec(
    table: Seq<LanguageEntryView>,
    pairing: PairingView,
    translation: TranslationView,
) -> ResultView {
    ResultView {
        title: translation.title,
        description: label_of(table, translation.detected) + " -> "@ + pairing.destination.name,
    }
}

/// The result that one outcome gives, if it gives one.
pub open spec fn result_of(
    table: Seq<LanguageEntryView>,
    pairing: PairingView,
    outcome: Option<Seq<u8>>,
    default_source: Seq<char>,
) -> Option<ResultView> {
    match outcome {
        Some(body) => match decode_body_spec(body, declared_source(pairing, default_source)) {
            Some(translation) => Some(describe_spec(table, pairing, translation)),
            None => None,
        },
        None => None,
    }
}

/// The results of the first `n` outcomes, in order.
pub open spec fn assemble_first(
    table: Seq<LanguageEntryView>,
    pairings: Seq<PairingView>,
    outcomes: Seq<Option<Seq<u8>>>,
    default_source: Seq<char>,
    n: nat,
) -> Seq<ResultView>
    decreases n,
{
    if n == 0 {
        Seq::empty()
    } else {
        let earlier = assemble_first(table, pairings, outcomes, default_source, (n - 1) as nat);
        match result_of(table, pairings[n - 1], outcomes[n - 1], default_source) {
            Some(result) => earlier.push(result),
            None => earlier,
        }
    }
}

/// How many outcomes have a pairing to go with: the length of the shorter of
/// the two lists.
pub open spec fn aligned_len(pairings: Seq<PairingView>, outcomes: Seq<Option<Seq<u8>>>) -> nat {
    if pairings.len() <= outcomes.len() {
        pairings.len()
    } else {
        outcomes.len()
    }
}

/// The results of all outcomes, in the order of their pairings.
pub open spec fn assemble_spec(
    table: Seq<LanguageEntryView>,
    pairings: Seq<PairingView>,
    outcomes: Seq<Option<Seq<u8>>>,
    default_source: Seq<char>,
) -> Seq<ResultView> {
    assemble_first(table, pairings, outcomes, default_source, aligned_len(pairings, outcomes))
}

/// There are no more results than outcomes looked at.
pub proof fn lemma_assemble_first_len(
    table: Seq<LanguageEntryView>,
    pairings: Seq<PairingView>,
    outcomes: Seq<Option<Seq<u8>>>,
    default_source: Seq<char>,
    n: nat,
)
    ensures
        assemble_first(table, pairings, outcomes, default_source, n).len() <= n,
    decreases n,
{
    if n > 0 {
        lemma_assemble_first_len(table, pairings, outcomes, default_source, (n - 1) as nat);
    }
}

/// There are no more results than pairings, and no more than outcomes.
pub proof fn lemma_assemble_len(
    table: Seq<LanguageEntryView>,
    pairings: Seq<PairingView>,
    outcomes: Seq<Option<Seq<u8>>>,
    default_source: Seq<char>,
)
    ensures
        assemble_spec(table, pairings, outcomes, default_source).len() <= pairings.len(),
        assemble_spec(table, pairings, outcomes, default_source).len() <= outcomes.len(),
{
    lemma_assemble_first_len(
        table,
        pairings,
        outcomes,
        default_source,
        aligned_len(pairings, outcomes),
    );
}

/// Looking at more outcomes only adds results behind those already there.
pub proof fn lemma_assemble_first_grows(
    table: Seq<LanguageEntryView>,
    pairings: Seq<PairingView>,
    outcomes: Seq<Option<Seq<u8>>>,
    default_source: Seq<char>,
    n: nat,
    m: nat,
)
    requires
        n <= m,
    ensures
        assemble_first(table, pairings, outcomes, default_source, n).is_prefix_of(
            assemble_first(table, pairings, outcomes, default_source, m),
        ),
    decreases m,
{
    if n < m {
        lemma_assemble_first_grows(table, pairings, outcomes, default_source, n, (m - 1) as nat);
    }
}

/// An outcome that decodes gives its result whatever became of the other
/// requests: the result stands in the list, behind the results of the
/// outcomes before it and ahead of the results of those after it.
pub proof fn lemma_success_survives(
    table: Seq<LanguageEntryView>,
    pairings: Seq<PairingView>,
    outcomes: Seq<Option<Seq<u8>>>,
    default_source: Seq<char>,
    i: nat,
)
    requires
        i < aligned_len(pairings, outcomes),
        result_of(table, pairings[i as int], outcomes[i as int], default_source) is Some,
    ensures
        ({
            let results = assemble_spec(table, pairings, outcomes, default_source);
            let earlier = assemble_first(table, pairings, outcomes, default_source, i);
            &&& earlier.is_prefix_of(results)
            &&& earlier.len() < results.len()
            &&& results[earlier.len() as int] == result_of(
                table,
                pairings[i as int],
                outcomes[i as int],
                default_source,
            ).unwrap()
        }),
{
    let n = aligned_len(pairings, outcomes);
    lemma_assemble_first_grows(table, pairings, outcomes, default_source, i, n);
    lemma_assemble_first_grows(table, pairings, outcomes, default_source, i + 1, n);
    // The result is the last of the first `i + 1` outcomes' results, which
    // the list begins with.
    let results = assemble_spec(table, pairings, outcomes, default_source);
    let earlier = assemble_first(table, pairings, outcomes, default_source, i);
    let next = assemble_first(table, pairings, outcomes, default_source, i + 1);
    assert(results.subrange(0, next.len() as int)[earlier.len() as int] == next[earlier.len() as int]);
}

/// The label that a language code is shown under.
fn label(table: &LanguageTable, code: &str) -> (shown: String)
    ensures
        shown@ == label_of(table@, code@),
{
    match table.display_name(code) {
        Some(name) => String::from_str(name),
        None => String::from_str(code),
    }
}

/// The result shown for `translation`, which was asked for by `pairing`.
pub fn describe(table: &LanguageTable, pairing: &Pairing, translation: Translation) -> (result:
    TranslationResult)
    ensures
        result@ == describe_spec(table@, pairing@, translation@),
{
    let mut description = label(table, translation.detected.as_str());
    description.append(" -> ");
    description.append(pairing.destination.name.as_str());
    TranslationResult { title: translation.title, description }
}

/// Puts the outcomes of a query's requests together. `outcomes[i]` is what
/// the request of `pairings[i]` brought back; an outcome without a pairing,
/// or a pairing without an outcome, is passed over.
pub fn assemble(
    table: &LanguageTable,
    pairings: &Vec<Pairing>,
    outcomes: &Vec<Outcome>,
    default_source: &str,
) -> (results: Vec<TranslationResult>)
    ensures
        result_views(results@) == assemble_spec(
            table@,
            pairing_views(pairings@),
            outcome_views(outcomes@),
            default_source@,
        ),
        results.len() <= pairings.len(),
        results.len() <= outcomes.len(),
{
    let ghost pairs = pairing_views(pairings@);
    let ghost bodies = outcome_views(outcomes@);
    let n = if pairings.len() <= outcomes.len() {
        pairings.len()
    } else {
        outcomes.len()
    };
    let mut results: Vec<TranslationResult> = Vec::new();
    let mut i: usize = 0;
    while i < n
        invariant
            i <= n,
            n == aligned_len(pairs, bodies),
            pairs == pairing_views(pairings@),
            bodies == outcome_views(outcomes@),
            result_views(results@) == assemble_first(
                table@,
                pairs,
                bodies,
                default_source@,
                i as nat,
            ),
        decreases n - i,
    {
        let pairing = &pairings[i];
        if let Some(body) = &outcomes[i] {
            let fallback = match &pairing.source {
                Some(source) => source.code.as_str(),
                None => default_source,
            };
            if let Some(translation) = decode_response(body.as_slice(), fallback) {
                results.push(describe(table, pairing, translation));
            }
        }
        i += 1;
    }
    proof {
        lemma_assemble_len(table@, pairs, bodies, default_source@);
    }
    results
}

} // verus!
