//! The pipeline from a query to its results.
//!
//! Resolving a query has three steps. The first plans the query: it parses
//! the input, resolves the language tokens and ranks the pairings. The second
//! asks the translation service, once for each pairing that is left; that
//! step is the caller's, who may run the requests side by side and must wait
//! for all of them. The third puts what came back together.

use crate::assembler::{
    assemble, assemble_spec, outcome_views, result_views, Outcome, TranslationResult,
};
use crate::config::{Config, ConfigView};
use crate::language::{LanguageEntryView, LanguageTable};
use crate::pairing::{
    lemma_top_ranked_len, pair_candidates, pairing_views, pairings_spec, rank_pairings,
    top_ranked, Pairing, PairingView,
};
use crate::query::{parse_query, parse_query_spec, ParsedQueryView};
use crate::request::{build_requests, request_views, requests_spec, TranslationRequest};
use crate::resolver::{resolve_language, resolve_spec};
use crate::text::{first_whitespace, is_blank};
use vstd::prelude::*;
use vstd::string::{StrSliceExecFns, StringExecFns};

verus! {

/// What is to be asked of the translation service for one query.
#[derive(Debug, PartialEq, Eq)]
pub struct QueryPlan {
    /// The text to translate.
    pub text: String,
    /// The pairings to ask for, best first.
    pub pairings: Vec<Pairing>,
}

/// The model of a [`QueryPlan`].
pub struct PlanView {
    pub text: Seq<char>,
    pub pairings: Seq<PairingView>,
}

impl View for QueryPlan {
    type V = PlanView;

    open spec fn view(&self) -> PlanView {
        PlanView { text: self.text@, pairings: pairing_views(self.pairings@) }
    }
}

/// The plan that asks for nothing.
pub open spec fn empty_plan() -> PlanView {
    PlanView { text: Seq::empty(), pairings: Seq::empty() }
}

/// The pairings that a parsed query generates, before they are ranked: none
/// where its destination token matches no language.
pub open spec fn generated_pairings(
    table: Seq<LanguageEntryView>,
    query: ParsedQueryView,
) -> Seq<PairingView> {
    let destinations = resolve_spec(table, query.destination);
    if destinations.len() == 0 {
        Seq::empty()
    } else {
        pairings_spec(
            match query.source {
                Some(token) => Some(resolve_spec(table, token)),
                None => None,
            },
            destinations,
        )
    }
}

/// The plan of a query: nothing where the input is no query or its
/// destination matches no language, else the best `max_entries` of the
/// pairings it generates.
pub open spec fn plan_spec(
    config: ConfigView,
    table: Seq<LanguageEntryView>,
    input: Seq<char>,
) -> PlanView {
    match parse_query_spec(input, config.prefix, config.language_delimiter) {
        None => empty_plan(),
        Some(query) => {
            let generated = generated_pairings(table, query);
            if generated.len() == 0 {
                empty_plan()
            } else {
                PlanView { text: query.text, pairings: top_ranked(generated, config.max_entries) }
            }
        },
    }
}

/// Whether `input` holds nothing to translate: behind the prefix there is no
/// whitespace, or nothing but whitespace behind the first of it.
pub open spec fn lacks_text(prefix: Seq<char>, input: Seq<char>) -> bool {
    let rest = input.skip(prefix.len() as int);
    match first_whitespace(rest) {
        Some(w) => is_blank(rest.skip(w + 1)),
        None => true,
    }
}

/// An input that does not begin with the prefix asks for nothing.
pub proof fn lemma_plan_without_prefix(
    config: ConfigView,
    table: Seq<LanguageEntryView>,
    input: Seq<char>,
)
    requires
        !config.prefix.is_prefix_of(input),
    ensures
        plan_spec(config, table, input).pairings.len() == 0,
{
}

/// An input that begins with the prefix but holds nothing to translate asks
/// for nothing.
pub proof fn lemma_plan_without_text(
    config: ConfigView,
    table: Seq<LanguageEntryView>,
    input: Seq<char>,
)
    requires
        config.prefix.is_prefix_of(input),
        lacks_text(config.prefix, input),
    ensures
        plan_spec(config, table, input).pairings.len() == 0,
{
}

/// A plan asks for at most `max_entries` translations, and for no more than
/// the query generates pairings.
pub proof fn lemma_plan_len(config: ConfigView, table: Seq<LanguageEntryView>, input: Seq<char>)
    ensures
        plan_spec(config, table, input).pairings.len() <= config.max_entries,
        parse_query_spec(input, config.prefix, config.language_delimiter) matches Some(query)
            ==> plan_spec(config, table, input).pairings.len() <= generated_pairings(
            table,
            query,
        ).len(),
{
    match parse_query_spec(input, config.prefix, config.language_delimiter) {
        None => {},
        Some(query) => {
            lemma_top_ranked_len(generated_pairings(table, query), config.max_entries);
        },
    }
}

/// Plans a query.
pub fn plan_query(config: &Config, table: &LanguageTable, input: &str) -> (plan: QueryPlan)
    ensures
        plan@ == plan_spec(config@, table@, input@),
        plan.pairings.len() <= config.max_entries,
{
    proof {
        lemma_plan_len(config@, table@, input@);
    }
    let nothing = QueryPlan { text: String::new(), pairings: Vec::new() };
    assert(nothing@.pairings =~= Seq::empty());
    let query = match parse_query(
        input,
        config.prefix.as_str(),
        config.language_delimiter.as_str(),
    ) {
        Some(query) => query,
        None => {
            return nothing;
        },
    };
    let destinations = resolve_language(table, query.destination);
    if destinations.len() == 0 {
        return nothing;
    }
    let generated = match query.source {
        Some(token) => {
            let sources = resolve_language(table, token);
            pair_candidates(Some(&sources), &destinations)
        },
        None => pair_candidates(None, &destinations),
    };
    if generated.len() == 0 {
        return nothing;
    }
    let pairings = rank_pairings(generated, config.max_entries);
    QueryPlan { text: String::from_str(query.text), pairings }
}

impl QueryPlan {
    /// The requests of the plan: the request of `pairings[i]` at index `i`.
    pub fn requests(&self) -> (requests: Vec<TranslationRequest>)
        ensures
            request_views(requests@) == requests_spec(self@.pairings, self@.text),
    {
        build_requests(&self.pairings, self.text.as_str())
    }
}

/// Resolves a query: plans it, has `fetch` carry out the requests of the
/// plan, and puts together what `fetch` brings back. `fetch` is handed the
/// requests in ranked order and returns, at index `i`, the outcome of the
/// request at index `i`; it is expected to send the requests together and to
/// wait for every one of them. Where the plan asks for nothing, `fetch` is
/// not called.
pub fn resolve<F>(config: &Config, table: &LanguageTable, input: &str, fetch: F) -> (results: Vec<
    TranslationResult,
>) where F: FnOnce(Vec<TranslationRequest>) -> Vec<Outcome>
    requires
        forall|requests: Vec<TranslationRequest>|
            request_views(requests@) == requests_spec(
                plan_spec(config@, table@, input@).pairings,
                plan_spec(config@, table@, input@).text,
            ) ==> call_requires(fetch, (requests,)),
    ensures
        !config@.prefix.is_prefix_of(input@) ==> results.len() == 0,
        lacks_text(config@.prefix, input@) ==> results.len() == 0,
        plan_spec(config@, table@, input@).pairings.len() == 0 ==> results.len() == 0,
        results.len() <= config.max_entries,
        results.len() <= plan_spec(config@, table@, input@).pairings.len(),
        parse_query_spec(input@, config@.prefix, config@.language_delimiter) matches Some(query)
            ==> results.len() <= generated_pairings(table@, query).len(),
        plan_spec(config@, table@, input@).pairings.len() > 0 ==> exists|
            requests: Vec<TranslationRequest>,
            outcomes: Vec<Outcome>,
        |
            {
                &&& request_views(requests@) == requests_spec(
                    plan_spec(config@, table@, input@).pairings,
                    plan_spec(config@, table@, input@).text,
                )
                &&& call_ensures(fetch, (requests,), outcomes)
                &&& result_views(results@) == assemble_spec(
                    table@,
                    plan_spec(config@, table@, input@).pairings,
                    outcome_views(outcomes@),
                    config@.default_source,
                )
            },
{
    proof {
        lemma_plan_len(config@, table@, input@);
    }
    let plan = plan_query(config, table, input);
    if plan.pairings.len() == 0 {
        return Vec::new();
    }
    let outcomes = fetch(plan.requests());
    assemble(table, &plan.pairings, &outcomes, config.default_source.as_str())
}

/// What selecting a result hands on: its translated text, as UTF-8.
pub fn on_select(selection: &TranslationResult) -> (bytes: Vec<u8>)
    ensures
        bytes@ == vstd::utf8::encode_utf8(selection@.title),
{
    selection.title.as_str().as_bytes_vec()
}

} // verus!
