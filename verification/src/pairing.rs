//! Candidate pairing and ranking.
//!
//! Every source candidate is paired with every destination candidate, or,
//! where the query names no source, every destination candidate stands alone.
//! The pairings are then ranked by combined score, best first, pairings of
//! equal score keeping the order in which they were generated.

use crate::resolver::{candidate_views, CandidateView, ScoredCandidate};
use vstd::prelude::*;

verus! {

/// A source and a destination language considered for one translation.
#[derive(Debug, PartialEq, Eq)]
pub struct Pairing {
    /// The source language; `None` leaves its detection to the service.
    pub source: Option<ScoredCandidate>,
    pub destination: ScoredCandidate,
}

/// The model of a [`Pairing`].
pub struct PairingView {
    pub source: Option<CandidateView>,
    pub destination: CandidateView,
}

impl PairingView {
    /// The score a pairing is ranked by: the destination's score, plus the
    /// source's where there is a source.
    pub open spec fn combined_score(self) -> int {
        match self.source {
            Some(source) => source.score + self.destination.score,
            None => self.destination.score,
        }
    }
}

impl View for Pairing {
    type V = PairingView;

    open spec fn view(&self) -> PairingView {
        PairingView {
            source: match self.source {
                Some(source) => Some(source@),
                None => None,
            },
            destination: self.destination@,
        }
    }
}

impl Pairing {
    /// The score this pairing is ranked by.
    pub fn combined_score(&self) -> (score: i128)
        ensures
            score == self@.combined_score(),
    {
        match &self.source {
            Some(source) => source.score as i128 + self.destination.score as i128,
            None => self.destination.score as i128,
        }
    }
}

/// The models of a sequence of pairings.
pub open spec fn pairing_views(pairings: Seq<Pairing>) -> Seq<PairingView> {
    pairings.map_values(|p: Pairing| p@)
}

/// One source, or none, paired with each destination in turn.
pub open spec fn pair_with(source: Option<CandidateView>, destinations: Seq<CandidateView>) -> Seq<
    PairingView,
> {
    destinations.map_values(|destination: CandidateView| PairingView { source, destination })
}

/// Every source paired with every destination: the pairings of the first
/// source, then those of the second, and so on.
pub open spec fn cross_pairs(sources: Seq<CandidateView>, destinations: Seq<CandidateView>) -> Seq<
    PairingView,
>
    decreases sources.len(),
{
    if sources.len() == 0 {
        Seq::empty()
    } else {
        cross_pairs(sources.drop_last(), destinations) + pair_with(
            Some(sources.last()),
            destinations,
        )
    }
}

/// The pairings generated from the candidates of a query.
pub open spec fn pairings_spec(
    sources: Option<Seq<CandidateView>>,
    destinations: Seq<CandidateView>,
) -> Seq<PairingView> {
    match sources {
        Some(sources) => cross_pairs(sources, destinations),
        None => pair_with(None, destinations),
    }
}

/// `p` put into a ranking ahead of the first pairing that does not beat it.
pub open spec fn insert_ahead(ranking: Seq<PairingView>, p: PairingView) -> Seq<PairingView>
    decreases ranking.len(),
{
    if ranking.len() == 0 || ranking.first().combined_score() <= p.combined_score() {
        seq![p] + ranking
    } else {
        seq![ranking.first()] + insert_ahead(ranking.drop_first(), p)
    }
}

/// The pairings by combined score, best first; pairings of equal score keep
/// their order.
pub open spec fn ranked(pairings: Seq<PairingView>) -> Seq<PairingView>
    decreases pairings.len(),
{
    if pairings.len() == 0 {
        pairings
    } else {
        insert_ahead(ranked(pairings.drop_first()), pairings.first())
    }
}

/// The first `limit` pairings of the ranking; all of them where there are
/// fewer.
pub open spec fn top_ranked(pairings: Seq<PairingView>, limit: nat) -> Seq<PairingView> {
    if limit < pairings.len() {
        ranked(pairings).take(limit as int)
    } else {
        ranked(pairings)
    }
}

/// Whether the scores of `ranking` never rise.
pub open spec fn is_descending(ranking: Seq<PairingView>) -> bool {
    forall|i: int, j: int|
        0 <= i < j < ranking.len() ==> (#[trigger] ranking[i]).combined_score() >= (
        #[trigger] ranking[j]).combined_score()
}

/// The pairings of `pairings` whose combined score is `score`, in their
/// order.
pub open spec fn with_score(pairings: Seq<PairingView>, score: int) -> Seq<PairingView> {
    pairings.filter(|p: PairingView| p.combined_score() == score)
}

/// The view of an optional list of candidates.
pub open spec fn optional_candidate_views(candidates: Option<&Vec<ScoredCandidate>>) -> Option<
    Seq<CandidateView>,
> {
    match candidates {
        Some(list) => Some(candidate_views(list@)),
        None => None,
    }
}

/// Whether `ranking` ranks `pairings`: its scores never rise, and for every
/// score it holds the pairings of that score that `pairings` holds, in the
/// order in which `pairings` holds them.
pub open spec fn is_stable_ranking(pairings: Seq<PairingView>, ranking: Seq<PairingView>) -> bool {
    &&& is_descending(ranking)
    &&& forall|score: int| #[trigger] with_score(ranking, score) == with_score(pairings, score)
}

/// Appends to `out` the pairings of `source` with each destination in turn.
fn push_pairs(
    out: &mut Vec<Pairing>,
    source: Option<&ScoredCandidate>,
    destinations: &Vec<ScoredCandidate>,
)
    ensures
        pairing_views(final(out)@) == pairing_views(old(out)@) + pair_with(
            match source {
                Some(s) => Some(s@),
                None => None,
            },
            candidate_views(destinations@),
        ),
{
    let ghost before = pairing_views(out@);
    let ghost source_view = match source {
        Some(s) => Some(s@),
        None => None,
    };
    let ghost row = pair_with(source_view, candidate_views(destinations@));
    let mut j: usize = 0;
    while j < destinations.len()
        invariant
            j <= destinations.len(),
            source_view == match source {
                Some(s) => Some(s@),
                None => None,
            },
            row == pair_with(source_view, candidate_views(destinations@)),
            pairing_views(out@) == before + row.take(j as int),
        decreases destinations.len() - j,
    {
        let ghost previous = pairing_views(out@);
        let copy = match source {
            Some(s) => Some(s.duplicate()),
            None => None,
        };
        out.push(Pairing { source: copy, destination: destinations[j].duplicate() });
        assert(pairing_views(out@) =~= previous.push(row[j as int]));
        j += 1;
    }
}

/// Generates the pairings of a query from its candidates: the cross product
/// where the query names a source, else one pairing for each destination.
pub fn pair_candidates(
    sources: Option<&Vec<ScoredCandidate>>,
    destinations: &Vec<ScoredCandidate>,
) -> (out: Vec<Pairing>)
    ensures
        pairing_views(out@) == pairings_spec(
            optional_candidate_views(sources),
            candidate_views(destinations@),
        ),
{
    let mut out: Vec<Pairing> = Vec::new();
    match sources {
        None => {
            push_pairs(&mut out, None, destinations);
        },
        Some(list) => {
            let ghost all = candidate_views(list@);
            let mut i: usize = 0;
            while i < list.len()
                invariant
                    i <= list.len(),
                    all == candidate_views(list@),
                    pairing_views(out@) == cross_pairs(
                        all.take(i as int),
                        candidate_views(destinations@),
                    ),
                decreases list.len() - i,
            {
                push_pairs(&mut out, Some(&list[i]), destinations);
                assert(all.take(i + 1).drop_last() =~= all.take(i as int));
                i += 1;
            }
            assert(all.take(i as int) =~= all);
        },
    }
    out
}

/// Where `p` goes in `ranking`: behind the leading pairings that beat it.
fn insertion_point(ranking: &Vec<Pairing>, p: &Pairing) -> (k: usize)
    ensures
        k <= ranking.len(),
        insert_ahead(pairing_views(ranking@), p@) == pairing_views(ranking@).insert(k as int, p@),
{
    let ghost views = pairing_views(ranking@);
    let score = p.combined_score();
    let mut k: usize = 0;
    assert(views.skip(0) =~= views);
    while k < ranking.len() && ranking[k].combined_score() > score
        invariant
            k <= ranking.len(),
            views == pairing_views(ranking@),
            score == p@.combined_score(),
            insert_ahead(views, p@) == views.take(k as int) + insert_ahead(
                views.skip(k as int),
                p@,
            ),
        decreases ranking.len() - k,
    {
        assert(views.skip(k as int).drop_first() =~= views.skip(k + 1));
        k += 1;
    }
    k
}

/// Ranks the pairings and keeps the best `max_entries` of them.
pub fn rank_pairings(pairings: Vec<Pairing>, max_entries: usize) -> (out: Vec<Pairing>)
    ensures
        pairing_views(out@) == top_ranked(pairing_views(pairings@), max_entries as nat),
{
    let ghost input = pairing_views(pairings@);
    let mut rest = pairings;
    let mut out: Vec<Pairing> = Vec::new();
    assert(input.take(rest.len() as int) =~= input);
    // `out` ranks the pairings that have left `rest`. They leave from the
    // back, so each goes in ahead of the pairings of its own score.
    while rest.len() > 0
        invariant
            rest.len() <= input.len(),
            pairing_views(rest@) == input.take(rest.len() as int),
            pairing_views(out@) == ranked(input.skip(rest.len() as int)),
        decreases rest.len(),
    {
        let ghost n = rest.len() as int;
        let p = rest.pop().unwrap();
        let k = insertion_point(&out, &p);
        out.insert(k, p);
        proof {
            assert(p@ == input.take(n)[n - 1]);
            assert(input.skip(n - 1).drop_first() =~= input.skip(n));
        }
    }
    out.truncate(max_entries);
    proof {
        lemma_ranked_len(input);
    }
    out
}

/// The cross product holds one pairing for each source and destination.
pub proof fn lemma_cross_pairs_len(sources: Seq<CandidateView>, destinations: Seq<CandidateView>)
    ensures
        cross_pairs(sources, destinations).len() == sources.len() * destinations.len(),
    decreases sources.len(),
{
    if sources.len() > 0 {
        lemma_cross_pairs_len(sources.drop_last(), destinations);
        assert((sources.len() - 1) * destinations.len() + destinations.len() == sources.len()
            * destinations.len()) by (nonlinear_arith);
    }
}

/// The pairing of source `i` with destination `j` stands at index
/// `i * destinations.len() + j` of the cross product: the pairings come
/// source by source, and destination by destination within a source.
pub proof fn lemma_cross_pairs_index(
    sources: Seq<CandidateView>,
    destinations: Seq<CandidateView>,
    i: int,
    j: int,
)
    requires
        0 <= i < sources.len(),
        0 <= j < destinations.len(),
    ensures
        0 <= i * destinations.len() + j < cross_pairs(sources, destinations).len(),
        cross_pairs(sources, destinations)[i * destinations.len() + j] == (PairingView {
            source: Some(sources[i]),
            destination: destinations[j],
        }),
    decreases sources.len(),
{
    let n = destinations.len() as int;
    lemma_cross_pairs_len(sources, destinations);
    lemma_cross_pairs_len(sources.drop_last(), destinations);
    assert(0 <= i * n && i * n + n <= sources.len() * n) by (nonlinear_arith)
        requires
            0 <= i < sources.len(),
            0 <= n,
    ;
    if i < sources.len() - 1 {
        lemma_cross_pairs_index(sources.drop_last(), destinations, i, j);
    }
}

/// Insertion lengthens a ranking by one.
pub proof fn lemma_insert_ahead_len(ranking: Seq<PairingView>, p: PairingView)
    ensures
        insert_ahead(ranking, p).len() == ranking.len() + 1,
    decreases ranking.len(),
{
    if !(ranking.len() == 0 || ranking.first().combined_score() <= p.combined_score()) {
        lemma_insert_ahead_len(ranking.drop_first(), p);
    }
}

/// Ranking neither adds nor drops a pairing.
pub proof fn lemma_ranked_len(pairings: Seq<PairingView>)
    ensures
        ranked(pairings).len() == pairings.len(),
    decreases pairings.len(),
{
    if pairings.len() > 0 {
        lemma_ranked_len(pairings.drop_first());
        lemma_insert_ahead_len(ranked(pairings.drop_first()), pairings.first());
    }
}

/// At most `limit` pairings survive, and no more than were generated.
pub proof fn lemma_top_ranked_len(pairings: Seq<PairingView>, limit: nat)
    ensures
        top_ranked(pairings, limit).len() <= limit,
        top_ranked(pairings, limit).len() <= pairings.len(),
        top_ranked(pairings, limit).len() == if limit < pairings.len() {
            limit
        } else {
            pairings.len()
        },
{
    lemma_ranked_len(pairings);
}

/// Every element of `insert_ahead(ranking, p)` is `p` or an element of
/// `ranking`.
proof fn lemma_insert_ahead_elements(ranking: Seq<PairingView>, p: PairingView, k: int)
    requires
        0 <= k < insert_ahead(ranking, p).len(),
    ensures
        insert_ahead(ranking, p)[k] == p || ranking.contains(insert_ahead(ranking, p)[k]),
    decreases ranking.len(),
{
    if ranking.len() == 0 || ranking.first().combined_score() <= p.combined_score() {
        if k > 0 {
            assert(ranking[k - 1] == insert_ahead(ranking, p)[k]);
        }
    } else {
        let rest = ranking.drop_first();
        lemma_insert_ahead_len(rest, p);
        if k == 0 {
            assert(ranking[0] == insert_ahead(ranking, p)[0]);
        } else {
            lemma_insert_ahead_elements(rest, p, k - 1);
            let x = insert_ahead(rest, p)[k - 1];
            if x != p {
                let m = choose|m: int| 0 <= m < rest.len() && rest[m] == x;
                assert(ranking[m + 1] == x);
            }
        }
    }
}

/// Dropping the first pairing of a descending ranking leaves it descending.
proof fn lemma_descending_drop_first(ranking: Seq<PairingView>)
    requires
        is_descending(ranking),
        ranking.len() > 0,
    ensures
        is_descending(ranking.drop_first()),
{
    let rest = ranking.drop_first();
    assert forall|i: int, j: int| 0 <= i < j < rest.len() implies (
    #[trigger] rest[i]).combined_score() >= (#[trigger] rest[j]).combined_score() by {
        assert(rest[i] == ranking[i + 1] && rest[j] == ranking[j + 1]);
    }
}

/// Dropping the last pairing of a descending ranking leaves it descending.
proof fn lemma_descending_drop_last(ranking: Seq<PairingView>)
    requires
        is_descending(ranking),
        ranking.len() > 0,
    ensures
        is_descending(ranking.drop_last()),
{
    let rest = ranking.drop_last();
    assert forall|i: int, j: int| 0 <= i < j < rest.len() implies (
    #[trigger] rest[i]).combined_score() >= (#[trigger] rest[j]).combined_score() by {
        assert(rest[i] == ranking[i] && rest[j] == ranking[j]);
    }
}

/// Insertion into a descending ranking leaves it descending.
proof fn lemma_insert_ahead_descending(ranking: Seq<PairingView>, p: PairingView)
    requires
        is_descending(ranking),
    ensures
        is_descending(insert_ahead(ranking, p)),
    decreases ranking.len(),
{
    let out = insert_ahead(ranking, p);
    if ranking.len() == 0 || ranking.first().combined_score() <= p.combined_score() {
        // `p` leads, and beats or equals the old leader, which beats or
        // equals the rest.
        assert forall|i: int, j: int| 0 <= i < j < out.len() implies (
        #[trigger] out[i]).combined_score() >= (#[trigger] out[j]).combined_score() by {
            assert(out[j] == ranking[j - 1]);
            if i > 0 {
                assert(out[i] == ranking[i - 1]);
            } else if j > 1 {
                assert(ranking[0].combined_score() >= ranking[j - 1].combined_score());
            }
        }
    } else {
        // The old leader stays, and beats `p` and every other pairing behind
        // it.
        let rest = ranking.drop_first();
        let tail = insert_ahead(rest, p);
        lemma_descending_drop_first(ranking);
        lemma_insert_ahead_descending(rest, p);
        lemma_insert_ahead_len(rest, p);
        assert forall|i: int, j: int| 0 <= i < j < out.len() implies (
        #[trigger] out[i]).combined_score() >= (#[trigger] out[j]).combined_score() by {
            assert(out[j] == tail[j - 1]);
            if i > 0 {
                assert(out[i] == tail[i - 1]);
            } else {
                lemma_insert_ahead_elements(rest, p, j - 1);
                if tail[j - 1] != p {
                    let m = choose|m: int| 0 <= m < rest.len() && rest[m] == tail[j - 1];
                    assert(rest[m] == ranking[m + 1]);
                }
            }
        }
    }
}

/// The scores of a ranking never rise.
pub proof fn lemma_ranked_descending(pairings: Seq<PairingView>)
    ensures
        is_descending(ranked(pairings)),
    decreases pairings.len(),
{
    if pairings.len() > 0 {
        lemma_ranked_descending(pairings.drop_first());
        lemma_insert_ahead_descending(ranked(pairings.drop_first()), pairings.first());
    }
}

/// The pairings of one score among a single pairing.
proof fn lemma_with_score_single(p: PairingView, score: int)
    ensures
        with_score(seq![p], score) == if p.combined_score() == score {
            seq![p]
        } else {
            Seq::empty()
        },
{
    reveal_with_fuel(Seq::filter, 2);
}

/// The pairings of one score in a sequence with a pairing put in front.
proof fn lemma_with_score_first(pairings: Seq<PairingView>, score: int)
    requires
        pairings.len() > 0,
    ensures
        with_score(pairings, score) == with_score(seq![pairings.first()], score) + with_score(
            pairings.drop_first(),
            score,
        ),
{
    assert(pairings =~= seq![pairings.first()] + pairings.drop_first());
    Seq::filter_distributes_over_add(
        seq![pairings.first()],
        pairings.drop_first(),
        |q: PairingView| q.combined_score() == score,
    );
}

/// The pairings of one score in a sequence with a pairing put behind.
proof fn lemma_with_score_last(pairings: Seq<PairingView>, score: int)
    requires
        pairings.len() > 0,
    ensures
        with_score(pairings, score) == if pairings.last().combined_score() == score {
            with_score(pairings.drop_last(), score).push(pairings.last())
        } else {
            with_score(pairings.drop_last(), score)
        },
{
    reveal(Seq::filter);
}

/// Among the pairings of its own score, an inserted pairing comes first; the
/// pairings of every other score are left as they were.
proof fn lemma_insert_ahead_with_score(ranking: Seq<PairingView>, p: PairingView, score: int)
    ensures
        with_score(insert_ahead(ranking, p), score) == with_score(seq![p], score) + with_score(
            ranking,
            score,
        ),
    decreases ranking.len(),
{
    let out = insert_ahead(ranking, p);
    lemma_insert_ahead_len(ranking, p);
    lemma_with_score_first(out, score);
    lemma_with_score_single(p, score);
    if ranking.len() == 0 || ranking.first().combined_score() <= p.combined_score() {
        assert(out.drop_first() =~= ranking);
    } else {
        // `p` goes in behind the leader, whose score is not the score of `p`.
        let rest = ranking.drop_first();
        assert(out.drop_first() =~= insert_ahead(rest, p));
        lemma_insert_ahead_with_score(rest, p, score);
        lemma_with_score_first(ranking, score);
        lemma_with_score_single(ranking.first(), score);
    }
}

/// Ranking is stable: the pairings of any one score stand in the ranking in
/// the order in which they were generated.
pub proof fn lemma_ranked_stable(pairings: Seq<PairingView>, score: int)
    ensures
        with_score(ranked(pairings), score) == with_score(pairings, score),
    decreases pairings.len(),
{
    if pairings.len() > 0 {
        lemma_ranked_stable(pairings.drop_first(), score);
        lemma_insert_ahead_with_score(ranked(pairings.drop_first()), pairings.first(), score);
        lemma_with_score_first(pairings, score);
    }
}

/// Insertion adds exactly the inserted pairing.
proof fn lemma_insert_ahead_multiset(ranking: Seq<PairingView>, p: PairingView)
    ensures
        insert_ahead(ranking, p).to_multiset() == ranking.to_multiset().insert(p),
    decreases ranking.len(),
{
    broadcast use vstd::seq_lib::group_to_multiset_ensures;

    if ranking.len() == 0 || ranking.first().combined_score() <= p.combined_score() {
        assert(seq![p] + ranking =~= ranking.insert(0, p));
    } else {
        let head = ranking.first();
        let rest = ranking.drop_first();
        let tail = insert_ahead(rest, p);
        lemma_insert_ahead_multiset(rest, p);
        assert(seq![head] + tail =~= tail.insert(0, head));
        assert(ranking =~= rest.insert(0, head));
    }
}

/// A ranking holds the pairings it was made of, each as often as it was
/// generated.
pub proof fn lemma_ranked_permutation(pairings: Seq<PairingView>)
    ensures
        ranked(pairings).to_multiset() == pairings.to_multiset(),
    decreases pairings.len(),
{
    broadcast use vstd::seq_lib::group_to_multiset_ensures;

    if pairings.len() > 0 {
        let rest = pairings.drop_first();
        lemma_ranked_permutation(rest);
        lemma_insert_ahead_multiset(ranked(rest), pairings.first());
        assert(pairings =~= rest.insert(0, pairings.first()));
    }
}

/// `ranked` ranks.
pub proof fn lemma_ranked_is_stable_ranking(pairings: Seq<PairingView>)
    ensures
        is_stable_ranking(pairings, ranked(pairings)),
{
    lemma_ranked_descending(pairings);
    assert forall|score: int| #[trigger]
        with_score(ranked(pairings), score) == with_score(pairings, score) by {
        lemma_ranked_stable(pairings, score);
    }
}

/// A sequence that holds pairings of a score holds one at some index.
proof fn lemma_with_score_witness(pairings: Seq<PairingView>, score: int) -> (i: int)
    requires
        with_score(pairings, score).len() > 0,
    ensures
        0 <= i < pairings.len(),
        pairings[i].combined_score() == score,
    decreases pairings.len(),
{
    if pairings.len() == 0 {
        reveal(Seq::filter);
        0
    } else {
        lemma_with_score_last(pairings, score);
        if pairings.last().combined_score() == score {
            pairings.len() - 1
        } else {
            lemma_with_score_witness(pairings.drop_last(), score)
        }
    }
}

/// Two descending sequences that agree score by score are equal.
proof fn lemma_rankings_agree(a: Seq<PairingView>, b: Seq<PairingView>)
    requires
        is_descending(a),
        is_descending(b),
        forall|score: int| #[trigger] with_score(a, score) == with_score(b, score),
    ensures
        a == b,
    decreases a.len(),
{
    if a.len() == 0 {
        if b.len() > 0 {
            // `b` would hold a pairing of a score of which `a` holds none.
            let u = b.last().combined_score();
            lemma_with_score_last(b, u);
            assert(with_score(a, u) == with_score(b, u));
            reveal(Seq::filter);
        }
    } else {
        // Both end in the same pairing: the last one of the lowest score.
        let x = a.last();
        let y = b.last();
        let w = x.combined_score();
        let u = y.combined_score();
        lemma_with_score_last(a, w);
        lemma_with_score_last(b, u);
        let w_in_b = lemma_with_score_witness(b, w);
        let u_in_a = lemma_with_score_witness(a, u);
        assert(u == w);
        assert(y == x) by {
            assert(with_score(b, w).last() == y);
        }
        let shorter_a = a.drop_last();
        let shorter_b = b.drop_last();
        lemma_descending_drop_last(a);
        lemma_descending_drop_last(b);
        assert forall|score: int| #[trigger]
            with_score(shorter_a, score) == with_score(shorter_b, score) by {
            lemma_with_score_last(a, score);
            lemma_with_score_last(b, score);
            if score == w {
                assert(with_score(shorter_a, score) == with_score(a, score).drop_last());
            }
        }
        lemma_rankings_agree(shorter_a, shorter_b);
        assert(a =~= shorter_a.push(x));
    }
}

/// The ranking is determined: whatever ranks `pairings` is `ranked(pairings)`.
pub proof fn lemma_stable_ranking_unique(pairings: Seq<PairingView>, ranking: Seq<PairingView>)
    requires
        is_stable_ranking(pairings, ranking),
    ensures
        ranking == ranked(pairings),
{
    lemma_ranked_is_stable_ranking(pairings);
    lemma_rankings_agree(ranking, ranked(pairings));
}

} // verus!
