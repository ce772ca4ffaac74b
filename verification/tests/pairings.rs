use translate::pairing::{pair_candidates, rank_pairings, Pairing};
use translate::resolver::ScoredCandidate;

fn candidate(code: &str, score: i64) -> ScoredCandidate {
    ScoredCandidate { code: code.to_string(), name: code.to_uppercase(), score }
}

fn auto(code: &str, score: i64) -> Pairing {
    Pairing { source: None, destination: candidate(code, score) }
}

fn pair(source: &str, s: i64, destination: &str, d: i64) -> Pairing {
    Pairing { source: Some(candidate(source, s)), destination: candidate(destination, d) }
}

fn names(pairings: &[Pairing]) -> Vec<String> {
    pairings
        .iter()
        .map(|p| match &p.source {
            Some(s) => format!("{}>{}", s.code, p.destination.code),
            None => format!(">{}", p.destination.code),
        })
        .collect()
}

#[test]
fn combined_score_adds_source_and_destination() {
    assert_eq!(pair("en", 51, "uk", 49).combined_score(), 100);
    assert_eq!(pair("en", -5, "uk", 3).combined_score(), -2);
    assert_eq!(auto("uk", 49).combined_score(), 49);
    assert_eq!(auto("uk", -49).combined_score(), -49);
}

#[test]
fn combined_score_does_not_overflow() {
    let top = i64::MAX;
    assert_eq!(pair("a", top, "b", top).combined_score(), 2 * (top as i128));
    let bottom = i64::MIN;
    assert_eq!(pair("a", bottom, "b", bottom).combined_score(), 2 * (bottom as i128));
    assert_eq!(pair("a", top, "b", bottom).combined_score(), -1);
}

#[test]
fn every_source_is_paired_with_every_destination() {
    let sources = vec![candidate("a", 1), candidate("b", 2)];
    let destinations = vec![candidate("x", 10), candidate("y", 20), candidate("z", 30)];
    let out = pair_candidates(Some(&sources), &destinations);
    assert_eq!(names(&out), vec!["a>x", "a>y", "a>z", "b>x", "b>y", "b>z"]);
    let scores: Vec<i128> = out.iter().map(|p| p.combined_score()).collect();
    assert_eq!(scores, vec![11, 21, 31, 12, 22, 32]);
    assert_eq!(out[4].source.as_ref().unwrap().name, "B");
    assert_eq!(out[4].destination.name, "Y");
}

#[test]
fn without_a_source_each_destination_stands_alone() {
    let destinations = vec![candidate("x", 10), candidate("y", 20)];
    let out = pair_candidates(None, &destinations);
    assert_eq!(names(&out), vec![">x", ">y"]);
    assert!(out.iter().all(|p| p.source.is_none()));
    assert_eq!(out[1].combined_score(), 20);
}

#[test]
fn no_candidates_give_no_pairings() {
    let some = vec![candidate("x", 10)];
    let none: Vec<ScoredCandidate> = Vec::new();
    assert!(pair_candidates(Some(&none), &some).is_empty());
    assert!(pair_candidates(Some(&some), &none).is_empty());
    assert!(pair_candidates(None, &none).is_empty());
}

#[test]
fn ranking_puts_the_best_first() {
    let out = rank_pairings(vec![auto("a", 5), auto("b", 50), auto("c", -3), auto("d", 20)], 10);
    assert_eq!(names(&out), vec![">b", ">d", ">a", ">c"]);
}

#[test]
fn ranking_keeps_the_order_of_equal_scores() {
    let out = rank_pairings(
        vec![
            pair("a", 1, "x", 9),
            pair("b", 5, "x", 9),
            pair("c", 2, "y", 8),
            pair("d", 9, "z", 5),
            pair("e", 10, "z", 0),
            pair("f", 0, "z", 20),
            pair("g", 7, "z", 7),
        ],
        10,
    );
    assert_eq!(names(&out), vec!["f>z", "b>x", "d>z", "g>z", "a>x", "c>y", "e>z"]);
}

#[test]
fn ranking_of_all_equal_scores_changes_nothing() {
    let out = rank_pairings(vec![auto("c", 7), auto("a", 7), auto("b", 7)], 10);
    assert_eq!(names(&out), vec![">c", ">a", ">b"]);
}

#[test]
fn ranking_goes_by_the_sum_not_by_either_score() {
    let out = rank_pairings(vec![pair("a", 100, "x", -90), pair("b", 6, "y", 5)], 10);
    assert_eq!(names(&out), vec!["b>y", "a>x"]);
}

#[test]
fn ranking_is_cut_to_the_limit() {
    let all = || vec![auto("a", 5), auto("b", 50), auto("c", -3), auto("d", 20)];
    assert_eq!(names(&rank_pairings(all(), 2)), vec![">b", ">d"]);
    assert_eq!(names(&rank_pairings(all(), 1)), vec![">b"]);
    assert_eq!(names(&rank_pairings(all(), 4)), vec![">b", ">d", ">a", ">c"]);
    assert_eq!(names(&rank_pairings(all(), usize::MAX)), vec![">b", ">d", ">a", ">c"]);
    assert!(rank_pairings(all(), 0).is_empty());
}

#[test]
fn ranking_of_nothing_is_nothing() {
    assert!(rank_pairings(Vec::new(), 3).is_empty());
}

#[test]
fn ranking_handles_extreme_scores() {
    let out = rank_pairings(
        vec![
            pair("a", i64::MIN, "x", i64::MIN),
            pair("b", i64::MAX, "x", i64::MAX),
            pair("c", i64::MAX, "x", i64::MIN),
            pair("d", i64::MIN, "x", i64::MAX),
        ],
        10,
    );
    assert_eq!(names(&out), vec!["b>x", "c>x", "d>x", "a>x"]);
}

#[test]
fn ranking_is_the_same_every_time() {
    let make = || pair_candidates(
        Some(&vec![candidate("a", 3), candidate("b", 3), candidate("c", 4)]),
        &vec![candidate("x", 1), candidate("y", 2), candidate("z", 1)],
    );
    let first = names(&rank_pairings(make(), 5));
    assert_eq!(first, vec!["c>y", "a>y", "b>y", "c>x", "c>z"]);
    for _ in 0..3 {
        assert_eq!(names(&rank_pairings(make(), 5)), first);
    }
}
