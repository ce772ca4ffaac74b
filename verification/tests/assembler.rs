use translate::assembler::{assemble, describe, Outcome, TranslationResult};
use translate::decoder::Translation;
use translate::language::LanguageTable;
use translate::pairing::Pairing;
use translate::resolver::ScoredCandidate;

fn candidate(code: &str, name: &str) -> ScoredCandidate {
    ScoredCandidate { code: code.to_string(), name: name.to_string(), score: 1 }
}

fn from(source: &str, source_name: &str, destination: &str, name: &str) -> Pairing {
    Pairing { source: Some(candidate(source, source_name)), destination: candidate(destination, name) }
}

fn auto(destination: &str, name: &str) -> Pairing {
    Pairing { source: None, destination: candidate(destination, name) }
}

fn body(text: &str) -> Outcome {
    Some(text.as_bytes().to_vec())
}

fn shown(results: &[TranslationResult]) -> Vec<(String, String)> {
    results.iter().map(|r| (r.title.clone(), r.description.clone())).collect()
}

fn row(title: &str, description: &str) -> (String, String) {
    (title.to_string(), description.to_string())
}

#[test]
fn crafted_response_is_labelled_with_both_languages() {
    let table = LanguageTable::standard();
    let pairings = vec![from("en", "English", "uk", "Ukrainian")];
    let results = assemble(&table, &pairings, &vec![body("[[[\"Привіт\"]],null,\"uk\"]")], "auto");
    assert_eq!(results.len(), 1);
    assert_eq!(results[0].title, "Привіт");
    assert_eq!(results[0].description, "Ukrainian -> Ukrainian");
    assert!(results[0].description.contains("Ukrainian"));
}

#[test]
fn detected_language_is_shown_by_its_name() {
    let table = LanguageTable::standard();
    let results = assemble(
        &table,
        &vec![auto("uk", "Ukrainian")],
        &vec![body("[[[\"Привіт\"]],null,\"en\"]")],
        "auto",
    );
    assert_eq!(shown(&results), vec![row("Привіт", "English -> Ukrainian")]);
}

#[test]
fn unknown_detected_language_is_shown_by_its_code() {
    let table = LanguageTable::standard();
    let results = assemble(
        &table,
        &vec![auto("uk", "Ukrainian")],
        &vec![body("[[[\"Привіт\"]],null,\"de\"]")],
        "auto",
    );
    assert_eq!(shown(&results), vec![row("Привіт", "de -> Ukrainian")]);
}

#[test]
fn undetected_language_falls_back_to_the_declared_source() {
    let table = LanguageTable::standard();
    let results = assemble(
        &table,
        &vec![from("en", "English", "uk", "Ukrainian")],
        &vec![body("[[[\"Привіт\"]]]")],
        "auto",
    );
    assert_eq!(shown(&results), vec![row("Привіт", "English -> Ukrainian")]);
}

#[test]
fn undetected_language_of_an_open_source_falls_back_to_the_default() {
    let table = LanguageTable::standard();
    let pairings = vec![auto("uk", "Ukrainian")];
    let results = assemble(&table, &pairings, &vec![body("[[[\"Привіт\"]],null,null]")], "auto");
    assert_eq!(shown(&results), vec![row("Привіт", "auto -> Ukrainian")]);
    let results = assemble(&table, &pairings, &vec![body("[[[\"Привіт\"]],null,null]")], "en");
    assert_eq!(shown(&results), vec![row("Привіт", "English -> Ukrainian")]);
}

#[test]
fn destination_is_shown_under_the_name_of_its_pairing() {
    let table = LanguageTable::standard();
    let results = assemble(
        &table,
        &vec![from("en", "English", "uk", "Ukrainisch")],
        &vec![body("[[[\"x\"]],null,\"en\"]")],
        "auto",
    );
    assert_eq!(shown(&results), vec![row("x", "English -> Ukrainisch")]);
}

#[test]
fn failed_request_does_not_hide_the_others() {
    let table = LanguageTable::standard();
    let pairings = vec![auto("uk", "Ukrainian"), auto("en", "English"), auto("de", "German")];
    let good = "[[[\"ok\"]],null,\"uk\"]";
    let results = assemble(&table, &pairings, &vec![None, body(good), body(good)], "auto");
    assert_eq!(shown(&results), vec![row("ok", "Ukrainian -> English"), row("ok", "Ukrainian -> German")]);
    let results = assemble(&table, &pairings, &vec![body(good), None, body(good)], "auto");
    assert_eq!(shown(&results), vec![row("ok", "Ukrainian -> Ukrainian"), row("ok", "Ukrainian -> German")]);
    let results = assemble(&table, &pairings, &vec![body(good), body(good), None], "auto");
    assert_eq!(shown(&results), vec![row("ok", "Ukrainian -> Ukrainian"), row("ok", "Ukrainian -> English")]);
    let results = assemble(&table, &pairings, &vec![None, None, None], "auto");
    assert!(results.is_empty());
}

#[test]
fn malformed_body_does_not_hide_the_others() {
    let table = LanguageTable::standard();
    let pairings = vec![auto("uk", "Ukrainian"), auto("en", "English"), auto("de", "German")];
    let outcomes = vec![body("<html>"), body("[[[\"b\"]],null,\"uk\"]"), body("[null]")];
    let results = assemble(&table, &pairings, &outcomes, "auto");
    assert_eq!(shown(&results), vec![row("b", "Ukrainian -> English")]);
}

#[test]
fn results_keep_the_order_of_the_pairings() {
    let table = LanguageTable::standard();
    let pairings = vec![auto("c", "C"), auto("a", "A"), auto("b", "B")];
    let outcomes = vec![
        body("[[[\"third\"]],null,\"en\"]"),
        body("[[[\"first\"]],null,\"en\"]"),
        body("[[[\"second\"]],null,\"en\"]"),
    ];
    let results = assemble(&table, &pairings, &outcomes, "auto");
    assert_eq!(
        shown(&results),
        vec![row("third", "English -> C"), row("first", "English -> A"), row("second", "English -> B")]
    );
}

#[test]
fn no_more_results_than_pairings_or_outcomes() {
    let table = LanguageTable::standard();
    let good = "[[[\"ok\"]],null,\"uk\"]";
    let pairings = vec![auto("uk", "Ukrainian"), auto("en", "English")];
    let results = assemble(&table, &pairings, &vec![body(good), body(good), body(good)], "auto");
    assert_eq!(results.len(), 2);
    let results = assemble(&table, &pairings, &vec![body(good)], "auto");
    assert_eq!(shown(&results), vec![row("ok", "Ukrainian -> Ukrainian")]);
    assert!(assemble(&table, &pairings, &Vec::new(), "auto").is_empty());
    assert!(assemble(&table, &Vec::new(), &vec![body(good)], "auto").is_empty());
}

#[test]
fn description_of_a_translation() {
    let table = LanguageTable::standard();
    let pairing = from("en", "English", "uk", "Ukrainian");
    let t = Translation { title: "Привіт".to_string(), detected: "en".to_string() };
    let r = describe(&table, &pairing, t);
    assert_eq!(r.title, "Привіт");
    assert_eq!(r.description, "English -> Ukrainian");
    let t = Translation { title: String::new(), detected: "tlh".to_string() };
    let r = describe(&table, &pairing, t);
    assert_eq!(r.title, "");
    assert_eq!(r.description, "tlh -> Ukrainian");
}
