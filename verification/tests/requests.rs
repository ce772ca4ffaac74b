use translate::pairing::Pairing;
use translate::request::{build_requests, TranslationRequest, AUTO_DETECT, ENDPOINT};
use translate::resolver::ScoredCandidate;

fn candidate(code: &str, name: &str) -> ScoredCandidate {
    ScoredCandidate { code: code.to_string(), name: name.to_string(), score: 1 }
}

#[test]
fn request_of_a_pairing_with_a_source() {
    let p = Pairing { source: Some(candidate("en", "English")), destination: candidate("uk", "Ukrainian") };
    let r = TranslationRequest::for_pairing(&p, "Hello");
    assert_eq!(r.source.as_deref(), Some("en"));
    assert_eq!(r.destination, "uk");
    assert_eq!(r.text, "Hello");
}

#[test]
fn request_of_a_pairing_without_a_source() {
    let p = Pairing { source: None, destination: candidate("uk", "Ukrainian") };
    let r = TranslationRequest::for_pairing(&p, "Hello world");
    assert_eq!(r.source, None);
    assert_eq!(r.destination, "uk");
    assert_eq!(r.text, "Hello world");
}

#[test]
fn address_of_a_request() {
    let r = TranslationRequest {
        source: Some("en".to_string()),
        destination: "uk".to_string(),
        text: "Hello".to_string(),
    };
    assert_eq!(
        r.url(),
        "https://translate.googleapis.com/translate_a/single?client=gtx&sl=en&tl=uk&dt=t&q=Hello"
    );
}

#[test]
fn address_of_a_request_that_leaves_the_source_open() {
    let r = TranslationRequest { source: None, destination: "uk".to_string(), text: "Добрий день".to_string() };
    assert_eq!(
        r.url(),
        "https://translate.googleapis.com/translate_a/single?client=gtx&sl=auto&tl=uk&dt=t&q=Добрий день"
    );
    assert_eq!(AUTO_DETECT, "auto");
    assert!(r.url().starts_with(ENDPOINT));
}

#[test]
fn requests_are_aligned_with_their_pairings() {
    let pairings = vec![
        Pairing { source: Some(candidate("en", "English")), destination: candidate("uk", "Ukrainian") },
        Pairing { source: None, destination: candidate("de", "German") },
        Pairing { source: Some(candidate("uk", "Ukrainian")), destination: candidate("en", "English") },
    ];
    let requests = build_requests(&pairings, "text");
    assert_eq!(requests.len(), 3);
    assert_eq!(requests[0].source.as_deref(), Some("en"));
    assert_eq!(requests[0].destination, "uk");
    assert_eq!(requests[1].source, None);
    assert_eq!(requests[1].destination, "de");
    assert_eq!(requests[2].source.as_deref(), Some("uk"));
    assert_eq!(requests[2].destination, "en");
    assert!(requests.iter().all(|r| r.text == "text"));
    assert!(build_requests(&Vec::new(), "text").is_empty());
}
