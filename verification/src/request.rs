//! The requests that a ranked list of pairings asks for.

use crate::pairing::{pairing_views, Pairing, PairingView};
use vstd::prelude::*;
use vstd::string::StringExecFns;

verus! {

/// Where a translation is asked for, up to the source language.
pub const ENDPOINT: &'static str = "https://translate.googleapis.com/translate_a/single?client=gtx&sl=";

/// The source language that asks the service to detect it.
pub const AUTO_DETECT: &'static str = "auto";

/// One translation to ask the service for.
#[derive(Debug, PartialEq, Eq)]
pub struct TranslationRequest {
    /// The code of the source language; `None` asks the service to detect
    /// it.
    pub source: Option<String>,
    /// The code of the destination language.
    pub destination: String,
    /// The text to translate.
    pub text: String,
}

/// The model of a [`TranslationRequest`].
pub struct RequestView {
    pub source: Option<Seq<char>>,
    pub destination: Seq<char>,
    pub text: Seq<char>,
}

impl View for TranslationRequest {
    type V = RequestView;

    open spec fn view(&self) -> RequestView {
        RequestView {
            source: match self.source {
                Some(code) => Some(code@),
                None => None,
            },
            destination: self.destination@,
            text: self.text@,
        }
    }
}

impl RequestView {
    /// The source language as the service is told it.
    pub open spec fn source_code(self) -> Seq<char> {
        match self.source {
            Some(code) => code,
            None => AUTO_DETECT@,
        }
    }

    /// The address that answers the request.
    pub open spec fn url(self) -> Seq<char> {
        ENDPOINT@ + self.source_code() + "&tl="@ + self.destination + "&dt=t&q="@ + self.text
    }
}

/// The models of a sequence of requests.
pub open spec fn request_views(requests: Seq<TranslationRequest>) -> Seq<RequestView> {
    requests.map_values(|r: TranslationRequest| r@)
}

/// The request that a pairing asks for: from its source, or from a source to
/// be detected, to its destination.
pub open spec fn request_spec(pairing: PairingView, text: Seq<char>) -> RequestView {
    RequestView {
        source: match pairing.source {
            Some(source) => Some(source.code),
            None => None,
        },
        destination: pairing.destination.code,
        text,
    }
}

/// The requests that the pairings ask for, one for each, in their order.
pub open spec fn requests_spec(pairings: Seq<PairingView>, text: Seq<char>) -> Seq<RequestView> {
    pairings.map_values(|p: PairingView| request_spec(p, text))
}

impl TranslationRequest {
    /// The request that `pairing` asks for.
    pub fn for_pairing(pairing: &Pairing, text: &str) -> (request: TranslationRequest)
        ensures
            request@ == request_spec(pairing@, text@),
    {
        TranslationRequest {
            source: match &pairing.source {
                Some(source) => Some(source.code.clone()),
                None => None,
            },
            destination: pairing.destination.code.clone(),
            text: String::from_str(text),
        }
    }

    /// The address that answers this request. The text is put in as it is.
    pub fn url(&self) -> (url: String)
        ensures
            url@ == self@.url(),
    {
        let mut url = String::from_str(ENDPOINT);
        match &self.source {
            Some(code) => url.append(code.as_str()),
            None => url.append(AUTO_DETECT),
        }
        url.append("&tl=");
        url.append(self.destination.as_str());
        url.append("&dt=t&q=");
        url.append(self.text.as_str());
        url
    }
}

/// The requests that `pairings` ask for: the request of the pairing at index
/// `i` stands at index `i`.
pub fn build_requests(pairings: &Vec<Pairing>, text: &str) -> (requests: Vec<TranslationRequest>)
    ensures
        request_views(requests@) == requests_spec(pairing_views(pairings@), text@),
{
    let ghost wanted = requests_spec(pairing_views(pairings@), text@);
    let mut requests: Vec<TranslationRequest> = Vec::new();
    let mut i: usize = 0;
    while i < pairings.len()
        invariant
            i <= pairings.len(),
            wanted == requests_spec(pairing_views(pairings@), text@),
            request_views(requests@) == wanted.take(i as int),
        decreases pairings.len() - i,
    {
        let ghost before = request_views(requests@);
        requests.push(TranslationRequest::for_pairing(&pairings[i], text));
        assert(request_views(requests@) =~= before.push(wanted[i as int]));
        i += 1;
    }
    requests
}

} // verus!
