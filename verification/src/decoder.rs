//! The response decoder.
//!
//! A response is a JSON array. Its element 0 is an array of segments, each an
//! array whose element 0 is a fragment of the translation; the fragments,
//! joined by single spaces, are the translated text. Its element 2, where it
//! is a string, is the code of the language that the service took the text to
//! be in. The service is not under this library's control: a body of any
//! other shape is a failure to decode, never a fault.

use crate::json::{json_views, lemma_array_view, parse_json, parsed_json, Json, JsonView};
use vstd::prelude::*;
use vstd::string::StringExecFns;

verus! {

/// What a response says.
#[derive(Debug, PartialEq, Eq)]
pub struct Translation {
    /// The translated text.
    pub title: String,
    /// The code of the source language: the one the service detected, or the
    /// fallback where it names none.
    pub detected: String,
}

/// The model of a [`Translation`].
pub struct TranslationView {
    pub title: Seq<char>,
    pub detected: Seq<char>,
}

impl View for Translation {
    type V = TranslationView;

    open spec fn view(&self) -> TranslationView {
        TranslationView { title: self.title@, detected: self.detected@ }
    }
}

/// The view of an optional translation.
pub open spec fn translation_view(translation: Option<Translation>) -> Option<TranslationView> {
    match translation {
        Some(t) => Some(t@),
        None => None,
    }
}

/// The fragment that a segment carries: element 0 of the segment, where the
/// segment is an array and that element a string.
pub open spec fn segment_text(segment: JsonView) -> Option<Seq<char>> {
    match segment {
        JsonView::Array(parts) => if parts.len() > 0 {
            match parts[0] {
                JsonView::Text(text) => Some(text),
                _ => None,
            }
        } else {
            None
        },
        _ => None,
    }
}

/// Whether every one of the segments carries a fragment.
pub open spec fn all_segments_carry_text(segments: Seq<JsonView>) -> bool {
    forall|i: int| 0 <= i < segments.len() ==> segment_text(#[trigger] segments[i]) is Some
}

/// The fragments of the segments, in order.
pub open spec fn segment_texts(segments: Seq<JsonView>) -> Seq<Seq<char>> {
    Seq::new(segments.len(), |i: int| segment_text(segments[i]).unwrap())
}

/// The fragments joined by single spaces.
pub open spec fn joined(fragments: Seq<Seq<char>>) -> Seq<char>
    decreases fragments.len(),
{
    if fragments.len() == 0 {
        Seq::empty()
    } else if fragments.len() == 1 {
        fragments[0]
    } else {
        joined(fragments.drop_last()) + seq![' '] + fragments.last()
    }
}

/// The translated text of a response, where the response has the expected
/// shape.
pub open spec fn decoded_title(doc: JsonView) -> Option<Seq<char>> {
    match doc {
        JsonView::Array(top) => if top.len() > 0 {
            match top[0] {
                JsonView::Array(segments) => if all_segments_carry_text(segments) {
                    Some(joined(segment_texts(segments)))
                } else {
                    None
                },
                _ => None,
            }
        } else {
            None
        },
        _ => None,
    }
}

/// The language code that a response names as detected, if it names one.
pub open spec fn detected_code(doc: JsonView) -> Option<Seq<char>> {
    match doc {
        JsonView::Array(top) => if top.len() > 2 {
            match top[2] {
                JsonView::Text(code) => Some(code),
                _ => None,
            }
        } else {
            None
        },
        _ => None,
    }
}

/// What a document says as a response; `fallback` stands in for the detected
/// language where the document names none.
pub open spec fn decode_spec(doc: JsonView, fallback: Seq<char>) -> Option<TranslationView> {
    match decoded_title(doc) {
        Some(title) => Some(
            TranslationView {
                title,
                detected: match detected_code(doc) {
                    Some(code) => code,
                    None => fallback,
                },
            },
        ),
        None => None,
    }
}

/// What a response body says; a body that is no JSON says nothing.
pub open spec fn decode_body_spec(body: Seq<u8>, fallback: Seq<char>) -> Option<TranslationView> {
    match parsed_json(body) {
        Some(doc) => decode_spec(doc, fallback),
        None => None,
    }
}

/// The fragment that a segment carries.
fn text_of_segment(segment: &Json) -> (text: Option<&String>)
    ensures
        match text {
            Some(t) => segment_text(segment@) == Some(t@),
            None => segment_text(segment@) is None,
        },
{
    match segment {
        Json::Array(parts) => {
            proof {
                lemma_array_view(*segment);
            }
            if parts.len() > 0 {
                match &parts[0] {
                    Json::Text(text) => Some(text),
                    _ => None,
                }
            } else {
                None
            }
        },
        _ => None,
    }
}

/// The fragments of the segments joined by single spaces, or `None` where a
/// segment carries none.
fn join_segments(segments: &Vec<Json>) -> (title: Option<String>)
    ensures
        match title {
            Some(t) => all_segments_carry_text(json_views(segments@)) && t@ == joined(
                segment_texts(json_views(segments@)),
            ),
            None => !all_segments_carry_text(json_views(segments@)),
        },
{
    let ghost views = json_views(segments@);
    let ghost texts = segment_texts(views);
    let mut title = String::new();
    let mut i: usize = 0;
    while i < segments.len()
        invariant
            i <= segments.len(),
            views == json_views(segments@),
            texts == segment_texts(views),
            all_segments_carry_text(views.take(i as int)),
            title@ == joined(texts.take(i as int)),
        decreases segments.len() - i,
    {
        assert(views[i as int] == segments[i as int]@);
        let fragment = match text_of_segment(&segments[i]) {
            Some(text) => text,
            None => {
                return None;
            },
        };
        if i > 0 {
            title.append(" ");
        }
        title.append(fragment.as_str());
        proof {
            reveal_strlit(" ");
            assert(texts.take(i + 1).drop_last() =~= texts.take(i as int));
        }
        i += 1;
    }
    proof {
        assert(views.take(i as int) =~= views);
        assert(texts.take(i as int) =~= texts);
    }
    Some(title)
}

/// Reads a parsed response.
pub fn decode_document(doc: &Json, fallback: &str) -> (translation: Option<Translation>)
    ensures
        translation_view(translation) == decode_spec(doc@, fallback@),
{
    let top = match doc {
        Json::Array(top) => top,
        _ => {
            return None;
        },
    };
    proof {
        lemma_array_view(*doc);
    }
    if top.len() == 0 {
        return None;
    }
    let segments = match &top[0] {
        Json::Array(segments) => segments,
        _ => {
            return None;
        },
    };
    proof {
        lemma_array_view(top[0]);
    }
    let title = match join_segments(segments) {
        Some(title) => title,
        None => {
            return None;
        },
    };
    let mut detected: Option<String> = None;
    if top.len() > 2 {
        if let Json::Text(code) = &top[2] {
            detected = Some(code.clone());
        }
    }
    let detected = match detected {
        Some(code) => code,
        None => String::from_str(fallback),
    };
    Some(Translation { title, detected })
}

/// Reads a response body: parses it as JSON and reads the document.
pub fn decode_response(body: &[u8], fallback: &str) -> (translation: Option<Translation>)
    ensures
        translation_view(translation) == decode_body_spec(body@, fallback@),
{
    match parse_json(body) {
        Ok(doc) => decode_document(&doc, fallback),
        Err(_) => None,
    }
}

} // verus!
