//! JSON documents, as far as a response is read.
//!
//! Parsing is done by `serde_json`. What comes back is copied into a tree of
//! this library's own, which keeps the shape of the document and its strings;
//! the contents of numbers and objects, which no response is read for, are
//! left behind.

use vstd::prelude::*;

verus! {

/// A JSON document.
#[derive(Debug, PartialEq, Eq)]
pub enum Json {
    Null,
    Bool(bool),
    /// A number; its value is not kept.
    Number,
    Text(String),
    Array(Vec<Json>),
    /// An object; its members are not kept.
    Object,
}

/// The model of a [`Json`] document.
pub enum JsonView {
    Null,
    Bool(bool),
    Number,
    Text(Seq<char>),
    Array(Seq<JsonView>),
    Object,
}

impl View for Json {
    type V = JsonView;

    open spec fn view(&self) -> JsonView
        decreases self,
    {
        match self {
            Json::Null => JsonView::Null,
            Json::Bool(b) => JsonView::Bool(*b),
            Json::Number => JsonView::Number,
            Json::Text(text) => JsonView::Text(text@),
            Json::Array(items) => JsonView::Array(
                Seq::new(
                    items@.len(),
                    |i: int|
                        if 0 <= i < items@.len() {
                            items@[i].view()
                        } else {
                            JsonView::Null
                        },
                ),
            ),
            Json::Object => JsonView::Object,
        }
    }
}

/// The models of a sequence of documents.
pub open spec fn json_views(docs: Seq<Json>) -> Seq<JsonView> {
    Seq::new(
        docs.len(),
        |i: int|
            if 0 <= i < docs.len() {
                docs[i]@
            } else {
                JsonView::Null
            },
    )
}

/// The model of an array is the array of the models of its items.
pub proof fn lemma_array_view(doc: Json)
    requires
        doc is Array,
    ensures
        doc@ == JsonView::Array(json_views(doc->Array_0@)),
{
    let items = doc->Array_0;
    assert(doc@->Array_0 =~= json_views(items@));
}

/// `serde_json::Value`, the tree that `serde_json` parses into.
#[verifier::external_type_specification]
#[verifier::external_body]
pub struct ExValue(serde_json::Value);

/// `serde_json::Error`, what `serde_json` says of a body it cannot parse.
#[verifier::external_type_specification]
#[verifier::external_body]
pub struct ExError(serde_json::Error);

/// The document that `serde_json::from_slice` reads from `body`; `None` where
/// it rejects the body.
pub uninterp spec fn parsed_json(body: Seq<u8>) -> Option<JsonView>;

/// Copies a `serde_json::Value` into a [`Json`], variant by variant.
///
/// Trusted; nothing is claimed of the result.
#[verifier::external_body]
fn json_from_value(value: serde_json::Value) -> Json {
    match value {
        serde_json::Value::Null => Json::Null,
        serde_json::Value::Bool(b) => Json::Bool(b),
        serde_json::Value::Number(_) => Json::Number,
        serde_json::Value::String(text) => Json::Text(text),
        serde_json::Value::Array(items) => {
            let mut copies = Vec::new();
            for item in items {
                copies.push(json_from_value(item));
            }
            Json::Array(copies)
        },
        serde_json::Value::Object(_) => Json::Object,
    }
}

/// Calls `serde_json::from_slice::<serde_json::Value>` on `body`.
///
/// Trusted: whether the body is accepted, and the document read from it,
/// depend on the bytes of the body alone.
#[verifier::external_body]
pub(crate) fn parse_json(body: &[u8]) -> (parsed: Result<Json, serde_json::Error>)
    ensures
        parsed is Ok <==> parsed_json(body@) is Some,
        parsed matches Ok(doc) ==> parsed_json(body@) == Some(doc@),
{
    match serde_json::from_slice::<serde_json::Value>(body) {
        Ok(value) => Ok(json_from_value(value)),
        Err(error) => Err(error),
    }
}

} // verus!
