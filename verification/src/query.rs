//! The query parser.
//!
//! A query is the configured prefix, a language part free of whitespace, one
//! whitespace character, and the text to translate. The language part is
//! either `source<delimiter>destination` or a destination alone.

use crate::text::{
    chars_of, find_occurrence, find_whitespace, first_occurrence, first_whitespace, has_prefix,
    is_blank, is_blank_from, is_first_occurrence, is_first_whitespace, is_whitespace,
};
use vstd::prelude::*;
use vstd::string::StrSliceExecFns;

verus! {

/// What a query names: the model of [`ParsedQuery`].
pub struct ParsedQueryView {
    /// The source-language token; `None` asks for the source to be detected.
    pub source: Option<Seq<char>>,
    /// The destination-language token.
    pub destination: Seq<char>,
    /// The text to translate.
    pub text: Seq<char>,
}

/// A query taken apart. The parts borrow from the input.
#[derive(Debug, Clone, Copy, PartialEq, Eq)]
pub struct ParsedQuery<'a> {
    /// The source-language token; `None` asks for the source to be detected.
    pub source: Option<&'a str>,
    /// The destination-language token.
    pub destination: &'a str,
    /// The text to translate, as typed after the first whitespace character.
    pub text: &'a str,
}

impl<'a> View for ParsedQuery<'a> {
    type V = ParsedQueryView;

    open spec fn view(&self) -> ParsedQueryView {
        ParsedQueryView {
            source: match self.source {
                Some(s) => Some(s@),
                None => None,
            },
            destination: self.destination@,
            text: self.text@,
        }
    }
}

/// Splits the language part of a query at the leftmost occurrence of the
/// delimiter. Without an occurrence the whole part names the destination.
pub open spec fn split_languages(part: Seq<char>, delimiter: Seq<char>) -> (
    Option<Seq<char>>,
    Seq<char>,
) {
    match first_occurrence(part, delimiter) {
        Some(k) => (Some(part.take(k)), part.skip(k + delimiter.len())),
        None => (None, part),
    }
}

/// What `input` asks for, or `None` where it is no query: it does not start
/// with `prefix`, holds no whitespace after the prefix, or holds nothing but
/// whitespace after the language part.
pub open spec fn parse_query_spec(
    input: Seq<char>,
    prefix: Seq<char>,
    delimiter: Seq<char>,
) -> Option<ParsedQueryView> {
    if !prefix.is_prefix_of(input) {
        None
    } else {
        let rest = input.skip(prefix.len() as int);
        match first_whitespace(rest) {
            None => None,
            Some(w) => {
                let text = rest.skip(w + 1);
                if is_blank(text) {
                    None
                } else {
                    let (source, destination) = split_languages(rest.take(w), delimiter);
                    Some(ParsedQueryView { source, destination, text })
                }
            },
        }
    }
}

/// The language part that the language tokens of a query were split from.
pub open spec fn language_part(query: ParsedQueryView, delimiter: Seq<char>) -> Seq<char> {
    match query.source {
        Some(source) => source + delimiter + query.destination,
        None => query.destination,
    }
}

/// A query is made of its parts: the prefix, the language part, one
/// whitespace character and the text, with no whitespace in the language
/// part and something other than whitespace in the text.
pub proof fn lemma_query_is_made_of_its_parts(
    input: Seq<char>,
    prefix: Seq<char>,
    delimiter: Seq<char>,
)
    requires
        parse_query_spec(input, prefix, delimiter) is Some,
    ensures
        ({
            let query = parse_query_spec(input, prefix, delimiter).unwrap();
            let part = language_part(query, delimiter);
            let at = (prefix.len() + part.len()) as int;
            &&& at < input.len()
            &&& is_whitespace(input[at])
            &&& input == prefix + part + seq![input[at]] + query.text
            &&& forall|i: int| 0 <= i < part.len() ==> !is_whitespace(#[trigger] part[i])
            &&& !is_blank(query.text)
        }),
{
    let query = parse_query_spec(input, prefix, delimiter).unwrap();
    let rest = input.skip(prefix.len() as int);
    let w = first_whitespace(rest).unwrap();
    assert(is_first_whitespace(rest, w));
    let part = rest.take(w);
    match first_occurrence(part, delimiter) {
        Some(k) => {
            assert(is_first_occurrence(part, delimiter, k));
            assert(part =~= part.take(k) + delimiter + part.skip(k + delimiter.len())) by {
                assert forall|i: int| k <= i < k + delimiter.len() implies part[i]
                    == delimiter[i - k] by {
                    assert(part[k + (i - k)] == delimiter[i - k]);
                }
            }
        },
        None => {},
    }
    assert(language_part(query, delimiter) == part);
    assert(input =~= prefix + part + seq![rest[w]] + rest.skip(w + 1));
    assert forall|i: int| 0 <= i < part.len() implies !is_whitespace(#[trigger] part[i]) by {
        assert(part[i] == rest[i]);
    }
}

/// The view of an optional parse result.
pub open spec fn parsed_view(r: Option<ParsedQuery>) -> Option<ParsedQueryView> {
    match r {
        Some(q) => Some(q@),
        None => None,
    }
}

/// Takes `input` apart.
pub fn parse_query<'a>(input: &'a str, prefix: &str, delimiter: &str) -> (r: Option<
    ParsedQuery<'a>,
>)
    ensures
        parsed_view(r) == parse_query_spec(input@, prefix@, delimiter@),
{
    let chars = chars_of(input);
    let prefix_chars = chars_of(prefix);
    if !has_prefix(&chars, &prefix_chars) {
        return None;
    }
    let start = prefix_chars.len();
    let end = chars.len();
    let ghost rest = input@.skip(start as int);
    let space = match find_whitespace(&chars, start) {
        Some(i) => i,
        None => {
            return None;
        },
    };
    if is_blank_from(&chars, space + 1) {
        assert(rest.skip(space - start + 1) =~= input@.skip(space + 1));
        return None;
    }
    let delimiter_chars = chars_of(delimiter);
    let text = input.substring_char(space + 1, end);
    let found = find_occurrence(&chars, start, space, &delimiter_chars);
    proof {
        assert(rest.skip(space - start + 1) =~= input@.skip(space + 1));
        assert(rest.take(space - start) =~= input@.subrange(start as int, space as int));
    }
    match found {
        Some(k) => {
            let source = input.substring_char(start, k);
            let destination = input.substring_char(k + delimiter_chars.len(), space);
            proof {
                let part = rest.take(space - start);
                assert(part.take(k - start) =~= input@.subrange(start as int, k as int));
                assert(part.skip(k - start + delimiter@.len()) =~= input@.subrange(
                    k + delimiter@.len(),
                    space as int,
                ));
            }
            Some(ParsedQuery { source: Some(source), destination, text })
        },
        None => {
            let destination = input.substring_char(start, space);
            Some(ParsedQuery { source: None, destination, text })
        },
    }
}

} // verus!
