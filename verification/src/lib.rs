//! Resolution of free-text translation queries.
//!
//! A query such as `en>uk Hello` names an optional source language, a
//! destination language and a text. The library parses the query, resolves the
//! language tokens against a table of languages by fuzzy matching, ranks the
//! plausible source/destination pairings, describes the request to send for
//! each of them, and turns the raw responses back into an ordered list of
//! results. Everything here is verified; sending the requests is left to the
//! caller.

pub mod assembler;
pub mod config;
pub mod decoder;
pub mod json;
pub mod language;
pub mod matcher;
pub mod pairing;
pub mod pipeline;
pub mod query;
pub mod request;
pub mod resolver;
pub mod text;
