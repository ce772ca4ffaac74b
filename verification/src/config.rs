//! The settings of the resolver.

use crate::request::AUTO_DETECT;
use vstd::prelude::*;
use vstd::string::StringExecFns;

verus! {

/// The settings a query is resolved under. They are fixed while a query is
/// resolved.
#[derive(Debug, PartialEq, Eq)]
pub struct Config {
    /// What a query must begin with to be taken up at all.
    pub prefix: String,
    /// What stands between the source and the destination language.
    pub language_delimiter: String,
    /// The most translations that are asked for and shown; at least 1.
    pub max_entries: usize,
    /// The source language that a result is labelled with where the request
    /// named none and the service detected none.
    pub default_source: String,
}

/// The model of a [`Config`].
pub struct ConfigView {
    pub prefix: Seq<char>,
    pub language_delimiter: Seq<char>,
    pub max_entries: nat,
    pub default_source: Seq<char>,
}

impl View for Config {
    type V = ConfigView;

    open spec fn view(&self) -> ConfigView {
        ConfigView {
            prefix: self.prefix@,
            language_delimiter: self.language_delimiter@,
            max_entries: self.max_entries as nat,
            default_source: self.default_source@,
        }
    }
}

impl ConfigView {
    /// Whether the settings allow for at least one translation.
    pub open spec fn is_valid(self) -> bool {
        self.max_entries >= 1
    }
}

/// The settings used where none are given: no prefix, `>` between the
/// languages, three entries, and `auto` for an undetected source.
pub open spec fn default_config() -> ConfigView {
    ConfigView {
        prefix: Seq::empty(),
        language_delimiter: ">"@,
        max_entries: 3,
        default_source: AUTO_DETECT@,
    }
}

impl Config {
    /// Whether the settings allow for at least one translation.
    pub fn is_valid(&self) -> (valid: bool)
        ensures
            valid == self@.is_valid(),
    {
        self.max_entries >= 1
    }
}

impl Default for Config {
    fn default() -> (config: Config)
        ensures
            config@ == default_config(),
            config@.is_valid(),
    {
        Config {
            prefix: String::new(),
            language_delimiter: String::from_str(">"),
            max_entries: 3,
            default_source: String::from_str(AUTO_DETECT),
        }
    }
}

} // verus!
