//! The query AST of the query language.

use vstd::prelude::*;
use crate::types::Language;

verus! {

/// A substring search term.
#[derive(Debug, Clone, PartialEq, Eq)]
pub struct LiteralQuery {
    pub text: String,
    pub case_sensitive: bool,
}

/// A quoted phrase, matched as a substring.
#[derive(Debug, Clone, PartialEq, Eq)]
pub struct PhraseQuery {
    pub text: String,
    pub case_sensitive: bool,
}

/// A regular-expression search term.
#[derive(Debug, Clone, PartialEq, Eq)]
pub struct RegexQuery {
    pub pattern: String,
    pub case_sensitive: bool,
}

/// A parsed query.
#[derive(Debug, PartialEq, Eq)]
pub enum Query {
    Literal(LiteralQuery),
    Phrase(PhraseQuery),
    Regex(RegexQuery),
    /// Restricts the files searched by path; no constraint on content.
    PathFilter(String),
    /// Restricts the files searched by language; no constraint on content.
    LanguageFilter(Language),
    Not(Box<Query>),
    Or(Box<Query>, Box<Query>),
    And(Vec<Query>),
}

} // verus!
