//! indexrs: the verified core of a trigram-indexed local code search engine.
//!
//! The crate holds the identifier types of the index, trigram extraction for
//! queries, the query AST with its content matcher, and the decisions the
//! command line front end makes before it runs a search.

pub mod text;
pub mod cli;
pub mod error;
pub mod lines;
pub mod merge;
pub mod query;
pub mod query_match;
pub mod query_trigrams;
pub mod reindex_progress;
pub mod search;
pub mod search_cmd;
pub mod trigram;
pub mod types;
pub mod verify;
