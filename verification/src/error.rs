//! Errors reported by the library.

use vstd::prelude::*;

verus! {

/// An error of the index or of a search request.
#[derive(Debug, Clone, PartialEq, Eq)]
pub enum IndexError {
    /// A language name that no supported language answers to.
    UnknownLanguage(String),
    /// A path glob that does not compile.
    InvalidPathGlob(String),
}

} // verus!
