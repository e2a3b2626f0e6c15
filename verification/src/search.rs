//! Search result types: the pattern of a plain search, and the lines a search
//! reports with their context.

use vstd::prelude::*;

verus! {

/// How the text of a plain (non-query-language) search is matched.
#[derive(Debug, Clone, PartialEq, Eq)]
pub enum MatchPattern {
    /// Exact, case-sensitive substring.
    Literal(String),
    /// Substring compared after ASCII lower-casing.
    LiteralCaseInsensitive(String),
    /// Regular expression.
    Regex(String),
}

/// A line shown around a match.
#[derive(Debug, Clone, PartialEq, Eq)]
pub struct ContextLine {
    /// 1-based line number.
    pub line_number: u32,
    /// The text of the line.
    pub content: String,
}

/// A matching line.
#[derive(Debug, Clone, PartialEq, Eq)]
pub struct LineMatch {
    /// 1-based line number.
    pub line_number: u32,
    /// The text of the line.
    pub content: String,
    /// Byte ranges `(start, end)` of the matches within the line.
    pub ranges: Vec<(usize, usize)>,
    /// Lines shown before this one.
    pub context_before: Vec<ContextLine>,
    /// Lines shown after this one.
    pub context_after: Vec<ContextLine>,
}

/// The mathematical content of a [`ContextLine`].
pub struct ContextLineView {
    pub line_number: u32,
    pub content: Seq<char>,
}

/// The mathematical content of a [`LineMatch`].
pub struct LineMatchView {
    pub line_number: u32,
    pub content: Seq<char>,
    pub ranges: Seq<(usize, usize)>,
    pub context_before: Seq<ContextLineView>,
    pub context_after: Seq<ContextLineView>,
}

impl View for ContextLine {
    type V = ContextLineView;

    open spec fn view(&self) -> ContextLineView {
        ContextLineView { line_number: self.line_number, content: self.content@ }
    }
}

/// The views of a sequence of context lines.
pub open spec fn context_views(v: Seq<ContextLine>) -> Seq<ContextLineView> {
    Seq::new(v.len(), |i: int| v[i]@)
}

impl View for LineMatch {
    type V = LineMatchView;

    open spec fn view(&self) -> LineMatchView {
        LineMatchView {
            line_number: self.line_number,
            content: self.content@,
            ranges: self.ranges@,
            context_before: context_views(self.context_before@),
            context_after: context_views(self.context_after@),
        }
    }
}

/// The views of a sequence of line matches.
pub open spec fn match_views(v: Seq<LineMatch>) -> Seq<LineMatchView> {
    Seq::new(v.len(), |i: int| v[i]@)
}

} // verus!
