//! Verification of candidate content: finding the lines that match a literal
//! or a regular expression.

use vstd::prelude::*;
use crate::lines::{LineTable, line_count, line_bytes, line_text, line_text_of, lemma_line_count_bound};
use crate::search::{LineMatch, LineMatchView, ContextLineView, match_views, context_views};
use crate::text::lower_byte;

verus! {

/// The byte as compared: lower-cased when folding.
pub open spec fn fold_byte(b: u8, fold: bool) -> u8 {
    if fold { lower_byte(b) } else { b }
}

/// The needle occurs in the haystack at offset `i`.
pub open spec fn occurs_at(h: Seq<u8>, p: Seq<u8>, i: int, fold: bool) -> bool {
    &&& 0 <= i
    &&& i + p.len() <= h.len()
    &&& forall|j: int| 0 <= j < p.len() ==> fold_byte(#[trigger] h[i + j], fold) == fold_byte(p[j], fold)
}

/// The occurrences of a non-empty needle found scanning from offset `i`:
/// the leftmost one, then the leftmost one after its end, and so on.
pub open spec fn literal_ranges_from(h: Seq<u8>, p: Seq<u8>, fold: bool, i: int) -> Seq<(usize, usize)>
    decreases h.len() - i,
{
    if p.len() == 0 || i < 0 || i + p.len() > h.len() {
        Seq::empty()
    } else if occurs_at(h, p, i, fold) {
        seq![(i as usize, (i + p.len()) as usize)] + literal_ranges_from(h, p, fold, i + p.len())
    } else {
        literal_ranges_from(h, p, fold, i + 1)
    }
}

/// The non-overlapping occurrences of the needle in the haystack, leftmost
/// first. An empty needle has none.
pub open spec fn literal_ranges(h: Seq<u8>, p: Seq<u8>, fold: bool) -> Seq<(usize, usize)> {
    literal_ranges_from(h, p, fold, 0)
}

/// Whether regex pattern text compiles (`regex::bytes::Regex::new` succeeds).
pub uninterp spec fn regex_compiles(pattern: Seq<char>) -> bool;

/// The `(start, end)` of every match `regex::bytes::Regex::find_iter`
/// reports for the pattern over the haystack.
pub uninterp spec fn regex_find_all(pattern: Seq<char>, haystack: Seq<u8>) -> Seq<(usize, usize)>;

/// How a line is searched.
pub enum LineSearch {
    /// A byte needle, and whether bytes are compared ASCII-case-insensitively.
    Literal(Seq<u8>, bool),
    /// A compiled regular expression, by its pattern text.
    Regex(Seq<char>),
}

/// The match ranges found in one line.
pub open spec fn search_ranges(m: LineSearch, line: Seq<u8>) -> Seq<(usize, usize)> {
    match m {
        LineSearch::Literal(p, fold) => literal_ranges(line, p, fold),
        LineSearch::Regex(pattern) => regex_find_all(pattern, line),
    }
}

/// The report of line `k` (0-based) with its match ranges.
pub open spec fn found_line(s: Seq<u8>, k: int, ranges: Seq<(usize, usize)>) -> LineMatchView {
    LineMatchView {
        line_number: (k + 1) as u32,
        content: line_text(s, k),
        ranges: ranges,
        context_before: Seq::empty(),
        context_after: Seq::empty(),
    }
}

/// The matching lines among the first `n` lines, in line order.
pub open spec fn matching_lines(s: Seq<u8>, m: LineSearch, n: int) -> Seq<LineMatchView>
    decreases n,
{
    if n <= 0 {
        Seq::empty()
    } else {
        let prev = matching_lines(s, m, n - 1);
        let r = search_ranges(m, line_bytes(s, n - 1));
        if r.len() > 0 {
            prev.push(found_line(s, n - 1, r))
        } else {
            prev
        }
    }
}

/// The lines of the content that match, in line order.
pub open spec fn search_content(s: Seq<u8>, m: LineSearch) -> Seq<LineMatchView> {
    matching_lines(s, m, line_count(s))
}

/// A compiled regular expression together with the pattern text it was
/// compiled from. Only [`regex_new`] builds one, in a single step from the
/// pattern, so `re` is always the compiled `source`.
pub struct CompiledRegex {
    source: String,
    re: regex::bytes::Regex,
}

#[verifier::external_type_specification]
#[verifier::external_body]
pub struct ExRegex(regex::bytes::Regex);

impl View for CompiledRegex {
    type V = Seq<char>;

    closed spec fn view(&self) -> Seq<char> {
        self.source@
    }
}

/// `regex::bytes::Regex::new`: the regex compiled from the pattern, kept with
/// the pattern's text, when the pattern is accepted. Whether it is accepted is
/// named `regex_compiles`.
#[verifier::external_body]
fn regex_new(pattern: &str) -> (r: Option<CompiledRegex>)
    ensures
        r is Some <==> regex_compiles(pattern@),
        r matches Some(c) ==> c@ == pattern@,
{
    regex::bytes::Regex::new(pattern).ok().map(|re| CompiledRegex { source: pattern.to_owned(), re })
}

/// `regex::bytes::Regex::find_iter` collected into `(start, end)` pairs. The
/// pairs are named `regex_find_all` of the pattern text the regex was compiled
/// from (the two are paired by `regex_new` alone).
#[verifier::external_body]
fn regex_find_ranges(c: &CompiledRegex, haystack: &[u8]) -> (r: Vec<(usize, usize)>)
    ensures
        r@ == regex_find_all(c@, haystack@),
{
    c.re.find_iter(haystack).map(|m| (m.start(), m.end())).collect()
}

impl CompiledRegex {
    /// Compile a pattern; `None` when the regex engine rejects it.
    pub fn new(pattern: &str) -> (r: Option<Self>)
        ensures
            r is Some <==> regex_compiles(pattern@),
            r matches Some(c) ==> c@ == pattern@,
    {
        regex_new(pattern)
    }
}

/// A line searcher.
pub enum Searcher {
    Literal { needle: Vec<u8>, fold: bool },
    Regex(CompiledRegex),
}

impl Searcher {
    /// What the searcher looks for.
    pub open spec fn model(&self) -> LineSearch {
        match self {
            Searcher::Literal { needle, fold } => LineSearch::Literal(needle@, *fold),
            Searcher::Regex(c) => LineSearch::Regex(c@),
        }
    }
}

fn occurs_at_exec(h: &[u8], p: &[u8], i: usize, fold: bool) -> (r: bool)
    requires
        i + p@.len() <= h@.len(),
    ensures
        r == occurs_at(h@, p@, i as int, fold),
{
    let n = p.len();
    let hl = h.len();
    let mut j: usize = 0;
    while j < n
        invariant
            n == p@.len(),
            hl == h@.len(),
            i + n <= h@.len(),
            0 <= j <= n,
            forall|k: int| 0 <= k < j ==> fold_byte(#[trigger] h@[i + k], fold) == fold_byte(p@[k], fold),
        decreases n - j,
    {
        let a = h[i + j];
        let b = p[j];
        let fa = if fold && 65 <= a && a <= 90 { a + 32 } else { a };
        let fb = if fold && 65 <= b && b <= 90 { b + 32 } else { b };
        if fa != fb {
            return false;
        }
        j += 1;
    }
    true
}

/// The non-overlapping occurrences of `needle` in `line`, leftmost first.
pub fn literal_ranges_exec(line: &[u8], needle: &[u8], fold: bool) -> (r: Vec<(usize, usize)>)
    ensures
        r@ == literal_ranges(line@, needle@, fold),
{
    let mut out: Vec<(usize, usize)> = Vec::new();
    let n = needle.len();
    let len = line.len();
    if n == 0 || n > len {
        return out;
    }
    let mut i: usize = 0;
    while i <= len - n
        invariant
            n == needle@.len(),
            len == line@.len(),
            0 < n <= len,
            0 <= i <= len,
            literal_ranges(line@, needle@, fold) == out@ + literal_ranges_from(line@, needle@, fold, i as int),
        decreases len - i,
    {
        if occurs_at_exec(line, needle, i, fold) {
            let ghost before = out@;
            out.push((i, i + n));
            proof {
                assert(out@ + literal_ranges_from(line@, needle@, fold, (i + n) as int) =~= before
                    + literal_ranges_from(line@, needle@, fold, i as int));
            }
            i = i + n;
        } else {
            i = i + 1;
        }
    }
    proof {
        assert(literal_ranges_from(line@, needle@, fold, i as int) =~= Seq::<(usize, usize)>::empty());
        assert(out@ =~= out@ + Seq::<(usize, usize)>::empty());
    }
    out
}

/// The ranges the searcher finds in one line.
pub fn searcher_ranges(searcher: &Searcher, line: &[u8]) -> (r: Vec<(usize, usize)>)
    ensures
        r@ == search_ranges(searcher.model(), line@),
{
    match searcher {
        Searcher::Literal { needle, fold } => literal_ranges_exec(line, needle.as_slice(), *fold),
        Searcher::Regex(c) => regex_find_ranges(c, line),
    }
}

/// Every line of the content in which the searcher finds a match, in line
/// order, with its number, text and match ranges and no context.
pub fn search_lines(content: &[u8], searcher: &Searcher) -> (r: Vec<LineMatch>)
    requires
        line_count(content@) <= u32::MAX,
    ensures
        match_views(r@) == search_content(content@, searcher.model()),
{
    let table = LineTable::new(content);
    let count = table.line_count(Ghost(content@));
    proof {
        lemma_line_count_bound(content@);
    }
    let mut out: Vec<LineMatch> = Vec::new();
    let mut k: usize = 0;
    while k < count
        invariant
            table.of(content@),
            count == line_count(content@),
            count <= u32::MAX,
            0 <= k <= count,
            match_views(out@) == matching_lines(content@, searcher.model(), k as int),
        decreases count - k,
    {
        let (start, end) = table.bounds(Ghost(content@), k);
        let line = vstd::slice::slice_subrange(content, start, end);
        let ranges = searcher_ranges(searcher, line);
        if ranges.len() > 0 {
            let text = line_text_of(content, &table, k);
            let lm = LineMatch {
                line_number: (k + 1) as u32,
                content: text,
                ranges,
                context_before: Vec::new(),
                context_after: Vec::new(),
            };
            let ghost before = out@;
            out.push(lm);
            proof {
                assert(line@ == line_bytes(content@, k as int));
                assert(context_views(Seq::<crate::search::ContextLine>::empty()) =~= Seq::<ContextLineView>::empty());
                assert(match_views(out@) =~= match_views(before).push(lm@));
            }
        } else {
            proof {
                assert(line@ == line_bytes(content@, k as int));
            }
        }
        k += 1;
    }
    out
}

} // verus!
