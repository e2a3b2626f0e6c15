//! Evaluating a query AST against raw file content.
//!
//! Leaf nodes (literals, phrases, regexes) find the lines they match; boolean
//! nodes combine those results; path and language filters put no constraint
//! on content. A query matches when its evaluation is `Some`; the lines it
//! reports are ordered by line number, one match per line.

use vstd::prelude::*;
use vstd::utf8::encode_utf8;
use vstd::string::StringSliceAdditionalSpecFns;
use crate::lines::{LineTable, line_bytes, line_count, line_text, line_text_of, lemma_line_count_bound};
use crate::merge::{strictly_sorted, has_line, merge_into, merge_into_exec, lemma_merge_into, sort_by_line, sort_lines, lemma_sort_members, lemma_sort_sorted};
use crate::query::Query;
use crate::search::{ContextLine, ContextLineView, LineMatch, LineMatchView, context_views, match_views};
use crate::verify::{CompiledRegex, LineSearch, Searcher, literal_ranges_from, occurs_at, regex_compiles, regex_find_all, search_content, search_lines, matching_lines, search_ranges};

verus! {

/// The result of a leaf: its matching lines, or `None` when there are none.
pub open spec fn leaf_lines(s: Seq<u8>, m: LineSearch) -> Option<Seq<LineMatchView>> {
    let ls = search_content(s, m);
    if ls.len() == 0 { None } else { Some(ls) }
}

/// The regex text that is compiled for a regex query: `(?i)` is prefixed
/// when the query is case-insensitive.
pub open spec fn effective_regex(pattern: Seq<char>, case_sensitive: bool) -> Seq<char> {
    if case_sensitive { pattern } else { "(?i)"@ + pattern }
}

/// How a literal or phrase is searched.
pub open spec fn literal_search(text: Seq<char>, case_sensitive: bool) -> LineSearch {
    LineSearch::Literal(encode_utf8(text), !case_sensitive)
}

/// OR of two results: whichever matched; both merged when both matched.
pub open spec fn or_lines(a: Option<Seq<LineMatchView>>, b: Option<Seq<LineMatchView>>) -> Option<Seq<LineMatchView>> {
    match (a, b) {
        (None, None) => None,
        (Some(x), None) => Some(x),
        (None, Some(y)) => Some(y),
        (Some(x), Some(y)) => Some(merge_into(merge_into(Seq::empty(), x), y)),
    }
}

/// AND of the first `n` children: `None` when any of them is `None`, else
/// their lines merged in order.
pub open spec fn and_lines(children: Vec<Query>, s: Seq<u8>, n: int) -> Option<Seq<LineMatchView>>
    decreases children, n,
{
    if n <= 0 || n > children@.len() {
        Some(Seq::empty())
    } else {
        proof {
            assert(decreases_to!(children => children[n - 1]));
        }
        match (and_lines(children, s, n - 1), eval_query(children@[n - 1], s)) {
            (Some(acc), Some(x)) => Some(merge_into(acc, x)),
            _ => None,
        }
    }
}

/// The evaluation of a query against content, without context lines.
pub open spec fn eval_query(q: Query, s: Seq<u8>) -> Option<Seq<LineMatchView>>
    decreases q, 0int,
{
    match q {
        Query::Literal(l) => leaf_lines(s, literal_search(l.text@, l.case_sensitive)),
        Query::Phrase(p) => leaf_lines(s, literal_search(p.text@, p.case_sensitive)),
        Query::Regex(r) => {
            let p = effective_regex(r.pattern@, r.case_sensitive);
            if regex_compiles(p) { leaf_lines(s, LineSearch::Regex(p)) } else { None }
        },
        Query::PathFilter(_) => Some(Seq::empty()),
        Query::LanguageFilter(_) => Some(Seq::empty()),
        Query::Not(inner) => if eval_query(*inner, s) is Some { None } else { Some(Seq::empty()) },
        Query::Or(a, b) => or_lines(eval_query(*a, s), eval_query(*b, s)),
        Query::And(children) => and_lines(children, s, children@.len() as int),
    }
}

} // verus!

verus! {

/// Line numbers increase strictly and lie between 1 and `total`.
pub open spec fn lines_wf(ls: Seq<LineMatchView>, total: int) -> bool {
    &&& strictly_sorted(ls)
    &&& forall|i: int| 0 <= i < ls.len() ==> 1 <= #[trigger] ls[i].line_number <= total
}

proof fn lemma_matching_lines_wf(s: Seq<u8>, m: LineSearch, n: int)
    requires
        0 <= n <= line_count(s),
        line_count(s) <= u32::MAX,
    ensures
        lines_wf(matching_lines(s, m, n), n),
    decreases n,
{
    if n > 0 {
        lemma_matching_lines_wf(s, m, n - 1);
    }
}

proof fn lemma_merge_wf(r: Seq<LineMatchView>, x: Seq<LineMatchView>, total: int)
    requires
        lines_wf(r, total),
        lines_wf(x, total),
    ensures
        lines_wf(merge_into(r, x), total),
{
    lemma_merge_into(r, x);
    let res = merge_into(r, x);
    assert forall|i: int| 0 <= i < res.len() implies 1 <= #[trigger] res[i].line_number <= total by {
        if r.contains(res[i]) {
            let j = choose|j: int| 0 <= j < r.len() && r[j] == res[i];
            assert(1 <= r[j].line_number <= total);
        } else {
            assert(x.contains(res[i]));
            let j = choose|j: int| 0 <= j < x.len() && x[j] == res[i];
            assert(1 <= x[j].line_number <= total);
        }
    }
}

/// Every result of an evaluation is ordered by line number, with line
/// numbers between 1 and the number of lines of the content.
pub proof fn lemma_eval_wf(q: Query, s: Seq<u8>)
    requires
        line_count(s) <= u32::MAX,
    ensures
        eval_query(q, s) matches Some(ls) ==> lines_wf(ls, line_count(s)),
    decreases q, 0int,
{
    let total = line_count(s);
    match q {
        Query::Literal(l) => {
            lemma_matching_lines_wf(s, literal_search(l.text@, l.case_sensitive), total);
        },
        Query::Phrase(p) => {
            lemma_matching_lines_wf(s, literal_search(p.text@, p.case_sensitive), total);
        },
        Query::Regex(r) => {
            lemma_matching_lines_wf(s, LineSearch::Regex(effective_regex(r.pattern@, r.case_sensitive)), total);
        },
        Query::PathFilter(_) => {},
        Query::LanguageFilter(_) => {},
        Query::Not(inner) => {},
        Query::Or(a, b) => {
            lemma_eval_wf(*a, s);
            lemma_eval_wf(*b, s);
            if let (Some(x), Some(y)) = (eval_query(*a, s), eval_query(*b, s)) {
                lemma_merge_wf(Seq::empty(), x, total);
                lemma_merge_wf(merge_into(Seq::empty(), x), y, total);
            }
        },
        Query::And(children) => {
            lemma_and_wf(children, s, children@.len() as int);
        },
    }
}

proof fn lemma_and_wf(children: Vec<Query>, s: Seq<u8>, n: int)
    requires
        line_count(s) <= u32::MAX,
    ensures
        and_lines(children, s, n) matches Some(ls) ==> lines_wf(ls, line_count(s)),
    decreases children, n,
{
    if n > 0 && n <= children@.len() {
        assert(decreases_to!(children => children[n - 1]));
        lemma_and_wf(children, s, n - 1);
        lemma_eval_wf(children@[n - 1], s);
        if let (Some(acc), Some(x)) = (and_lines(children, s, n - 1), eval_query(children@[n - 1], s)) {
            lemma_merge_wf(acc, x, line_count(s));
        }
    }
}

/// Once a child fails, every longer prefix of an AND fails.
proof fn lemma_and_none(children: Vec<Query>, s: Seq<u8>, k: int, n: int)
    requires
        0 <= k <= n <= children@.len(),
        and_lines(children, s, k) is None,
    ensures
        and_lines(children, s, n) is None,
    decreases n - k,
{
    if k < n {
        lemma_and_none(children, s, k + 1, n);
    }
}

/// The group of matches a match belongs to starts at it: it is the first, or
/// its line is more than `2c + 1` lines after the previous match.
pub open spec fn starts_group(ls: Seq<LineMatchView>, i: int, c: u32) -> bool {
    i == 0 || ls[i].line_number > ls[i - 1].line_number + 2 * c + 1
}

/// The group of matches a match belongs to ends at it.
pub open spec fn ends_group(ls: Seq<LineMatchView>, i: int, c: u32) -> bool {
    i == ls.len() - 1 || starts_group(ls, i + 1, c)
}

/// The lines `from .. to` (1-based, `to` excluded) as context lines.
pub open spec fn context_range(s: Seq<u8>, from: int, to: int) -> Seq<ContextLineView> {
    Seq::new(
        if from < to { (to - from) as nat } else { 0nat },
        |j: int| ContextLineView { line_number: (from + j) as u32, content: line_text(s, from + j - 1) },
    )
}

/// The first context line before a match on line `n`: `max(1, n - c)`.
pub open spec fn before_start(n: u32, c: u32) -> int {
    if n > c { n - c } else { 1 }
}

/// The last context line after a match on line `n`: `min(n + c, total)`.
pub open spec fn after_end(n: u32, c: u32, total: int) -> int {
    if n + c < total { n + c } else { total }
}

/// The matches with context attached: the first match of each group gets the
/// `c` lines before it (from line 1 at the earliest), the last match of each
/// group the `c` lines after it (up to the last line).
pub open spec fn with_context(s: Seq<u8>, ls: Seq<LineMatchView>, c: u32) -> Seq<LineMatchView> {
    Seq::new(
        ls.len(),
        |i: int|
            LineMatchView {
                line_number: ls[i].line_number,
                content: ls[i].content,
                ranges: ls[i].ranges,
                context_before: if starts_group(ls, i, c) {
                    context_range(s, before_start(ls[i].line_number, c), ls[i].line_number as int)
                } else {
                    ls[i].context_before
                },
                context_after: if ends_group(ls, i, c) {
                    context_range(s, ls[i].line_number + 1, after_end(ls[i].line_number, c, line_count(s)) + 1)
                } else {
                    ls[i].context_after
                },
            },
    )
}

/// The result of matching a query with `c` context lines.
pub open spec fn match_result(q: Query, s: Seq<u8>, c: u32) -> Option<Seq<LineMatchView>> {
    match eval_query(q, s) {
        None => None,
        Some(ls) => if c == 0 || ls.len() == 0 || s.len() == 0 {
            Some(ls)
        } else {
            Some(with_context(s, ls, c))
        },
    }
}

/// The views of an optional vector of matches.
pub open spec fn opt_views(r: Option<Vec<LineMatch>>) -> Option<Seq<LineMatchView>> {
    match r {
        Some(v) => Some(match_views(v@)),
        None => None,
    }
}

/// Merge two sets of line matches: ordered by line number, first match of
/// each line kept.
fn merge_line_matches(left: Vec<LineMatch>, right: Vec<LineMatch>) -> (r: Vec<LineMatch>)
    ensures
        match_views(r@) == merge_into(merge_into(Seq::empty(), match_views(left@)), match_views(right@)),
{
    let mut acc: Vec<LineMatch> = Vec::new();
    proof {
        assert(match_views(acc@) =~= Seq::<LineMatchView>::empty());
    }
    merge_into_exec(&mut acc, left);
    merge_into_exec(&mut acc, right);
    acc
}

/// The context lines `from .. to` (1-based, `to` excluded).
fn context_range_exec(content: &[u8], table: &LineTable, from: u64, to: u64) -> (r: Vec<ContextLine>)
    requires
        table.of(content@),
        1 <= from,
        to <= line_count(content@) + 1,
        line_count(content@) <= u32::MAX,
    ensures
        context_views(r@) == context_range(content@, from as int, to as int),
{
    let mut out: Vec<ContextLine> = Vec::new();
    let mut ln = from;
    while ln < to
        invariant
            table.of(content@),
            1 <= from <= ln,
            from < to ==> ln <= to,
            from >= to ==> ln == from,
            out@.len() == ln - from,
            to <= line_count(content@) + 1,
            line_count(content@) <= u32::MAX,
            context_views(out@) == context_range(content@, from as int, to as int).take(ln - from),
        decreases to - ln,
    {
        let text = line_text_of(content, table, (ln - 1) as usize);
        let cl = ContextLine { line_number: ln as u32, content: text };
        let ghost before = out@;
        out.push(cl);
        proof {
            let rng = context_range(content@, from as int, to as int);
            assert(rng.len() == to - from);
            assert(cl@ == rng[ln - from]);
            assert(out@ == before.push(cl));
            assert forall|j: int| 0 <= j < ln + 1 - from implies #[trigger] context_views(out@)[j] == rng.take(ln + 1 - from)[j] by {
                if j < ln - from {
                    assert(context_views(out@)[j] == context_views(before)[j]);
                }
            }
            assert(context_views(out@) =~= rng.take(ln + 1 - from));
        }
        ln = ln + 1;
    }
    proof {
        let rng = context_range(content@, from as int, to as int);
        if from < to {
            assert(ln == to);
            assert(rng.len() == ln - from);
        } else {
            assert(rng.len() == 0);
            assert(ln == from);
        }
        assert(context_range(content@, from as int, to as int).take(ln - from) =~= context_range(
            content@,
            from as int,
            to as int,
        ));
    }
    out
}

/// Attach context lines to matches. Without content or without matches they
/// are returned unchanged. Otherwise they are stably sorted by line number;
/// matches whose context windows overlap form a group; the first of each
/// group gets the lines before it and the last the lines after it.
fn attach_context(content: &[u8], lines: Vec<LineMatch>, c: u32) -> (r: Vec<LineMatch>)
    requires
        line_count(content@) <= u32::MAX,
        forall|i: int| 0 <= i < lines@.len() ==> #[trigger] lines@[i].line_number <= line_count(content@),
    ensures
        match_views(r@) == if content@.len() == 0 || lines@.len() == 0 {
            match_views(lines@)
        } else {
            with_context(content@, sort_by_line(match_views(lines@)), c)
        },
{
    if content.len() == 0 || lines.len() == 0 {
        return lines;
    }
    let ghost orig = lines@;
    let ghost given = match_views(lines@);
    let lines = sort_lines(lines);
    let table = LineTable::new(content);
    let total = table.line_count(Ghost(content@));
    let ghost ls = match_views(lines@);
    proof {
        lemma_sort_members(given);
        assert forall|j: int| 0 <= j < ls.len() implies #[trigger] ls[j].line_number <= total by {
            let k = choose|k: int| 0 <= k < given.len() && given[k] == ls[j];
            assert(given[k] == orig[k]@);
            assert(orig[k].line_number <= total);
        }
    }
    let ghost target = with_context(content@, ls, c);
    let n = lines.len();
    let mut nums: Vec<u32> = Vec::new();
    let mut k: usize = 0;
    while k < n
        invariant
            n == lines@.len(),
            ls == match_views(lines@),
            0 <= k <= n,
            nums@.len() == k,
            forall|j: int| 0 <= j < k ==> nums@[j] == #[trigger] ls[j].line_number,
        decreases n - k,
    {
        nums.push(lines[k].line_number);
        k += 1;
    }
    let mut rest = lines;
    let mut out: Vec<LineMatch> = Vec::new();
    let mut i: usize = 0;
    proof {
        assert(match_views(rest@) =~= ls.skip(0));
    }
    while i < n
        invariant
            table.of(content@),
            total == line_count(content@),
            total <= u32::MAX,
            n == ls.len(),
            forall|j: int| 0 <= j < n ==> #[trigger] ls[j].line_number <= total,
            target == with_context(content@, ls, c),
            nums@.len() == n,
            forall|j: int| 0 <= j < n ==> nums@[j] == #[trigger] ls[j].line_number,
            0 <= i <= n,
            match_views(rest@) == ls.skip(i as int),
            rest@.len() == n - i,
            out@.len() == i,
            match_views(out@) == target.take(i as int),
        decreases n - i,
    {
        let ghost old_rest = rest@;
        let mut m = rest.remove(0);
        proof {
            assert(m == old_rest[0]);
            assert(match_views(old_rest)[0] == ls.skip(i as int)[0]);
            assert(rest@ == old_rest.remove(0));
            assert forall|j: int| 0 <= j < rest@.len() implies match_views(rest@)[j] == ls.skip(i + 1)[j] by {
                assert(rest@[j] == old_rest[j + 1]);
                assert(match_views(old_rest)[j + 1] == ls.skip(i as int)[j + 1]);
            }
            assert(match_views(rest@) =~= ls.skip(i + 1));
        }
        let ghost m0 = m@;
        proof {
            assert(m0 == ls[i as int]);
            assert(m0.line_number <= total);
        }
        let ln = m.line_number;
        let starts = i == 0 || (ln as u64) > (nums[i - 1] as u64) + 2 * (c as u64) + 1;
        let ends = i + 1 == n || (nums[i + 1] as u64) > (ln as u64) + 2 * (c as u64) + 1;
        if starts {
            let from: u64 = if ln > c { (ln - c) as u64 } else { 1 };
            m.context_before = context_range_exec(content, &table, from, ln as u64);
        }
        if ends {
            let last: u64 = if (ln as u64) + (c as u64) < (total as u64) { (ln as u64) + (c as u64) } else { total as u64 };
            m.context_after = context_range_exec(content, &table, (ln as u64) + 1, last + 1);
        }
        proof {
            assert(m0 == ls[i as int]);
            assert(starts == starts_group(ls, i as int, c));
            assert(ends == ends_group(ls, i as int, c));
            assert(m@ == target[i as int]);
        }
        let ghost before = out@;
        out.push(m);
        proof {
            assert(out@ == before.push(m));
            assert forall|j: int| 0 <= j < i + 1 implies #[trigger] match_views(out@)[j] == target.take(i + 1)[j] by {
                if j < i {
                    assert(match_views(out@)[j] == match_views(before)[j]);
                }
            }
            assert(match_views(out@) =~= target.take(i + 1));
        }
        i += 1;
    }
    proof {
        assert(target.take(n as int) =~= target);
    }
    out
}

/// Evaluates a query AST against raw file content.
pub struct QueryMatcher<'a> {
    query: &'a Query,
    context_lines: u32,
}

impl<'a> QueryMatcher<'a> {
    /// The query being matched.
    pub closed spec fn query_spec(&self) -> Query {
        *self.query
    }

    /// The number of context lines attached around matches.
    pub closed spec fn context_spec(&self) -> u32 {
        self.context_lines
    }

    /// Create a new `QueryMatcher` for the given query and context line count.
    pub fn new(query: &'a Query, context_lines: u32) -> (r: Self)
        ensures
            r.query_spec() == *query,
            r.context_spec() == context_lines,
    {
        QueryMatcher { query, context_lines }
    }

    /// Match the query against content: `Some(lines)` if the content matches,
    /// `None` if not. With context lines, the first and last match of each
    /// group of nearby matches get the surrounding lines.
    pub fn matches(&self, content: &[u8]) -> (r: Option<Vec<LineMatch>>)
        requires
            line_count(content@) <= u32::MAX,
        ensures
            opt_views(r) == match_result(self.query_spec(), content@, self.context_spec()),
    {
        let lines = match self.eval(self.query, content) {
            None => return None,
            Some(l) => l,
        };
        if self.context_lines == 0 || lines.len() == 0 || content.len() == 0 {
            return Some(lines);
        }
        proof {
            lemma_eval_wf(*self.query, content@);
            lemma_sort_sorted(match_views(lines@));
            assert(eval_query(*self.query, content@) == Some(match_views(lines@)));
            assert(lines_wf(match_views(lines@), line_count(content@)));
            assert forall|i: int| 0 <= i < lines@.len() implies #[trigger] lines@[i].line_number <= line_count(content@) by {
                assert(match_views(lines@)[i] == lines@[i]@);
                assert(1 <= match_views(lines@)[i].line_number <= line_count(content@));
            }
        }
        Some(attach_context(content, lines, self.context_lines))
    }

    /// Recursively evaluate a query node against content (without context).
    fn eval(&self, query: &Query, content: &[u8]) -> (r: Option<Vec<LineMatch>>)
        requires
            line_count(content@) <= u32::MAX,
        ensures
            opt_views(r) == eval_query(*query, content@),
        decreases query,
    {
        match query {
            Query::Literal(lit) => {
                let needle = vstd::slice::slice_to_vec(lit.text.as_str().as_bytes());
                let searcher = Searcher::Literal { needle, fold: !lit.case_sensitive };
                let lines = search_lines(content, &searcher);
                if lines.len() == 0 { None } else { Some(lines) }
            },
            Query::Phrase(ph) => {
                let needle = vstd::slice::slice_to_vec(ph.text.as_str().as_bytes());
                let searcher = Searcher::Literal { needle, fold: !ph.case_sensitive };
                let lines = search_lines(content, &searcher);
                if lines.len() == 0 { None } else { Some(lines) }
            },
            Query::Regex(re) => {
                let effective: String = if re.case_sensitive {
                    re.pattern.clone()
                } else {
                    let mut p = "(?i)".to_owned();
                    p.append(re.pattern.as_str());
                    p
                };
                match CompiledRegex::new(effective.as_str()) {
                    None => None,
                    Some(c) => {
                        let searcher = Searcher::Regex(c);
                        let lines = search_lines(content, &searcher);
                        if lines.len() == 0 { None } else { Some(lines) }
                    },
                }
            },
            Query::PathFilter(_) => Some(Vec::new()),
            Query::LanguageFilter(_) => Some(Vec::new()),
            Query::Not(inner) => {
                match self.eval(inner, content) {
                    Some(_) => None,
                    None => Some(Vec::new()),
                }
            },
            Query::Or(left, right) => {
                let left_result = self.eval(left, content);
                let right_result = self.eval(right, content);
                match (left_result, right_result) {
                    (None, None) => None,
                    (Some(lines), None) => Some(lines),
                    (None, Some(lines)) => Some(lines),
                    (Some(left_lines), Some(right_lines)) => Some(merge_line_matches(left_lines, right_lines)),
                }
            },
            Query::And(children) => {
                let mut merged: Vec<LineMatch> = Vec::new();
                let n = children.len();
                let mut i: usize = 0;
                proof {
                    assert(match_views(merged@) =~= Seq::<LineMatchView>::empty());
                }
                while i < n
                    invariant
                        n == children@.len(),
                        0 <= i <= n,
                        line_count(content@) <= u32::MAX,
                        *query == Query::And(*children),
                        and_lines(*children, content@, i as int) == Some(match_views(merged@)),
                    decreases n - i,
                {
                    proof {
                        assert(decreases_to!(*query => children[i as int]));
                    }
                    match self.eval(&children[i], content) {
                        None => {
                            proof {
                                lemma_and_none(*children, content@, i + 1, n as int);
                            }
                            return None;
                        },
                        Some(lines) => {
                            merge_into_exec(&mut merged, lines);
                        },
                    }
                    i += 1;
                }
                Some(merged)
            },
        }
    }
}

} // verus!

verus! {

/// A non-empty search result has a line with a match among the first `n`.
proof fn lemma_matching_lines_nonempty(s: Seq<u8>, m: LineSearch, n: int)
    requires
        matching_lines(s, m, n).len() > 0,
    ensures
        exists|k: int| 0 <= k < n && (#[trigger] search_ranges(m, line_bytes(s, k))).len() > 0,
    decreases n,
{
    if n > 0 {
        let r = search_ranges(m, line_bytes(s, n - 1));
        if r.len() == 0 {
            lemma_matching_lines_nonempty(s, m, n - 1);
        }
    }
}

/// Scanning from `i` finds a range exactly when the needle occurs at or
/// after `i`.
pub proof fn lemma_literal_ranges_from_nonempty(h: Seq<u8>, p: Seq<u8>, fold: bool, i: int)
    requires
        0 <= i,
        p.len() > 0,
    ensures
        literal_ranges_from(h, p, fold, i).len() > 0 <==> exists|j: int| i <= j && #[trigger] occurs_at(h, p, j, fold),
    decreases h.len() - i,
{
    if i + p.len() > h.len() {
        assert forall|j: int| i <= j implies !#[trigger] occurs_at(h, p, j, fold) by {
        }
    } else if occurs_at(h, p, i, fold) {
    } else {
        lemma_literal_ranges_from_nonempty(h, p, fold, i + 1);
        assert forall|j: int| i <= j && #[trigger] occurs_at(h, p, j, fold) implies i + 1 <= j by {
        }
    }
}

/// A line is reported by a literal search exactly when the needle occurs in
/// it (ASCII-case-insensitively when folding). An empty needle matches no line.
pub proof fn lemma_literal_line_reported(line: Seq<u8>, p: Seq<u8>, fold: bool)
    ensures
        search_ranges(LineSearch::Literal(p, fold), line).len() > 0 <==> (p.len() > 0 && exists|j: int|
            0 <= j && #[trigger] occurs_at(line, p, j, fold)),
{
    if p.len() > 0 {
        lemma_literal_ranges_from_nonempty(line, p, fold, 0);
    }
}

/// Folded bytes that compare equal (with or without folding) have equal
/// lower-case forms.
proof fn lemma_fold_lower(a: u8, b: u8, fold: bool)
    requires
        crate::verify::fold_byte(a, fold) == crate::verify::fold_byte(b, fold),
    ensures
        crate::text::lower_byte(a) == crate::text::lower_byte(b),
{
}

/// Trigram pre-filtering is sound for literals: when a literal (or phrase)
/// search matches some line of the content, every trigram that
/// `extract_literal_trigrams` takes from its text is a folded trigram of the
/// content. A file lacking any of those trigrams therefore never matches.
pub proof fn lemma_literal_trigrams_sound(text: Seq<char>, case_sensitive: bool, s: Seq<u8>)
    requires
        leaf_lines(s, literal_search(text, case_sensitive)) is Some,
    ensures
        crate::query_trigrams::literal_plan(encode_utf8(text)) matches crate::query_trigrams::TrigramPlan::All(ts)
            ==> ts.subset_of(crate::trigram::folded_trigrams(s)),
{
    let p = encode_utf8(text);
    let fold = !case_sensitive;
    let m = literal_search(text, case_sensitive);
    lemma_matching_lines_nonempty(s, m, line_count(s));
    let k = choose|k: int| 0 <= k < line_count(s) && (#[trigger] search_ranges(m, line_bytes(s, k))).len() > 0;
    let line = line_bytes(s, k);
    lemma_literal_line_reported(line, p, fold);
    let j = choose|j: int| 0 <= j && #[trigger] occurs_at(line, p, j, fold);
    crate::lines::lemma_line_bounds(s, k);
    let start = crate::lines::line_start(s, k);
    if p.len() >= 3 {
        assert forall|t: crate::trigram::TrigramBytes| crate::trigram::folded_trigrams(p).contains(t)
            implies crate::trigram::folded_trigrams(s).contains(t) by {
            let w = choose|w: int| 0 <= w && w + 3 <= p.len() && t == #[trigger] crate::trigram::folded_trigram_at(p, w);
            let at = start + j + w;
            assert(line[j + w] == s[at]);
            assert(line[j + w + 1] == s[at + 1]);
            assert(line[j + w + 2] == s[at + 2]);
            let w1 = w + 1;
            let w2 = w + 2;
            assert(crate::verify::fold_byte(line[j + w1], fold) == crate::verify::fold_byte(p[w1], fold));
            assert(crate::verify::fold_byte(line[j + w2], fold) == crate::verify::fold_byte(p[w2], fold));
            lemma_fold_lower(line[j + w], p[w], fold);
            lemma_fold_lower(line[j + w1], p[w1], fold);
            lemma_fold_lower(line[j + w2], p[w2], fold);
            assert(crate::trigram::folded_trigram_at(s, at) == t);
        }
    }
}

/// Trigram pre-filtering is sound for literal and phrase queries: if
/// `Query::Literal` or `Query::Phrase` matches the content, every trigram
/// extracted from its text is among the content's folded trigrams.
pub proof fn lemma_leaf_query_trigrams_sound(q: Query, s: Seq<u8>)
    requires
        eval_query(q, s) is Some,
    ensures
        q matches Query::Literal(l) ==> (crate::query_trigrams::literal_plan(encode_utf8(l.text@)) matches crate::query_trigrams::TrigramPlan::All(ts)
            ==> ts.subset_of(crate::trigram::folded_trigrams(s))),
        q matches Query::Phrase(p) ==> (crate::query_trigrams::literal_plan(encode_utf8(p.text@)) matches crate::query_trigrams::TrigramPlan::All(ts)
            ==> ts.subset_of(crate::trigram::folded_trigrams(s))),
{
    match q {
        Query::Literal(l) => lemma_literal_trigrams_sound(l.text@, l.case_sensitive, s),
        Query::Phrase(p) => lemma_literal_trigrams_sound(p.text@, p.case_sensitive, s),
        _ => {},
    }
}

/// A phrase is searched exactly as a literal with the same text and case
/// sensitivity.
pub proof fn lemma_phrase_is_literal(p: crate::query::PhraseQuery, l: crate::query::LiteralQuery, s: Seq<u8>)
    requires
        p.text@ == l.text@,
        p.case_sensitive == l.case_sensitive,
    ensures
        eval_query(Query::Phrase(p), s) == eval_query(Query::Literal(l), s),
{
}

/// A case-insensitive regex query is the case-sensitive query of the same
/// pattern behind `(?i)`.
pub proof fn lemma_regex_ignore_case(a: crate::query::RegexQuery, b: crate::query::RegexQuery, s: Seq<u8>)
    requires
        !a.case_sensitive,
        b.case_sensitive,
        b.pattern@ == "(?i)"@ + a.pattern@,
    ensures
        eval_query(Query::Regex(a), s) == eval_query(Query::Regex(b), s),
{
}

/// No context at all: every match has empty context before and after.
pub open spec fn no_context(ls: Seq<LineMatchView>) -> bool {
    forall|i: int| 0 <= i < ls.len() ==> (#[trigger] ls[i]).context_before.len() == 0 && ls[i].context_after.len() == 0
}

proof fn lemma_matching_lines_no_context(s: Seq<u8>, m: LineSearch, n: int)
    ensures
        no_context(matching_lines(s, m, n)),
    decreases n,
{
    if n > 0 {
        lemma_matching_lines_no_context(s, m, n - 1);
    }
}

proof fn lemma_merge_no_context(r: Seq<LineMatchView>, x: Seq<LineMatchView>)
    requires
        strictly_sorted(r),
        no_context(r),
        no_context(x),
    ensures
        no_context(merge_into(r, x)),
{
    lemma_merge_into(r, x);
    let m = merge_into(r, x);
    assert forall|i: int| 0 <= i < m.len() implies (#[trigger] m[i]).context_before.len() == 0 && m[i].context_after.len() == 0 by {
        if r.contains(m[i]) {
            let j = choose|j: int| 0 <= j < r.len() && r[j] == m[i];
            assert(r[j].context_before.len() == 0);
        } else {
            let j = choose|j: int| 0 <= j < x.len() && x[j] == m[i];
            assert(x[j].context_before.len() == 0);
        }
    }
}

/// Evaluation attaches no context: every line it reports has empty context
/// before and after (context is added by [`QueryMatcher::matches`] only).
pub proof fn lemma_eval_no_context(q: Query, s: Seq<u8>)
    ensures
        eval_query(q, s) matches Some(ls) ==> no_context(ls),
    decreases q, 0int,
{
    match q {
        Query::Literal(l) => lemma_matching_lines_no_context(s, literal_search(l.text@, l.case_sensitive), line_count(s)),
        Query::Phrase(p) => lemma_matching_lines_no_context(s, literal_search(p.text@, p.case_sensitive), line_count(s)),
        Query::Regex(r) => lemma_matching_lines_no_context(
            s,
            LineSearch::Regex(effective_regex(r.pattern@, r.case_sensitive)),
            line_count(s),
        ),
        Query::Not(inner) => {},
        Query::Or(a, b) => {
            lemma_eval_no_context(*a, s);
            lemma_eval_no_context(*b, s);
            if let (Some(x), Some(y)) = (eval_query(*a, s), eval_query(*b, s)) {
                lemma_merge_no_context(Seq::empty(), x);
                lemma_merge_into(Seq::empty(), x);
                lemma_merge_no_context(merge_into(Seq::empty(), x), y);
            }
        },
        Query::And(children) => lemma_and_no_context(children, s, children@.len() as int),
        _ => {},
    }
}

proof fn lemma_and_no_context(children: Vec<Query>, s: Seq<u8>, n: int)
    ensures
        and_lines(children, s, n) matches Some(ls) ==> no_context(ls) && strictly_sorted(ls),
    decreases children, n,
{
    if n > 0 && n <= children@.len() {
        assert(decreases_to!(children => children[n - 1]));
        lemma_and_no_context(children, s, n - 1);
        lemma_eval_no_context(children@[n - 1], s);
        if let (Some(acc), Some(x)) = (and_lines(children, s, n - 1), eval_query(children@[n - 1], s)) {
            lemma_merge_no_context(acc, x);
            lemma_merge_into(acc, x);
        }
    }
}

/// A literal query with a non-empty text reports exactly the lines whose
/// bytes contain the text (ASCII case ignored when it is case-insensitive),
/// in increasing line order; it matches when there is one.
pub proof fn lemma_literal_query_lines(l: crate::query::LiteralQuery, s: Seq<u8>)
    requires
        encode_utf8(l.text@).len() > 0,
        line_count(s) <= u32::MAX,
    ensures
        eval_query(Query::Literal(l), s) is Some <==> exists|k: int|
            0 <= k < line_count(s) && literal_occurs(#[trigger] line_bytes(s, k), encode_utf8(l.text@), !l.case_sensitive),
        eval_query(Query::Literal(l), s) matches Some(ls) ==> strictly_sorted(ls) && forall|n: u32| has_line(ls, n) <==> (1 <= n
            <= line_count(s) && literal_occurs(line_bytes(s, n - 1), encode_utf8(l.text@), !l.case_sensitive)),
{
    lemma_literal_lines_upto(s, encode_utf8(l.text@), !l.case_sensitive, line_count(s));
}

/// The needle occurs somewhere in the haystack (compared with folding when
/// `fold`).
pub open spec fn literal_occurs(h: Seq<u8>, p: Seq<u8>, fold: bool) -> bool {
    exists|j: int| 0 <= j && #[trigger] occurs_at(h, p, j, fold)
}

proof fn lemma_literal_lines_upto(s: Seq<u8>, p: Seq<u8>, fold: bool, n: int)
    requires
        p.len() > 0,
        0 <= n <= line_count(s),
        line_count(s) <= u32::MAX,
    ensures
        matching_lines(s, LineSearch::Literal(p, fold), n).len() > 0 <==> exists|k: int| 0 <= k < n && #[trigger] literal_occurs(line_bytes(s, k), p, fold),
        strictly_sorted(matching_lines(s, LineSearch::Literal(p, fold), n)),
        forall|x: u32| has_line(matching_lines(s, LineSearch::Literal(p, fold), n), x) <==> (1 <= x <= n && literal_occurs(line_bytes(s, x - 1), p, fold)),
        forall|i: int| 0 <= i < matching_lines(s, LineSearch::Literal(p, fold), n).len() ==> 1 <= #[trigger] matching_lines(s, LineSearch::Literal(p, fold), n)[i].line_number <= n,
    decreases n,
{
    if n > 0 {
        lemma_literal_lines_upto(s, p, fold, n - 1);
        let prev = matching_lines(s, LineSearch::Literal(p, fold), n - 1);
        let line = line_bytes(s, n - 1);
        lemma_literal_line_reported(line, p, fold);
        let cur = matching_lines(s, LineSearch::Literal(p, fold), n);
        assert forall|x: u32| has_line(cur, x) <==> (1 <= x <= n && literal_occurs(line_bytes(s, x - 1), p, fold)) by {
            if has_line(cur, x) {
                let j = choose|j: int| 0 <= j < cur.len() && #[trigger] cur[j].line_number == x;
                if j < prev.len() {
                    assert(cur[j] == prev[j]);
                    assert(has_line(prev, x));
                }
            }
            if 1 <= x <= n && literal_occurs(line_bytes(s, x - 1), p, fold) {
                if x < n {
                    assert(has_line(prev, x));
                    let j = choose|j: int| 0 <= j < prev.len() && #[trigger] prev[j].line_number == x;
                    assert(cur[j] == prev[j]);
                } else {
                    assert(cur[cur.len() - 1].line_number == x);
                }
            }
        }
        if exists|k: int| 0 <= k < n && #[trigger] literal_occurs(line_bytes(s, k), p, fold) {
            let k = choose|k: int| 0 <= k < n && #[trigger] literal_occurs(line_bytes(s, k), p, fold);
            if k < n - 1 {
                assert(exists|k: int| 0 <= k < n - 1 && #[trigger] literal_occurs(line_bytes(s, k), p, fold));
            } else {
                assert(search_ranges(LineSearch::Literal(p, fold), line).len() > 0);
            }
        }
        if cur.len() > 0 {
            if prev.len() == 0 {
                assert(search_ranges(LineSearch::Literal(p, fold), line).len() > 0);
                assert(literal_occurs(line_bytes(s, n - 1), p, fold));
            }
        }
    }
}

/// The lines found among the first `n` by a searcher: ordered, exactly the
/// lines in which it finds a range, each with its text and the ranges found.
proof fn lemma_matching_lines_exact(s: Seq<u8>, m: LineSearch, n: int)
    requires
        0 <= n <= line_count(s),
        line_count(s) <= u32::MAX,
    ensures
        matching_lines(s, m, n).len() > 0 <==> exists|k: int| 0 <= k < n && (#[trigger] search_ranges(m, line_bytes(s, k))).len() > 0,
        strictly_sorted(matching_lines(s, m, n)),
        forall|x: u32| has_line(matching_lines(s, m, n), x) <==> (1 <= x <= n && search_ranges(m, line_bytes(s, x - 1)).len() > 0),
        forall|i: int| 0 <= i < matching_lines(s, m, n).len() ==> {
            let lm = #[trigger] matching_lines(s, m, n)[i];
            &&& 1 <= lm.line_number <= n
            &&& lm.ranges == search_ranges(m, line_bytes(s, lm.line_number - 1))
            &&& lm.content == line_text(s, lm.line_number - 1)
        },
    decreases n,
{
    if n > 0 {
        lemma_matching_lines_exact(s, m, n - 1);
        let prev = matching_lines(s, m, n - 1);
        let cur = matching_lines(s, m, n);
        assert forall|x: u32| has_line(cur, x) <==> (1 <= x <= n && search_ranges(m, line_bytes(s, x - 1)).len() > 0) by {
            if has_line(cur, x) {
                let j = choose|j: int| 0 <= j < cur.len() && #[trigger] cur[j].line_number == x;
                if j < prev.len() {
                    assert(cur[j] == prev[j]);
                    assert(has_line(prev, x));
                }
            }
            if 1 <= x <= n && search_ranges(m, line_bytes(s, x - 1)).len() > 0 {
                if x < n {
                    assert(has_line(prev, x));
                    let j = choose|j: int| 0 <= j < prev.len() && #[trigger] prev[j].line_number == x;
                    assert(cur[j] == prev[j]);
                } else {
                    assert(cur[cur.len() - 1].line_number == x);
                }
            }
        }
        assert forall|i: int| 0 <= i < cur.len() implies {
            let lm = #[trigger] cur[i];
            &&& 1 <= lm.line_number <= n
            &&& lm.ranges == search_ranges(m, line_bytes(s, lm.line_number - 1))
            &&& lm.content == line_text(s, lm.line_number - 1)
        } by {
            if i < prev.len() {
                assert(cur[i] == prev[i]);
            }
        }
        if exists|k: int| 0 <= k < n && (#[trigger] search_ranges(m, line_bytes(s, k))).len() > 0 {
            let k = choose|k: int| 0 <= k < n && (#[trigger] search_ranges(m, line_bytes(s, k))).len() > 0;
            if k < n - 1 {
                assert(exists|k: int| 0 <= k < n - 1 && (#[trigger] search_ranges(m, line_bytes(s, k))).len() > 0);
            }
        }
    }
}

/// A regex query reports exactly the lines in which the regex engine, given
/// the query's own pattern text (behind `(?i)` when the query is
/// case-insensitive, and unchanged otherwise), finds a match: in line order,
/// each with its text and the matches found. It matches nothing when that
/// text does not compile.
pub proof fn lemma_regex_query_lines(r: crate::query::RegexQuery, p: Seq<char>, s: Seq<u8>)
    requires
        p == (if r.case_sensitive { r.pattern@ } else { "(?i)"@ + r.pattern@ }),
        line_count(s) <= u32::MAX,
    ensures
        eval_query(Query::Regex(r), s) is Some <==> (regex_compiles(p) && exists|k: int|
            0 <= k < line_count(s) && (#[trigger] regex_find_all(p, line_bytes(s, k))).len() > 0),
        eval_query(Query::Regex(r), s) matches Some(ls) ==> {
            &&& strictly_sorted(ls)
            &&& forall|n: u32| has_line(ls, n) <==> (1 <= n <= line_count(s) && regex_find_all(p, line_bytes(s, n - 1)).len() > 0)
            &&& forall|i: int| 0 <= i < ls.len() ==> (#[trigger] ls[i]).ranges == regex_find_all(p, line_bytes(s, ls[i].line_number - 1))
                && ls[i].content == line_text(s, ls[i].line_number - 1)
        },
{
    let m = LineSearch::Regex(p);
    lemma_matching_lines_exact(s, m, line_count(s));
    assert(effective_regex(r.pattern@, r.case_sensitive) == p);
    if exists|k: int| 0 <= k < line_count(s) && (#[trigger] regex_find_all(p, line_bytes(s, k))).len() > 0 {
        let k = choose|k: int| 0 <= k < line_count(s) && (#[trigger] regex_find_all(p, line_bytes(s, k))).len() > 0;
        assert(search_ranges(m, line_bytes(s, k)).len() > 0);
    }
    if exists|k: int| 0 <= k < line_count(s) && (#[trigger] search_ranges(m, line_bytes(s, k))).len() > 0 {
        let k = choose|k: int| 0 <= k < line_count(s) && (#[trigger] search_ranges(m, line_bytes(s, k))).len() > 0;
        assert(regex_find_all(p, line_bytes(s, k)).len() > 0);
    }
}

/// The result matched and reports line `n`.
pub open spec fn reports_line(r: Option<Seq<LineMatchView>>, n: u32) -> bool {
    match r {
        Some(x) => has_line(x, n),
        None => false,
    }
}

/// NOT matches exactly when its operand does not, and reports no lines.
pub proof fn lemma_not_semantics(q: Query, s: Seq<u8>)
    ensures
        eval_query(Query::Not(Box::new(q)), s) is Some <==> eval_query(q, s) is None,
        eval_query(Query::Not(Box::new(q)), s) matches Some(ls) ==> ls.len() == 0,
        eval_query(Query::Not(Box::new(Query::Not(Box::new(q)))), s) is Some <==> eval_query(q, s) is Some,
{
}

/// OR matches exactly when either operand does; the lines it reports are
/// ordered and are those of both operands.
pub proof fn lemma_or_semantics(a: Query, b: Query, s: Seq<u8>)
    ensures
        eval_query(Query::Or(Box::new(a), Box::new(b)), s) is Some <==> (eval_query(a, s) is Some || eval_query(b, s) is Some),
        eval_query(Query::Or(Box::new(a), Box::new(b)), s) matches Some(ls) ==> forall|n: u32| has_line(ls, n) <==> (
            reports_line(eval_query(a, s), n) || reports_line(eval_query(b, s), n)),
        eval_query(a, s) is None ==> eval_query(Query::Or(Box::new(a), Box::new(b)), s) == eval_query(b, s),
        eval_query(b, s) is None ==> eval_query(Query::Or(Box::new(a), Box::new(b)), s) == eval_query(a, s),
        (eval_query(a, s) is Some && eval_query(b, s) is Some) ==> (eval_query(Query::Or(Box::new(a), Box::new(b)), s) matches Some(
            ls,
        ) && strictly_sorted(ls)),
{
    if let (Some(x), Some(y)) = (eval_query(a, s), eval_query(b, s)) {
        lemma_merge_into(Seq::empty(), x);
        lemma_merge_into(merge_into(Seq::empty(), x), y);
    }
}

/// AND matches exactly when every child does; the lines it reports are
/// ordered and are those of all children.
pub proof fn lemma_and_semantics(children: Vec<Query>, s: Seq<u8>)
    ensures
        eval_query(Query::And(children), s) is Some <==> forall|i: int| 0 <= i < children@.len() ==> (#[trigger] eval_query(
            children@[i],
            s,
        )) is Some,
        eval_query(Query::And(children), s) matches Some(ls) ==> forall|n: u32| has_line(ls, n) <==> exists|i: int|
            0 <= i < children@.len() && reports_line(#[trigger] eval_query(children@[i], s), n),
        eval_query(Query::And(children), s) matches Some(ls) ==> strictly_sorted(ls),
        children@.len() == 0 ==> eval_query(Query::And(children), s) == Some(Seq::<LineMatchView>::empty()),
{
    lemma_and_prefix(children, s, children@.len() as int);
}

proof fn lemma_and_prefix(children: Vec<Query>, s: Seq<u8>, n: int)
    requires
        0 <= n <= children@.len(),
    ensures
        and_lines(children, s, n) is Some <==> forall|i: int| 0 <= i < n ==> (#[trigger] eval_query(children@[i], s)) is Some,
        and_lines(children, s, n) matches Some(ls) ==> (strictly_sorted(ls) && forall|m: u32| has_line(ls, m) <==> exists|i: int|
            0 <= i < n && reports_line(#[trigger] eval_query(children@[i], s), m)),
    decreases n,
{
    if n > 0 {
        lemma_and_prefix(children, s, n - 1);
        if let (Some(acc), Some(x)) = (and_lines(children, s, n - 1), eval_query(children@[n - 1], s)) {
            lemma_merge_into(acc, x);
            let ls = merge_into(acc, x);
            assert forall|m: u32| has_line(ls, m) <==> exists|i: int|
                0 <= i < n && reports_line(#[trigger] eval_query(children@[i], s), m) by {
                if has_line(x, m) {
                    assert(reports_line(eval_query(children@[n - 1], s), m));
                }
                if exists|i: int| 0 <= i < n && reports_line(#[trigger] eval_query(children@[i], s), m) {
                    let i = choose|i: int| 0 <= i < n && reports_line(#[trigger] eval_query(children@[i], s), m);
                    if i < n - 1 {
                        assert(exists|i: int| 0 <= i < n - 1 && reports_line(#[trigger] eval_query(children@[i], s), m));
                    }
                }
            }
        }
        if and_lines(children, s, n - 1) is None {
            let i = choose|i: int| 0 <= i < n - 1 && !((#[trigger] eval_query(children@[i], s)) is Some);
        }
    }
}

/// Path and language filters put no constraint on content.
pub proof fn lemma_filters_pass(path: String, lang: crate::types::Language, s: Seq<u8>)
    ensures
        eval_query(Query::PathFilter(path), s) == Some(Seq::<LineMatchView>::empty()),
        eval_query(Query::LanguageFilter(lang), s) == Some(Seq::<LineMatchView>::empty()),
{
}

/// Context lines never change which lines match or their order: matching
/// with any number of context lines reports the same lines, with the same
/// text and ranges, as evaluation alone.
pub proof fn lemma_context_keeps_matches(q: Query, s: Seq<u8>, c: u32)
    ensures
        match_result(q, s, c) is Some <==> eval_query(q, s) is Some,
        match_result(q, s, c) matches Some(r) ==> (eval_query(q, s) matches Some(ls) && r.len() == ls.len()
            && forall|i: int| 0 <= i < r.len() ==> (#[trigger] r[i]).line_number == ls[i].line_number
                && r[i].content == ls[i].content && r[i].ranges == ls[i].ranges),
{
}

} // verus!
