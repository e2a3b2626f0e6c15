//! The line structure of file content.
//!
//! Lines are the pieces of the content between `\n` bytes. Content that ends
//! with `\n` has no empty line after it; empty content has no lines. The text
//! of a line drops one trailing `\r` and is empty when the line is not valid
//! UTF-8.

use vstd::prelude::*;
use crate::text::{utf8_text, text_of_bytes};

verus! {

/// Positions of every occurrence of byte `b` in `s`, in increasing order.
pub open spec fn positions_of(b: u8, s: Seq<u8>) -> Seq<int>
    decreases s.len(),
{
    if s.len() == 0 {
        Seq::empty()
    } else if s.last() == b {
        positions_of(b, s.drop_last()).push(s.len() - 1)
    } else {
        positions_of(b, s.drop_last())
    }
}

/// `memchr::memchr_iter(needle, haystack)` collected: the positions of every
/// occurrence of `needle` in `haystack`, in increasing order.
#[verifier::external_body]
fn memchr_positions(needle: u8, haystack: &[u8]) -> (r: Vec<usize>)
    ensures
        r@.len() == positions_of(needle, haystack@).len(),
        forall|k: int| 0 <= k < r@.len() ==> r@[k] as int == #[trigger] positions_of(needle, haystack@)[k],
{
    memchr::memchr_iter(needle, haystack).collect()
}

/// The positions found are in range, hold the byte, increase strictly, and
/// include every occurrence.
pub proof fn lemma_positions_of(b: u8, s: Seq<u8>)
    ensures
        positions_of(b, s).len() <= s.len(),
        forall|k: int|
            0 <= k < positions_of(b, s).len() ==> 0 <= #[trigger] positions_of(b, s)[k] < s.len()
                && s[positions_of(b, s)[k]] == b,
        forall|k1: int, k2: int|
            0 <= k1 < k2 < positions_of(b, s).len() ==> #[trigger] positions_of(b, s)[k1]
                < #[trigger] positions_of(b, s)[k2],
        forall|i: int| 0 <= i < s.len() && s[i] == b ==> #[trigger] positions_of(b, s).contains(i),
    decreases s.len(),
{
    if s.len() > 0 {
        let p = s.drop_last();
        lemma_positions_of(b, p);
        assert forall|i: int| 0 <= i < s.len() && s[i] == b implies #[trigger] positions_of(b, s).contains(i) by {
            if i < s.len() - 1 {
                assert(p[i] == b);
                assert(positions_of(b, p).contains(i));
                let k = choose|k: int| 0 <= k < positions_of(b, p).len() && positions_of(b, p)[k] == i;
                assert(positions_of(b, s)[k] == i);
            } else {
                assert(positions_of(b, s)[positions_of(b, s).len() - 1] == i);
            }
        }
    }
}

/// Newline positions of the content.
pub open spec fn newlines(s: Seq<u8>) -> Seq<int> {
    positions_of(10u8, s)
}

/// The number of lines of the content.
pub open spec fn line_count(s: Seq<u8>) -> int {
    if s.len() == 0 {
        0
    } else if s.last() == 10u8 {
        newlines(s).len() as int
    } else {
        newlines(s).len() + 1int
    }
}

/// Start offset of line `k` (0-based).
pub open spec fn line_start(s: Seq<u8>, k: int) -> int {
    if k == 0 { 0 } else { newlines(s)[k - 1] + 1 }
}

/// End offset (exclusive, before the `\n`) of line `k` (0-based).
pub open spec fn line_end(s: Seq<u8>, k: int) -> int {
    if k < newlines(s).len() { newlines(s)[k] } else { s.len() as int }
}

/// The bytes of line `k` (0-based), without its `\n`.
pub open spec fn line_bytes(s: Seq<u8>, k: int) -> Seq<u8> {
    s.subrange(line_start(s, k), line_end(s, k))
}

/// A line's bytes without one trailing `\r`.
pub open spec fn strip_cr(b: Seq<u8>) -> Seq<u8> {
    if b.len() > 0 && b.last() == 13u8 { b.drop_last() } else { b }
}

/// The text of line `k` (0-based).
pub open spec fn line_text(s: Seq<u8>, k: int) -> Seq<char> {
    utf8_text(strip_cr(line_bytes(s, k)))
}

/// Line bounds are ordered and inside the content.
pub proof fn lemma_line_bounds(s: Seq<u8>, k: int)
    requires
        0 <= k < line_count(s),
    ensures
        0 <= line_start(s, k) <= line_end(s, k) <= s.len(),
{
    lemma_positions_of(10u8, s);
    if k > 0 && k < newlines(s).len() {
        assert(newlines(s)[k - 1] < newlines(s)[k]);
    }
    if k > 0 {
        assert(newlines(s)[k - 1] < s.len());
    }
}

/// There are no more lines than bytes.
pub proof fn lemma_line_count_bound(s: Seq<u8>)
    ensures
        0 <= line_count(s) <= s.len(),
{
    lemma_positions_of(10u8, s);
    if s.len() > 0 && s.last() != 10u8 && newlines(s).len() == s.len() {
        let k = s.len() - 1;
        assert(s[newlines(s)[k]] == 10u8);
        // the positions are strictly increasing and below s.len(), so the last one is s.len() - 1
        assert forall|j: int| 0 <= j < newlines(s).len() implies #[trigger] newlines(s)[j] >= j by {
            lemma_increasing_at_least_index(newlines(s), j);
        }
        assert(newlines(s)[k] >= k);
        assert(false);
    }
}

proof fn lemma_increasing_at_least_index(p: Seq<int>, j: int)
    requires
        0 <= j < p.len(),
        forall|k: int| 0 <= k < p.len() ==> 0 <= #[trigger] p[k],
        forall|k1: int, k2: int| 0 <= k1 < k2 < p.len() ==> #[trigger] p[k1] < #[trigger] p[k2],
    ensures
        p[j] >= j,
    decreases j,
{
    if j > 0 {
        lemma_increasing_at_least_index(p, j - 1);
    }
}

/// The line table of a piece of content: the newline offsets found by memchr.
pub(crate) struct LineTable {
    newlines: Vec<usize>,
    len: usize,
}

impl LineTable {
    /// The table is the one of this content.
    pub(crate) closed spec fn of(self, s: Seq<u8>) -> bool {
        &&& self.len == s.len()
        &&& self.newlines@.len() == newlines(s).len()
        &&& forall|k: int| 0 <= k < self.newlines@.len() ==> self.newlines@[k] as int == #[trigger] newlines(s)[k]
    }

    /// Build the line table of the content.
    pub(crate) fn new(content: &[u8]) -> (r: Self)
        ensures
            r.of(content@),
    {
        LineTable { newlines: memchr_positions(10u8, content), len: content.len() }
    }

    /// The number of lines.
    pub(crate) fn line_count(&self, Ghost(s): Ghost<Seq<u8>>) -> (r: usize)
        requires
            self.of(s),
        ensures
            r == line_count(s),
    {
        proof {
            lemma_positions_of(10u8, s);
        }
        let n = self.newlines.len();
        if self.len == 0 {
            0
        } else if n > 0 && self.newlines[n - 1] == self.len - 1 {
            proof {
                assert(newlines(s)[n - 1] == s.len() - 1);
                assert(s[newlines(s)[n - 1]] == 10u8);
            }
            n
        } else {
            proof {
                if s.last() == 10u8 {
                    assert(newlines(s).contains(s.len() - 1));
                    let k = choose|k: int| 0 <= k < newlines(s).len() && newlines(s)[k] == s.len() - 1;
                    if k < n - 1 {
                        assert(newlines(s)[k] < newlines(s)[n - 1]);
                    }
                }
                lemma_line_count_bound(s);
            }
            n + 1
        }
    }

    /// The bounds of line `k` (0-based).
    pub(crate) fn bounds(&self, Ghost(s): Ghost<Seq<u8>>, k: usize) -> (r: (usize, usize))
        requires
            self.of(s),
            k < line_count(s),
        ensures
            r.0 == line_start(s, k as int),
            r.1 == line_end(s, k as int),
            r.0 <= r.1 <= s.len(),
    {
        proof {
            lemma_line_bounds(s, k as int);
            lemma_positions_of(10u8, s);
        }
        let start = if k == 0 { 0 } else { self.newlines[k - 1] + 1 };
        let end = if k < self.newlines.len() { self.newlines[k] } else { self.len };
        (start, end)
    }
}

/// The text of line `k` (0-based) of the content.
pub(crate) fn line_text_of(content: &[u8], table: &LineTable, k: usize) -> (r: String)
    requires
        table.of(content@),
        k < line_count(content@),
    ensures
        r@ == line_text(content@, k as int),
{
    let (start, end) = table.bounds(Ghost(content@), k);
    let line = vstd::slice::slice_subrange(content, start, end);
    let trimmed = if end > start && content[end - 1] == 13u8 {
        vstd::slice::slice_subrange(content, start, end - 1)
    } else {
        line
    };
    proof {
        let lb = line_bytes(content@, k as int);
        assert(line@ == lb);
        if end > start && content@[end - 1] == 13u8 {
            assert(trimmed@ =~= lb.drop_last());
        }
        assert(trimmed@ == strip_cr(lb));
    }
    text_of_bytes(trimmed)
}

} // verus!
