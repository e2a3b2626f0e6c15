//! Merging line matches: concatenate, order by line number, and keep the first
//! match of each line.
//!
//! The merge is specified as inserting the incoming matches one by one into an
//! ordered result, skipping a match whose line is already there. On an
//! ordered start this is exactly a stable sort by line number followed by
//! removal of later duplicates.

use vstd::prelude::*;
use crate::search::{LineMatch, LineMatchView, match_views};

verus! {

/// Line numbers increase strictly along the sequence.
pub open spec fn strictly_sorted(s: Seq<LineMatchView>) -> bool {
    forall|i: int, j: int| 0 <= i < j < s.len() ==> #[trigger] s[i].line_number < #[trigger] s[j].line_number
}

/// Some match in the sequence is on line `n`.
pub open spec fn has_line(s: Seq<LineMatchView>, n: u32) -> bool {
    exists|j: int| 0 <= j < s.len() && #[trigger] s[j].line_number == n
}

/// The first position at or after `i` whose line number is not below `n`.
pub open spec fn first_not_below(r: Seq<LineMatchView>, n: u32, i: int) -> int
    decreases r.len() - i,
{
    if i < 0 || i >= r.len() || r[i].line_number >= n {
        i
    } else {
        first_not_below(r, n, i + 1)
    }
}

/// Insert a match into an ordered sequence, unless its line is already there.
pub open spec fn insert_keep_first(r: Seq<LineMatchView>, x: LineMatchView) -> Seq<LineMatchView> {
    let p = first_not_below(r, x.line_number, 0);
    if p < r.len() && r[p].line_number == x.line_number {
        r
    } else {
        r.insert(p, x)
    }
}

/// Insert every match of `s`, in order, into `r`.
pub open spec fn merge_into(r: Seq<LineMatchView>, s: Seq<LineMatchView>) -> Seq<LineMatchView>
    decreases s.len(),
{
    if s.len() == 0 {
        r
    } else {
        insert_keep_first(merge_into(r, s.drop_last()), s.last())
    }
}

proof fn lemma_first_not_below(r: Seq<LineMatchView>, n: u32, i: int)
    requires
        0 <= i <= r.len(),
        forall|j: int| 0 <= j < i ==> #[trigger] r[j].line_number < n,
    ensures
        i <= first_not_below(r, n, i) <= r.len(),
        forall|j: int| 0 <= j < first_not_below(r, n, i) ==> #[trigger] r[j].line_number < n,
        first_not_below(r, n, i) < r.len() ==> r[first_not_below(r, n, i)].line_number >= n,
    decreases r.len() - i,
{
    if i < r.len() && r[i].line_number < n {
        lemma_first_not_below(r, n, i + 1);
    }
}

/// Inserting keeps a sequence strictly ordered, and the lines present are the
/// old ones plus the inserted one; every element comes from the old sequence
/// or is the inserted match.
pub proof fn lemma_insert_keep_first(r: Seq<LineMatchView>, x: LineMatchView)
    requires
        strictly_sorted(r),
    ensures
        strictly_sorted(insert_keep_first(r, x)),
        forall|n: u32| has_line(insert_keep_first(r, x), n) <==> (has_line(r, n) || n == x.line_number),
        forall|k: int|
            0 <= k < insert_keep_first(r, x).len() ==> (#[trigger] insert_keep_first(r, x)[k] == x || r.contains(
                insert_keep_first(r, x)[k],
            )),
        has_line(r, x.line_number) ==> insert_keep_first(r, x) == r,
{
    lemma_first_not_below(r, x.line_number, 0);
    let p = first_not_below(r, x.line_number, 0);
    let res = insert_keep_first(r, x);
    if p < r.len() && r[p].line_number == x.line_number {
        assert(has_line(r, x.line_number));
    } else {
        assert(!has_line(r, x.line_number)) by {
            if has_line(r, x.line_number) {
                let j = choose|j: int| 0 <= j < r.len() && #[trigger] r[j].line_number == x.line_number;
                if j > p {
                    assert(r[p].line_number < r[j].line_number);
                }
            }
        }
        assert forall|i: int, j: int| 0 <= i < j < res.len() implies #[trigger] res[i].line_number
            < #[trigger] res[j].line_number by {
            if j < p {
            } else if j == p {
            } else if i < p {
                assert(res[j] == r[j - 1]);
                if j - 1 > p {
                    assert(r[p].line_number < r[j - 1].line_number);
                }
            } else if i == p {
                assert(res[j] == r[j - 1]);
                if j - 1 > p {
                    assert(r[p].line_number < r[j - 1].line_number);
                }
            } else {
                assert(res[i] == r[i - 1]);
                assert(res[j] == r[j - 1]);
            }
        }
        assert forall|n: u32| has_line(res, n) <==> (has_line(r, n) || n == x.line_number) by {
            if has_line(res, n) {
                let j = choose|j: int| 0 <= j < res.len() && #[trigger] res[j].line_number == n;
                if j < p {
                    assert(r[j].line_number == n);
                } else if j > p {
                    assert(r[j - 1].line_number == n);
                }
            }
            if has_line(r, n) {
                let j = choose|j: int| 0 <= j < r.len() && #[trigger] r[j].line_number == n;
                if j < p {
                    assert(res[j].line_number == n);
                } else {
                    assert(res[j + 1].line_number == n);
                }
            }
            if n == x.line_number {
                assert(res[p].line_number == n);
            }
        }
        assert forall|k: int| 0 <= k < res.len() implies (#[trigger] res[k] == x || r.contains(res[k])) by {
            if k < p {
                assert(res[k] == r[k]);
            } else if k > p {
                assert(res[k] == r[k - 1]);
            }
        }
    }
}

/// Merging keeps a sequence strictly ordered; the lines present afterwards are
/// those of both inputs, and every element comes from one of them.
pub proof fn lemma_merge_into(r: Seq<LineMatchView>, s: Seq<LineMatchView>)
    requires
        strictly_sorted(r),
    ensures
        strictly_sorted(merge_into(r, s)),
        forall|n: u32| has_line(merge_into(r, s), n) <==> (has_line(r, n) || has_line(s, n)),
        forall|k: int|
            0 <= k < merge_into(r, s).len() ==> (r.contains(#[trigger] merge_into(r, s)[k]) || s.contains(
                merge_into(r, s)[k],
            )),
    decreases s.len(),
{
    if s.len() > 0 {
        let prev = merge_into(r, s.drop_last());
        lemma_merge_into(r, s.drop_last());
        lemma_insert_keep_first(prev, s.last());
        let res = merge_into(r, s);
        assert forall|n: u32| has_line(res, n) <==> (has_line(r, n) || has_line(s, n)) by {
            if has_line(s.drop_last(), n) {
                let j = choose|j: int| 0 <= j < s.drop_last().len() && #[trigger] s.drop_last()[j].line_number == n;
                assert(s[j].line_number == n);
            }
            if has_line(s, n) {
                let j = choose|j: int| 0 <= j < s.len() && #[trigger] s[j].line_number == n;
                if j < s.len() - 1 {
                    assert(s.drop_last()[j].line_number == n);
                }
            }
        }
        assert forall|k: int| 0 <= k < res.len() implies (r.contains(#[trigger] res[k]) || s.contains(res[k])) by {
            if res[k] == s.last() {
                assert(s[s.len() - 1] == res[k]);
            } else {
                assert(prev.contains(res[k]));
                let j = choose|j: int| 0 <= j < prev.len() && prev[j] == res[k];
                if s.drop_last().contains(res[k]) {
                    let m = choose|m: int| 0 <= m < s.drop_last().len() && s.drop_last()[m] == res[k];
                    assert(s[m] == res[k]);
                }
            }
        }
    }
}

/// Merging into nothing leaves an ordered sequence unchanged.
pub proof fn lemma_merge_into_empty_sorted(s: Seq<LineMatchView>)
    requires
        strictly_sorted(s),
    ensures
        merge_into(Seq::empty(), s) == s,
    decreases s.len(),
{
    if s.len() > 0 {
        let init = s.drop_last();
        assert(strictly_sorted(init));
        lemma_merge_into_empty_sorted(init);
        lemma_first_not_below(init, s.last().line_number, 0);
        let p = first_not_below(init, s.last().line_number, 0);
        if p < init.len() {
            assert(init[p].line_number < s.last().line_number);
            assert(false);
        }
        assert(init.insert(init.len() as int, s.last()) =~= s);
    }
}

/// Merging a concatenation is merging one part after the other.
pub proof fn lemma_merge_concat(r: Seq<LineMatchView>, a: Seq<LineMatchView>, b: Seq<LineMatchView>)
    ensures
        merge_into(r, a + b) == merge_into(merge_into(r, a), b),
    decreases b.len(),
{
    if b.len() == 0 {
        assert(a + b =~= a);
    } else {
        assert((a + b).drop_last() =~= a + b.drop_last());
        assert((a + b).last() == b.last());
        lemma_merge_concat(r, a, b.drop_last());
    }
}

/// No match before position `i` of `s` is on line `n`.
pub open spec fn first_on_line(s: Seq<LineMatchView>, i: int, n: u32) -> bool {
    forall|j: int| 0 <= j < i ==> #[trigger] s[j].line_number != n
}

/// A match that merging adds to `r` is the first match of `s` on its line,
/// on a line `r` does not have.
proof fn lemma_merge_added_first(r: Seq<LineMatchView>, s: Seq<LineMatchView>)
    requires
        strictly_sorted(r),
    ensures
        forall|k: int| 0 <= k < merge_into(r, s).len() ==> r.contains(#[trigger] merge_into(r, s)[k]) || exists|i: int|
            0 <= i < s.len() && s[i] == merge_into(r, s)[k] && !has_line(r, s[i].line_number) && first_on_line(
                s,
                i,
                s[i].line_number,
            ),
    decreases s.len(),
{
    if s.len() > 0 {
        let init = s.drop_last();
        let x = s.last();
        let prev = merge_into(r, init);
        lemma_merge_added_first(r, init);
        lemma_merge_into(r, init);
        let res = merge_into(r, s);
        assert forall|k: int| 0 <= k < res.len() implies r.contains(#[trigger] res[k]) || exists|i: int|
            0 <= i < s.len() && s[i] == res[k] && !has_line(r, s[i].line_number) && first_on_line(s, i, s[i].line_number) by {
            let e = res[k];
            let p = first_not_below(prev, x.line_number, 0);
            if p < prev.len() && prev[p].line_number == x.line_number {
                assert(res == prev);
                assert(prev[k] == e);
            } else {
                assert(res == prev.insert(p, x));
                lemma_first_not_below(prev, x.line_number, 0);
                if k < p {
                    assert(prev[k] == e);
                } else if k > p {
                    assert(prev[k - 1] == e);
                } else {
                    assert(e == x);
                    assert(!has_line(prev, x.line_number)) by {
                        if has_line(prev, x.line_number) {
                            let j = choose|j: int| 0 <= j < prev.len() && #[trigger] prev[j].line_number == x.line_number;
                            if j > p {
                                assert(prev[p].line_number < prev[j].line_number);
                            }
                        }
                    }
                    if !r.contains(e) {
                        let i = s.len() - 1;
                        assert(s[i] == e);
                        assert forall|j: int| 0 <= j < i implies #[trigger] s[j].line_number != x.line_number by {
                            if s[j].line_number == x.line_number {
                                assert(init[j].line_number == x.line_number);
                                assert(has_line(init, x.line_number));
                            }
                        }
                        assert(!has_line(r, x.line_number));
                    }
                }
            }
            if !r.contains(e) && prev.contains(e) {
                let kk = choose|kk: int| 0 <= kk < prev.len() && prev[kk] == e;
                let i = choose|i: int| 0 <= i < init.len() && init[i] == prev[kk] && !has_line(r, init[i].line_number)
                    && first_on_line(init, i, init[i].line_number);
                assert(s[i] == e);
                assert forall|j: int| 0 <= j < i implies #[trigger] s[j].line_number != s[i].line_number by {
                    assert(s[j] == init[j]);
                }
            }
        }
    }
}

/// Merging two runs of matches (as OR does) gives them ordered by line number
/// with one match per line: the lines are those of both runs, and the match
/// kept for a line is the first one on that line in `a` followed by `b`.
pub proof fn lemma_merge_first_wins(a: Seq<LineMatchView>, b: Seq<LineMatchView>)
    ensures
        strictly_sorted(merge_into(merge_into(Seq::empty(), a), b)),
        forall|n: u32| has_line(merge_into(merge_into(Seq::empty(), a), b), n) <==> (has_line(a, n) || has_line(b, n)),
        forall|k: int| 0 <= k < merge_into(merge_into(Seq::empty(), a), b).len() ==> exists|i: int|
            0 <= i < (a + b).len() && (a + b)[i] == #[trigger] merge_into(merge_into(Seq::empty(), a), b)[k]
                && first_on_line(a + b, i, (a + b)[i].line_number),
{
    let e = Seq::<LineMatchView>::empty();
    lemma_merge_concat(e, a, b);
    lemma_merge_into(e, a + b);
    lemma_merge_added_first(e, a + b);
    assert forall|n: u32| has_line(a + b, n) <==> (has_line(a, n) || has_line(b, n)) by {
        if has_line(a + b, n) {
            let j = choose|j: int| 0 <= j < (a + b).len() && #[trigger] (a + b)[j].line_number == n;
            if j < a.len() {
                assert(a[j].line_number == n);
            } else {
                assert(b[j - a.len()].line_number == n);
            }
        }
        if has_line(a, n) {
            let j = choose|j: int| 0 <= j < a.len() && #[trigger] a[j].line_number == n;
            assert((a + b)[j].line_number == n);
        }
        if has_line(b, n) {
            let j = choose|j: int| 0 <= j < b.len() && #[trigger] b[j].line_number == n;
            assert((a + b)[a.len() + j].line_number == n);
        }
    }
}

/// The first position at or after `i` whose line number is above `n`.
pub open spec fn first_above(r: Seq<LineMatchView>, n: u32, i: int) -> int
    decreases r.len() - i,
{
    if i < 0 || i >= r.len() || r[i].line_number > n {
        i
    } else {
        first_above(r, n, i + 1)
    }
}

/// Insert a match after every match on its line or an earlier one.
pub open spec fn insert_sorted(r: Seq<LineMatchView>, x: LineMatchView) -> Seq<LineMatchView> {
    r.insert(first_above(r, x.line_number, 0), x)
}

/// The matches stably sorted by line number: inserted one by one, each after
/// the matches already there on its line or an earlier one.
pub open spec fn sort_by_line(s: Seq<LineMatchView>) -> Seq<LineMatchView>
    decreases s.len(),
{
    if s.len() == 0 {
        Seq::empty()
    } else {
        insert_sorted(sort_by_line(s.drop_last()), s.last())
    }
}

proof fn lemma_first_above(r: Seq<LineMatchView>, n: u32, i: int)
    requires
        0 <= i <= r.len(),
    ensures
        i <= first_above(r, n, i) <= r.len(),
        forall|j: int| i <= j < first_above(r, n, i) ==> #[trigger] r[j].line_number <= n,
        first_above(r, n, i) < r.len() ==> r[first_above(r, n, i)].line_number > n,
    decreases r.len() - i,
{
    if i < r.len() && r[i].line_number <= n {
        lemma_first_above(r, n, i + 1);
    }
}

/// Sorting keeps the number of matches and takes every one from the input.
pub proof fn lemma_sort_members(s: Seq<LineMatchView>)
    ensures
        sort_by_line(s).len() == s.len(),
        forall|k: int| 0 <= k < s.len() ==> s.contains(#[trigger] sort_by_line(s)[k]),
    decreases s.len(),
{
    if s.len() > 0 {
        let p = s.drop_last();
        lemma_sort_members(p);
        let sp = sort_by_line(p);
        lemma_first_above(sp, s.last().line_number, 0);
        let at = first_above(sp, s.last().line_number, 0);
        assert forall|k: int| 0 <= k < s.len() implies s.contains(#[trigger] sort_by_line(s)[k]) by {
            if k < at {
                assert(sort_by_line(s)[k] == sp[k]);
                let j = choose|j: int| 0 <= j < p.len() && p[j] == sp[k];
                assert(s[j] == p[j]);
            } else if k == at {
                assert(sort_by_line(s)[k] == s[s.len() - 1]);
            } else {
                assert(sort_by_line(s)[k] == sp[k - 1]);
                let j = choose|j: int| 0 <= j < p.len() && p[j] == sp[k - 1];
                assert(s[j] == p[j]);
            }
        }
    }
}

/// Sorting leaves a strictly ordered sequence unchanged.
pub proof fn lemma_sort_sorted(s: Seq<LineMatchView>)
    requires
        strictly_sorted(s),
    ensures
        sort_by_line(s) == s,
    decreases s.len(),
{
    if s.len() > 0 {
        let p = s.drop_last();
        lemma_sort_sorted(p);
        lemma_first_above(p, s.last().line_number, 0);
        let at = first_above(p, s.last().line_number, 0);
        if at < p.len() {
            assert(p[at].line_number < s.last().line_number);
        }
        assert(p.insert(p.len() as int, s.last()) =~= s);
    }
}

/// Stably sort matches by line number.
pub fn sort_lines(v: Vec<LineMatch>) -> (r: Vec<LineMatch>)
    ensures
        match_views(r@) == sort_by_line(match_views(v@)),
{
    let ghost s0 = match_views(v@);
    let mut rest = v;
    let n = rest.len();
    let mut out: Vec<LineMatch> = Vec::new();
    let mut i: usize = 0;
    proof {
        assert(s0.take(0) =~= Seq::<LineMatchView>::empty());
        assert(match_views(out@) =~= Seq::<LineMatchView>::empty());
        assert(match_views(rest@) =~= s0.skip(0));
    }
    while i < n
        invariant
            n == s0.len(),
            0 <= i <= n,
            match_views(rest@) == s0.skip(i as int),
            rest@.len() == n - i,
            match_views(out@) == sort_by_line(s0.take(i as int)),
        decreases n - i,
    {
        let ghost old_rest = rest@;
        let x = rest.remove(0);
        proof {
            assert(x == old_rest[0]);
            assert(match_views(old_rest)[0] == s0.skip(i as int)[0]);
            assert(rest@ == old_rest.remove(0));
            assert forall|k: int| 0 <= k < rest@.len() implies match_views(rest@)[k] == s0.skip(i + 1)[k] by {
                assert(rest@[k] == old_rest[k + 1]);
                assert(match_views(old_rest)[k + 1] == s0.skip(i as int)[k + 1]);
            }
            assert(match_views(rest@) =~= s0.skip(i + 1));
            assert(s0.take(i + 1).drop_last() =~= s0.take(i as int));
            assert(s0.take(i + 1).last() == s0[i as int]);
        }
        let ghost v = match_views(out@);
        let ln = x.line_number;
        let len = out.len();
        let mut j: usize = 0;
        while j < len && out[j].line_number <= ln
            invariant
                len == out@.len(),
                v == match_views(out@),
                ln == x@.line_number,
                0 <= j <= len,
                first_above(v, ln, 0) == first_above(v, ln, j as int),
            decreases len - j,
        {
            j += 1;
        }
        out.insert(j, x);
        proof {
            assert(match_views(out@) =~= v.insert(j as int, x@));
        }
        i += 1;
    }
    proof {
        assert(s0.take(n as int) =~= s0);
    }
    out
}

/// Insert a match into an ordered vector unless its line is already there.
fn insert_keep_first_exec(r: &mut Vec<LineMatch>, x: LineMatch)
    ensures
        match_views(final(r)@) == insert_keep_first(match_views(old(r)@), x@),
{
    let ghost v = match_views(r@);
    let n = x.line_number;
    let len = r.len();
    let mut i: usize = 0;
    while i < len && r[i].line_number < n
        invariant
            len == r@.len(),
            v == match_views(r@),
            n == x@.line_number,
            0 <= i <= len,
            first_not_below(v, n, 0) == first_not_below(v, n, i as int),
        decreases len - i,
    {
        i += 1;
    }
    if i < len && r[i].line_number == n {
        return;
    }
    r.insert(i, x);
    proof {
        assert(match_views(r@) =~= v.insert(i as int, x@));
    }
}

/// Insert every match of `s`, in order, into `r`.
pub fn merge_into_exec(r: &mut Vec<LineMatch>, s: Vec<LineMatch>)
    ensures
        match_views(final(r)@) == merge_into(match_views(old(r)@), match_views(s@)),
{
    let ghost r0 = match_views(r@);
    let ghost s0 = match_views(s@);
    let mut rest = s;
    let n = rest.len();
    let mut i: usize = 0;
    proof {
        assert(s0.take(0) =~= Seq::<LineMatchView>::empty());
        assert(match_views(rest@) =~= s0.skip(0));
    }
    while i < n
        invariant
            n == s0.len(),
            0 <= i <= n,
            match_views(rest@) == s0.skip(i as int),
            rest@.len() == n - i,
            match_views(r@) == merge_into(r0, s0.take(i as int)),
        decreases n - i,
    {
        let ghost old_rest = rest@;
        let x = rest.remove(0);
        proof {
            assert(x == old_rest[0]);
            assert(match_views(old_rest)[0] == s0.skip(i as int)[0]);
            assert(x@ == s0[i as int]);
            assert(rest@ == old_rest.remove(0));
            assert forall|k: int| 0 <= k < rest@.len() implies match_views(rest@)[k] == s0.skip(i + 1)[k] by {
                assert(rest@[k] == old_rest[k + 1]);
                assert(match_views(old_rest)[k + 1] == s0.skip(i as int)[k + 1]);
            }
            assert(match_views(rest@) =~= s0.skip(i + 1));
            assert(s0.take(i + 1).drop_last() =~= s0.take(i as int));
            assert(s0.take(i + 1).last() == s0[i as int]);
        }
        insert_keep_first_exec(r, x);
        i += 1;
    }
    proof {
        assert(s0.take(n as int) =~= s0);
    }
}

} // verus!
