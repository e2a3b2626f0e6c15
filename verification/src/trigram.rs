//! Trigram sets and case-folded trigram extraction.
//!
//! A [`TrigramSet`] keeps its trigrams in strictly increasing order of their
//! packed integer key, so that it holds each trigram once and two sets with
//! the same members have the same representation.

use vstd::prelude::*;
use crate::text::{lower_byte, lower_bytes};
use crate::types::{Trigram, trigram_key};

verus! {

/// A trigram as a tuple of its three bytes.
pub type TrigramBytes = (u8, u8, u8);

/// The packed integer key of a trigram tuple.
pub open spec fn tkey(t: TrigramBytes) -> int {
    trigram_key(t.0, t.1, t.2)
}

/// The packed key determines the trigram.
pub proof fn lemma_tkey_injective(a: TrigramBytes, b: TrigramBytes)
    ensures
        tkey(a) == tkey(b) <==> a == b,
{
}

/// The case-folded trigram that starts at position `i` of `s`.
pub open spec fn folded_trigram_at(s: Seq<u8>, i: int) -> TrigramBytes {
    (lower_byte(s[i]), lower_byte(s[i + 1]), lower_byte(s[i + 2]))
}

/// Every case-folded trigram of a byte string: the ASCII-lower-cased bytes at
/// positions `i, i+1, i+2` for every window that fits in `s`.
pub open spec fn folded_trigrams(s: Seq<u8>) -> Set<TrigramBytes> {
    Set::new(|t: TrigramBytes| exists|i: int| 0 <= i && i + 3 <= s.len() && t == #[trigger] folded_trigram_at(s, i))
}

/// A set of distinct trigrams.
#[derive(Debug, PartialEq, Eq, Hash)]
pub struct TrigramSet {
    items: Vec<Trigram>,
}

impl TrigramSet {
    /// The members in increasing key order.
    pub closed spec fn elems(self) -> Seq<TrigramBytes> {
        Seq::new(self.items@.len(), |i: int| self.items@[i].bytes())
    }

    #[verifier::type_invariant]
    closed spec fn sorted(self) -> bool {
        forall|i: int, j: int|
            0 <= i < j < self.items@.len() ==> tkey(#[trigger] self.items@[i].bytes()) < tkey(
                #[trigger] self.items@[j].bytes(),
            )
    }

    proof fn lemma_elems_unique(self)
        requires
            self.sorted(),
        ensures
            self.elems().no_duplicates(),
            self.elems().to_set().len() == self.elems().len(),
            self.elems().to_set().finite(),
    {
        assert forall|i: int, j: int|
            0 <= i < self.elems().len() && 0 <= j < self.elems().len() && i != j implies self.elems()[i]
            != self.elems()[j] by {
            if i < j {
                assert(tkey(self.items@[i].bytes()) < tkey(self.items@[j].bytes()));
            } else {
                assert(tkey(self.items@[j].bytes()) < tkey(self.items@[i].bytes()));
            }
        }
        self.elems().unique_seq_to_set();
        vstd::seq_lib::seq_to_set_is_finite(self.elems());
    }

    /// The set is finite.
    pub proof fn lemma_view_finite(&self)
        ensures
            self@.finite(),
    {
        vstd::seq_lib::seq_to_set_is_finite(self.elems());
    }

    /// An empty set.
    pub fn new() -> (r: Self)
        ensures
            r@ == Set::<TrigramBytes>::empty(),
    {
        let r = TrigramSet { items: Vec::new() };
        assert(r@ =~= Set::<TrigramBytes>::empty());
        r
    }

    /// Add a trigram. Returns `true` when it was not there before.
    pub fn insert(&mut self, t: Trigram) -> (r: bool)
        ensures
            final(self)@ == old(self)@.insert(t.bytes()),
            r == !old(self)@.contains(t.bytes()),
    {
        proof {
            use_type_invariant(&*self);
        }
        let k = t.to_u32();
        let n = self.items.len();
        let mut i: usize = 0;
        while i < n && self.items[i].to_u32() < k
            invariant
                n == self.items@.len(),
                0 <= i <= n,
                forall|j: int| 0 <= j < i ==> tkey(#[trigger] self.items@[j].bytes()) < k,
            decreases n - i,
        {
            i += 1;
        }
        if i < n && self.items[i].to_u32() == k {
            proof {
                lemma_tkey_injective(self.items@[i as int].bytes(), t.bytes());
                assert(self.elems()[i as int] == t.bytes());
                assert(self@ =~= self@.insert(t.bytes()));
            }
            return false;
        }
        proof {
            assert(!self.elems().contains(t.bytes())) by {
                if self.elems().contains(t.bytes()) {
                    let j = choose|j: int| 0 <= j < self.elems().len() && self.elems()[j] == t.bytes();
                    if j < i {
                    } else {
                        assert(tkey(self.items@[i as int].bytes()) > k);
                        if j > i {
                            assert(tkey(self.items@[i as int].bytes()) < tkey(self.items@[j].bytes()));
                        }
                    }
                }
            }
        }
        let ghost old_items = self.items@;
        let mut items: Vec<Trigram> = Vec::new();
        std::mem::swap(&mut items, &mut self.items);
        items.insert(i, t);
        std::mem::swap(&mut items, &mut self.items);
        proof {
            assert(self.items@ == old_items.insert(i as int, t));
            assert forall|a: int, b: int|
                0 <= a < b < self.items@.len() implies tkey(#[trigger] self.items@[a].bytes()) < tkey(
                #[trigger] self.items@[b].bytes(),
            ) by {
                if b < i {
                } else if b == i {
                } else if a < i {
                    assert(self.items@[b] == old_items[b - 1]);
                    if b - 1 > i {
                        assert(tkey(old_items[i as int].bytes()) < tkey(old_items[b - 1].bytes()));
                    }
                } else if a == i {
                    assert(self.items@[b] == old_items[b - 1]);
                    if b - 1 > i {
                        assert(tkey(old_items[i as int].bytes()) < tkey(old_items[b - 1].bytes()));
                    }
                } else {
                    assert(self.items@[a] == old_items[a - 1]);
                    assert(self.items@[b] == old_items[b - 1]);
                }
            }
            let ne = self.elems();
            let oe = Seq::new(old_items.len(), |j: int| old_items[j].bytes());
            assert(ne =~= oe.insert(i as int, t.bytes()));
            assert forall|x: TrigramBytes| #[trigger] ne.contains(x) <==> oe.contains(x) || x == t.bytes() by {
                if ne.contains(x) {
                    let j = choose|j: int| 0 <= j < ne.len() && ne[j] == x;
                    if j < i {
                        assert(oe[j] == x);
                    } else if j > i {
                        assert(oe[j - 1] == x);
                    }
                }
                if oe.contains(x) {
                    let j = choose|j: int| 0 <= j < oe.len() && oe[j] == x;
                    if j < i {
                        assert(ne[j] == x);
                    } else {
                        assert(ne[j + 1] == x);
                    }
                }
                if x == t.bytes() {
                    assert(ne[i as int] == x);
                }
            }
            assert(self@ =~= old(self)@.insert(t.bytes()));
        }
        true
    }

    /// Whether the set holds the trigram.
    pub fn contains(&self, t: &Trigram) -> (r: bool)
        ensures
            r == self@.contains(t.bytes()),
    {
        proof {
            use_type_invariant(self);
        }
        let k = t.to_u32();
        let n = self.items.len();
        let mut i: usize = 0;
        while i < n
            invariant
                n == self.items@.len(),
                0 <= i <= n,
                k == tkey(t.bytes()),
                forall|j: int| 0 <= j < i ==> tkey(#[trigger] self.items@[j].bytes()) != k,
            decreases n - i,
        {
            if self.items[i].to_u32() == k {
                proof {
                    assert(tkey(self.items@[i as int].bytes()) == tkey(t.bytes()));
                    lemma_tkey_injective(self.items@[i as int].bytes(), t.bytes());
                    assert(self.elems()[i as int] == t.bytes());
                }
                return true;
            }
            i += 1;
        }
        proof {
            if self.elems().contains(t.bytes()) {
                let j = choose|j: int| 0 <= j < self.elems().len() && self.elems()[j] == t.bytes();
                assert(tkey(self.items@[j].bytes()) != k);
            }
        }
        false
    }

    /// The number of trigrams in the set.
    pub fn len(&self) -> (r: usize)
        ensures
            r == self@.len(),
            self@.finite(),
    {
        proof {
            use_type_invariant(self);
            self.lemma_elems_unique();
        }
        self.items.len()
    }

    /// Whether the set is empty.
    pub fn is_empty(&self) -> (r: bool)
        ensures
            r == (self@.len() == 0),
            self@.finite(),
    {
        self.len() == 0
    }

    fn copy_items(&self) -> (r: Vec<Trigram>)
        ensures
            r@ == self.items@,
    {
        let mut out: Vec<Trigram> = Vec::new();
        let n = self.items.len();
        let mut i: usize = 0;
        while i < n
            invariant
                n == self.items@.len(),
                0 <= i <= n,
                out@ == self.items@.subrange(0, i as int),
            decreases n - i,
        {
            out.push(self.items[i]);
            i += 1;
            assert(out@ =~= self.items@.subrange(0, i as int));
        }
        assert(out@ =~= self.items@);
        out
    }

    /// Add every trigram of another set.
    pub fn extend(&mut self, other: &TrigramSet)
        ensures
            final(self)@ == old(self)@.union(other@),
    {
        let items = other.to_vec();
        let ghost start = self@;
        let n = items.len();
        let mut i: usize = 0;
        while i < n
            invariant
                n == items@.len(),
                0 <= i <= n,
                items@.len() == other@.len(),
                forall|k: int| 0 <= k < n ==> other@.contains(#[trigger] items@[k].bytes()),
                forall|t: TrigramBytes| other@.contains(t) ==> exists|k: int| 0 <= k < n && #[trigger] items@[k].bytes() == t,
                self@ == start.union(Set::new(|t: TrigramBytes| exists|k: int| 0 <= k < i && t == #[trigger] items@[k].bytes())),
            decreases n - i,
        {
            let ghost before = self@;
            self.insert(items[i]);
            proof {
                assert(self@ =~= start.union(Set::new(|t: TrigramBytes| exists|k: int| 0 <= k < i + 1 && t == #[trigger] items@[k].bytes()))) by {
                    assert forall|t: TrigramBytes| (exists|k: int| 0 <= k < i + 1 && t == #[trigger] items@[k].bytes()) implies
                        before.contains(t) || t == items@[i as int].bytes() by {
                        let k = choose|k: int| 0 <= k < i + 1 && t == #[trigger] items@[k].bytes();
                        if k < i {
                            assert(Set::new(|t: TrigramBytes| exists|k: int| 0 <= k < i && t == #[trigger] items@[k].bytes()).contains(t));
                        }
                    }
                    assert forall|t: TrigramBytes| before.contains(t) && !start.contains(t) implies
                        (exists|k: int| 0 <= k < i + 1 && t == #[trigger] items@[k].bytes()) by {
                        let k = choose|k: int| 0 <= k < i && t == #[trigger] items@[k].bytes();
                    }
                }
            }
            i += 1;
        }
        proof {
            let got = Set::new(|t: TrigramBytes| exists|k: int| 0 <= k < n && t == #[trigger] items@[k].bytes());
            assert forall|t: TrigramBytes| got.contains(t) <==> other@.contains(t) by {
                if other@.contains(t) {
                    let k = choose|k: int| 0 <= k < items@.len() && #[trigger] items@[k].bytes() == t;
                }
            }
            assert(got =~= other@);
        }
    }

    /// The trigrams held by both sets.
    pub fn intersect(&self, other: &TrigramSet) -> (r: TrigramSet)
        ensures
            r@ == self@.intersect(other@),
    {
        let items = self.to_vec();
        let n = items.len();
        let mut out = TrigramSet::new();
        let mut i: usize = 0;
        proof {
            assert(out@ =~= Set::new(|t: TrigramBytes| exists|k: int| 0 <= k < 0 && t == #[trigger] items@[k].bytes() && other@.contains(t)));
        }
        while i < n
            invariant
                n == items@.len(),
                0 <= i <= n,
                forall|k: int| 0 <= k < n ==> self@.contains(#[trigger] items@[k].bytes()),
                forall|t: TrigramBytes| self@.contains(t) ==> exists|k: int| 0 <= k < n && #[trigger] items@[k].bytes() == t,
                out@ == Set::new(|t: TrigramBytes| exists|k: int| 0 <= k < i && t == #[trigger] items@[k].bytes() && other@.contains(t)),
            decreases n - i,
        {
            let ghost before = out@;
            let x = items[i];
            if other.contains(&x) {
                out.insert(x);
            }
            proof {
                let next = Set::new(|t: TrigramBytes| exists|k: int| 0 <= k < i + 1 && t == #[trigger] items@[k].bytes() && other@.contains(t));
                assert forall|t: TrigramBytes| #[trigger] out@.contains(t) <==> next.contains(t) by {
                    if next.contains(t) {
                        let k = choose|k: int| 0 <= k < i + 1 && t == #[trigger] items@[k].bytes() && other@.contains(t);
                        if k < i {
                            assert(before.contains(t));
                        }
                    }
                    if out@.contains(t) && t != x.bytes() {
                        assert(before.contains(t));
                        let k = choose|k: int| 0 <= k < i && t == #[trigger] items@[k].bytes() && other@.contains(t);
                        assert(next.contains(t));
                    }
                    if out@.contains(t) && t == x.bytes() {
                        assert(items@[i as int].bytes() == t);
                        assert(next.contains(t));
                    }
                }
                assert(out@ =~= next);
            }
            i += 1;
        }
        proof {
            let got = Set::new(|t: TrigramBytes| exists|k: int| 0 <= k < n && t == #[trigger] items@[k].bytes() && other@.contains(t));
            assert forall|t: TrigramBytes| got.contains(t) <==> self@.intersect(other@).contains(t) by {
                if self@.contains(t) && other@.contains(t) {
                    let k = choose|k: int| 0 <= k < n && #[trigger] items@[k].bytes() == t;
                }
            }
            assert(got =~= self@.intersect(other@));
        }
        out
    }

    /// The members in increasing order of their packed key.
    pub fn to_vec(&self) -> (r: Vec<Trigram>)
        ensures
            r@.len() == self@.len(),
            forall|i: int| 0 <= i < r@.len() ==> self@.contains(#[trigger] r@[i].bytes()),
            forall|t: TrigramBytes| self@.contains(t) ==> exists|i: int| 0 <= i < r@.len() && #[trigger] r@[i].bytes() == t,
            forall|i: int, j: int|
                0 <= i < j < r@.len() ==> tkey(#[trigger] r@[i].bytes()) < tkey(#[trigger] r@[j].bytes()),
    {
        proof {
            use_type_invariant(self);
            self.lemma_elems_unique();
        }
        let mut out: Vec<Trigram> = Vec::new();
        let n = self.items.len();
        let mut i: usize = 0;
        while i < n
            invariant
                n == self.items@.len(),
                0 <= i <= n,
                out@ == self.items@.subrange(0, i as int),
            decreases n - i,
        {
            out.push(self.items[i]);
            i += 1;
            assert(out@ =~= self.items@.subrange(0, i as int));
        }
        proof {
            assert(out@ =~= self.items@);
            assert forall|i: int| 0 <= i < out@.len() implies self@.contains(#[trigger] out@[i].bytes()) by {
                assert(self.elems()[i] == out@[i].bytes());
            }
            assert forall|t: TrigramBytes| self@.contains(t) implies exists|i: int| 0 <= i < out@.len() && #[trigger] out@[i].bytes() == t by {
                let i = choose|i: int| 0 <= i < self.elems().len() && self.elems()[i] == t;
                assert(out@[i].bytes() == t);
            }
        }
        out
    }
}

impl Clone for TrigramSet {
    fn clone(&self) -> (r: Self)
        ensures
            r@ == self@,
    {
        proof {
            use_type_invariant(self);
        }
        TrigramSet { items: self.copy_items() }
    }
}

impl View for TrigramSet {
    type V = Set<TrigramBytes>;

    closed spec fn view(&self) -> Set<TrigramBytes> {
        self.elems().to_set()
    }
}

/// Every case-folded trigram of a byte string, each once.
pub fn extract_unique_trigrams_folded(s: &[u8]) -> (r: TrigramSet)
    ensures
        r@ == folded_trigrams(s@),
{
    let mut set = TrigramSet::new();
    let n = s.len();
    if n < 3 {
        assert(set@ =~= folded_trigrams(s@));
        return set;
    }
    let mut i: usize = 0;
    while i < n - 2
        invariant
            n == s@.len(),
            n >= 3,
            0 <= i <= n - 2,
            set@ == Set::new(|t: TrigramBytes| exists|j: int| 0 <= j < i && t == #[trigger] folded_trigram_at(s@, j)),
        decreases n - i,
    {
        let a = if 65 <= s[i] && s[i] <= 90 { s[i] + 32 } else { s[i] };
        let b = if 65 <= s[i + 1] && s[i + 1] <= 90 { s[i + 1] + 32 } else { s[i + 1] };
        let c = if 65 <= s[i + 2] && s[i + 2] <= 90 { s[i + 2] + 32 } else { s[i + 2] };
        let t = Trigram::from_bytes(a, b, c);
        let ghost before = set@;
        set.insert(t);
        proof {
            assert(t.bytes() == folded_trigram_at(s@, i as int));
            assert(set@ =~= Set::new(|t: TrigramBytes| exists|j: int| 0 <= j < i + 1 && t == #[trigger] folded_trigram_at(s@, j))) by {
                assert forall|x: TrigramBytes| #[trigger] set@.contains(x) <==> (exists|j: int| 0 <= j < i + 1 && x == #[trigger] folded_trigram_at(s@, j)) by {
                    if set@.contains(x) && x != t.bytes() {
                        assert(before.contains(x));
                    }
                    if exists|j: int| 0 <= j < i + 1 && x == #[trigger] folded_trigram_at(s@, j) {
                        let j = choose|j: int| 0 <= j < i + 1 && x == #[trigger] folded_trigram_at(s@, j);
                        if j < i {
                            assert(before.contains(x));
                        }
                    }
                }
            }
        }
        i += 1;
    }
    assert(set@ =~= folded_trigrams(s@));
    set
}

/// The folded trigrams of a string depend only on its ASCII-lower-cased bytes.
pub proof fn lemma_folded_trigrams_of_lower(s: Seq<u8>)
    ensures
        folded_trigrams(lower_bytes(s)) == folded_trigrams(s),
{
    let l = lower_bytes(s);
    assert forall|i: int| 0 <= i && i + 3 <= s.len() implies folded_trigram_at(l, i) == folded_trigram_at(s, i) by {
    }
    assert forall|t: TrigramBytes| #[trigger] folded_trigrams(l).contains(t) <==> folded_trigrams(s).contains(t) by {
        if folded_trigrams(l).contains(t) {
            let i = choose|i: int| 0 <= i && i + 3 <= l.len() && t == #[trigger] folded_trigram_at(l, i);
            assert(folded_trigram_at(l, i) == folded_trigram_at(s, i));
        }
        if folded_trigrams(s).contains(t) {
            let i = choose|i: int| 0 <= i && i + 3 <= s.len() && t == #[trigger] folded_trigram_at(s, i);
            assert(folded_trigram_at(l, i) == folded_trigram_at(s, i));
        }
    }
    assert(folded_trigrams(l) =~= folded_trigrams(s));
}

} // verus!
