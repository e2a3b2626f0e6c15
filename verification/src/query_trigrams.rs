//! Trigram extraction from queries.
//!
//! A [`TrigramQuery`] tells the planner which trigrams to look up: all of one
//! set, all of any one of several sets, or none (fall back to a full scan).
//! Every extracted trigram is ASCII-lower-cased to match the case-folded
//! index; the case sensitivity of a query only matters when candidates are
//! verified.

use vstd::prelude::*;
use vstd::string::StringSliceAdditionalSpecFns;
use crate::text::lower_bytes;
use crate::trigram::{TrigramBytes, TrigramSet, extract_unique_trigrams_folded, folded_trigrams, folded_trigram_at, lemma_folded_trigrams_of_lower};
use regex_syntax::hir::Hir;
use regex_syntax::hir::literal::{Extractor, ExtractKind};

verus! {

/// Describes the trigram lookup strategy for a parsed query.
#[derive(Debug, Clone, PartialEq)]
pub enum TrigramQuery {
    /// All trigrams must be present in a file (AND intersection).
    All(TrigramSet),
    /// A file is a candidate if it holds all trigrams of any one branch.
    Any(Vec<TrigramSet>),
    /// No trigrams could be extracted: every file is a candidate.
    FullScan,
}

/// The mathematical content of a [`TrigramQuery`].
pub enum TrigramPlan {
    All(Set<TrigramBytes>),
    Any(Seq<Set<TrigramBytes>>),
    FullScan,
}

/// The contents of a sequence of trigram sets.
pub open spec fn set_views(v: Seq<TrigramSet>) -> Seq<Set<TrigramBytes>> {
    Seq::new(v.len(), |i: int| v[i]@)
}

impl View for TrigramQuery {
    type V = TrigramPlan;

    open spec fn view(&self) -> TrigramPlan {
        match self {
            TrigramQuery::All(s) => TrigramPlan::All(s@),
            TrigramQuery::Any(b) => TrigramPlan::Any(set_views(b@)),
            TrigramQuery::FullScan => TrigramPlan::FullScan,
        }
    }
}

/// The union of a sequence of sets.
pub open spec fn union_all(s: Seq<Set<TrigramBytes>>) -> Set<TrigramBytes>
    decreases s.len(),
{
    if s.len() == 0 {
        Set::empty()
    } else {
        union_all(s.drop_last()).union(s.last())
    }
}

/// The number of distinct trigrams a plan looks up, over all its branches.
pub open spec fn plan_trigram_count(p: TrigramPlan) -> int {
    match p {
        TrigramPlan::All(s) => s.len() as int,
        TrigramPlan::Any(b) => union_all(b).len() as int,
        TrigramPlan::FullScan => 0,
    }
}

/// The plan for a literal (or phrase) search string given by its bytes: no
/// trigrams when it is shorter than three bytes, else all its folded trigrams.
pub open spec fn literal_plan(bytes: Seq<u8>) -> TrigramPlan {
    if bytes.len() < 3 {
        TrigramPlan::FullScan
    } else {
        TrigramPlan::All(folded_trigrams(bytes))
    }
}

impl TrigramQuery {
    /// Returns `true` if this is `TrigramQuery::FullScan`.
    pub fn is_none(&self) -> (r: bool)
        ensures
            r == (self@ is FullScan),
    {
        match self {
            TrigramQuery::FullScan => true,
            _ => false,
        }
    }

    /// Returns the number of unique trigrams across all branches.
    pub fn trigram_count(&self) -> (r: usize)
        ensures
            r == plan_trigram_count(self@),
    {
        match self {
            TrigramQuery::All(set) => set.len(),
            TrigramQuery::Any(branches) => {
                let ghost views = set_views(branches@);
                let n = branches.len();
                let mut all = TrigramSet::new();
                let mut i: usize = 0;
                proof {
                    assert(views.take(0) =~= Seq::<Set<TrigramBytes>>::empty());
                }
                while i < n
                    invariant
                        n == branches@.len(),
                        views == set_views(branches@),
                        0 <= i <= n,
                        all@ == union_all(views.take(i as int)),
                    decreases n - i,
                {
                    all.extend(&branches[i]);
                    proof {
                        assert(views.take(i + 1).drop_last() =~= views.take(i as int));
                        assert(views.take(i + 1).last() == branches@[i as int]@);
                    }
                    i += 1;
                }
                proof {
                    assert(views.take(n as int) =~= views);
                }
                all.len()
            },
            TrigramQuery::FullScan => 0,
        }
    }
}

/// Extract trigrams from a literal search string.
///
/// Returns `All` with the unique folded trigram set if the string is at
/// least 3 bytes long, and `FullScan` otherwise.
pub fn extract_literal_trigrams(text: &str) -> (r: TrigramQuery)
    ensures
        r@ == literal_plan(text.spec_bytes()),
{
    let bytes = text.as_bytes();
    if bytes.len() < 3 {
        return TrigramQuery::FullScan;
    }
    let trigrams = extract_unique_trigrams_folded(bytes);
    if trigrams.is_empty() {
        proof {
            assert(trigrams@.contains(folded_trigram_at(bytes@, 0)));
        }
        TrigramQuery::FullScan
    } else {
        TrigramQuery::All(trigrams)
    }
}

/// A text shorter than three bytes falls back to a full scan; any longer
/// text, however long, is looked up by all of its windows of three bytes,
/// ASCII-lower-cased, and by nothing else.
pub proof fn lemma_literal_plan_exact(bytes: Seq<u8>)
    ensures
        bytes.len() < 3 ==> literal_plan(bytes) is FullScan,
        bytes.len() >= 3 ==> (literal_plan(bytes) matches TrigramPlan::All(ts) && forall|t: TrigramBytes| #[trigger] ts.contains(t)
            <==> exists|i: int|
            0 <= i && i + 3 <= bytes.len() && t == (
                crate::text::lower_byte(#[trigger] bytes[i]),
                crate::text::lower_byte(bytes[i + 1]),
                crate::text::lower_byte(bytes[i + 2]),
            )),
{
    if bytes.len() >= 3 {
        assert forall|t: TrigramBytes| #[trigger] folded_trigrams(bytes).contains(t) <==> exists|i: int|
            0 <= i && i + 3 <= bytes.len() && t == (
                crate::text::lower_byte(#[trigger] bytes[i]),
                crate::text::lower_byte(bytes[i + 1]),
                crate::text::lower_byte(bytes[i + 2]),
            ) by {
            if folded_trigrams(bytes).contains(t) {
                let i = choose|i: int| 0 <= i && i + 3 <= bytes.len() && t == #[trigger] folded_trigram_at(bytes, i);
                assert(t == (
                    crate::text::lower_byte(bytes[i]),
                    crate::text::lower_byte(bytes[i + 1]),
                    crate::text::lower_byte(bytes[i + 2]),
                ));
            }
            if exists|i: int| 0 <= i && i + 3 <= bytes.len() && t == (
                crate::text::lower_byte(#[trigger] bytes[i]),
                crate::text::lower_byte(bytes[i + 1]),
                crate::text::lower_byte(bytes[i + 2]),
            ) {
                let i = choose|i: int| 0 <= i && i + 3 <= bytes.len() && t == (
                    crate::text::lower_byte(#[trigger] bytes[i]),
                    crate::text::lower_byte(bytes[i + 1]),
                    crate::text::lower_byte(bytes[i + 2]),
                );
                assert(t == folded_trigram_at(bytes, i));
            }
        }
    }
}

/// Literal trigram extraction ignores ASCII case: two texts whose bytes agree
/// after ASCII lower-casing give the same plan.
pub proof fn lemma_literal_plan_ignores_case(a: Seq<u8>, b: Seq<u8>)
    requires
        lower_bytes(a) == lower_bytes(b),
    ensures
        literal_plan(a) == literal_plan(b),
{
    assert(a.len() == lower_bytes(a).len());
    assert(b.len() == lower_bytes(b).len());
    lemma_folded_trigrams_of_lower(a);
    lemma_folded_trigrams_of_lower(b);
}

/// No byte of the trigram is an ASCII upper-case letter.
pub open spec fn is_lower_trigram(t: TrigramBytes) -> bool {
    !(65 <= t.0 <= 90) && !(65 <= t.1 <= 90) && !(65 <= t.2 <= 90)
}

/// Every trigram a plan looks up is lower case.
pub open spec fn plan_is_lowercase(p: TrigramPlan) -> bool {
    match p {
        TrigramPlan::All(ts) => forall|t: TrigramBytes| #[trigger] ts.contains(t) ==> is_lower_trigram(t),
        TrigramPlan::Any(bs) => forall|i: int, t: TrigramBytes|
            0 <= i < bs.len() && #[trigger] bs[i].contains(t) ==> is_lower_trigram(t),
        TrigramPlan::FullScan => true,
    }
}

proof fn lemma_folded_trigrams_lowercase(a: Seq<u8>)
    ensures
        forall|t: TrigramBytes| #[trigger] folded_trigrams(a).contains(t) ==> is_lower_trigram(t),
{
    assert forall|t: TrigramBytes| #[trigger] folded_trigrams(a).contains(t) implies is_lower_trigram(t) by {
        let i = choose|i: int| 0 <= i && i + 3 <= a.len() && t == #[trigger] folded_trigram_at(a, i);
    }
}

/// Every trigram a literal plan looks up is lower case: none of its bytes is
/// an ASCII upper-case letter.
pub proof fn lemma_literal_plan_lowercase(a: Seq<u8>)
    ensures
        plan_is_lowercase(literal_plan(a)),
{
    lemma_folded_trigrams_lowercase(a);
}

/// The trigrams of one literal: its folded trigrams when it has three bytes
/// or more, none otherwise.
pub open spec fn one_literal_trigrams(l: Seq<u8>) -> Set<TrigramBytes> {
    if l.len() >= 3 { folded_trigrams(l) } else { Set::empty() }
}

/// The trigrams required by a list of alternative literals: those every
/// literal of the list has (a match holds one of the literals, so it holds
/// these). An empty list requires none.
pub open spec fn literal_trigrams(lits: Seq<Seq<u8>>) -> Set<TrigramBytes>
    decreases lits.len(),
{
    if lits.len() == 0 {
        Set::empty()
    } else if lits.len() == 1 {
        one_literal_trigrams(lits[0])
    } else {
        literal_trigrams(lits.drop_last()).intersect(one_literal_trigrams(lits.last()))
    }
}

/// Every trigram required by a list of alternative literals is a trigram of
/// each of them.
pub proof fn lemma_literal_trigrams_required(lits: Seq<Seq<u8>>)
    ensures
        forall|j: int| 0 <= j < lits.len() ==> literal_trigrams(lits).subset_of(one_literal_trigrams(#[trigger] lits[j])),
    decreases lits.len(),
{
    if lits.len() > 1 {
        let p = lits.drop_last();
        lemma_literal_trigrams_required(p);
        assert forall|j: int| 0 <= j < lits.len() implies literal_trigrams(lits).subset_of(one_literal_trigrams(#[trigger] lits[j])) by {
            if j < lits.len() - 1 {
                assert(lits[j] == p[j]);
                assert(literal_trigrams(p).subset_of(one_literal_trigrams(p[j])));
            }
        }
    }
}

/// The trigrams of an optional literal list; an infinite (absent) list
/// contributes none.
pub open spec fn optional_literal_trigrams(lits: Option<Seq<Seq<u8>>>) -> Set<TrigramBytes> {
    match lits {
        Some(l) => literal_trigrams(l),
        None => Set::empty(),
    }
}

/// The literals a regex extractor found for one branch of a pattern: the
/// prefix literals and the suffix literals, each `None` when infinite.
pub struct BranchLiterals {
    pub prefixes: Option<Vec<Vec<u8>>>,
    pub suffixes: Option<Vec<Vec<u8>>>,
}

/// The mathematical content of [`BranchLiterals`].
pub struct BranchLiteralsView {
    pub prefixes: Option<Seq<Seq<u8>>>,
    pub suffixes: Option<Seq<Seq<u8>>>,
}

/// The byte strings of a list of literals.
pub open spec fn literal_views(v: Option<Vec<Vec<u8>>>) -> Option<Seq<Seq<u8>>> {
    match v {
        Some(l) => Some(Seq::new(l@.len(), |i: int| l@[i]@)),
        None => None,
    }
}

impl View for BranchLiterals {
    type V = BranchLiteralsView;

    open spec fn view(&self) -> BranchLiteralsView {
        BranchLiteralsView { prefixes: literal_views(self.prefixes), suffixes: literal_views(self.suffixes) }
    }
}

/// The views of a sequence of branch literals.
pub open spec fn branch_views(v: Seq<BranchLiterals>) -> Seq<BranchLiteralsView> {
    Seq::new(v.len(), |i: int| v[i]@)
}

/// The trigrams of one branch: those every prefix literal has, together
/// with those every suffix literal has. A match of the branch begins with one
/// of its prefix literals and ends with one of its suffix literals.
pub open spec fn branch_trigrams(b: BranchLiteralsView) -> Set<TrigramBytes> {
    optional_literal_trigrams(b.prefixes).union(optional_literal_trigrams(b.suffixes))
}

/// The plan for a regex from the literals of its branches. A top-level
/// alternation is a full scan when some branch has no trigrams, and else one
/// set of trigrams per branch (all of them when there is a single branch).
/// Any other pattern is one branch: all its trigrams, or a full scan when it
/// has none.
pub open spec fn regex_plan(alternation: bool, branches: Seq<BranchLiteralsView>) -> TrigramPlan {
    if alternation {
        if exists|i: int| 0 <= i < branches.len() && #[trigger] branch_trigrams(branches[i]).len() == 0 {
            TrigramPlan::FullScan
        } else if branches.len() == 0 {
            TrigramPlan::FullScan
        } else if branches.len() == 1 {
            TrigramPlan::All(branch_trigrams(branches[0]))
        } else {
            TrigramPlan::Any(Seq::new(branches.len(), |i: int| branch_trigrams(branches[i])))
        }
    } else if branches.len() == 0 || branch_trigrams(branches[0]).len() == 0 {
        TrigramPlan::FullScan
    } else {
        TrigramPlan::All(branch_trigrams(branches[0]))
    }
}

proof fn lemma_literal_trigrams_lowercase(lits: Seq<Seq<u8>>)
    ensures
        forall|t: TrigramBytes| #[trigger] literal_trigrams(lits).contains(t) ==> is_lower_trigram(t),
    decreases lits.len(),
{
    if lits.len() == 1 {
        lemma_folded_trigrams_lowercase(lits[0]);
    } else if lits.len() > 1 {
        lemma_literal_trigrams_lowercase(lits.drop_last());
    }
}

proof fn lemma_branch_trigrams_lowercase(b: BranchLiteralsView)
    ensures
        forall|t: TrigramBytes| #[trigger] branch_trigrams(b).contains(t) ==> is_lower_trigram(t),
{
    if let Some(l) = b.prefixes {
        lemma_literal_trigrams_lowercase(l);
    }
    if let Some(l) = b.suffixes {
        lemma_literal_trigrams_lowercase(l);
    }
}

/// Regex trigram extraction, like literal extraction, only looks up lower
/// case trigrams, whatever literals the extractor found.
pub proof fn lemma_regex_plan_lowercase(alternation: bool, branches: Seq<BranchLiteralsView>)
    ensures
        plan_is_lowercase(regex_plan(alternation, branches)),
{
    assert forall|i: int, t: TrigramBytes| 0 <= i < branches.len() && #[trigger] branch_trigrams(branches[i]).contains(t)
        implies is_lower_trigram(t) by {
        lemma_branch_trigrams_lowercase(branches[i]);
    }
    if branches.len() > 0 {
        lemma_branch_trigrams_lowercase(branches[0]);
    }
}

fn one_literal_set(l: &Vec<u8>) -> (r: TrigramSet)
    ensures
        r@ == one_literal_trigrams(l@),
{
    if l.len() >= 3 {
        extract_unique_trigrams_folded(l.as_slice())
    } else {
        TrigramSet::new()
    }
}

fn literal_set(lits: &Option<Vec<Vec<u8>>>) -> (r: TrigramSet)
    ensures
        r@ == optional_literal_trigrams(literal_views(*lits)),
{
    match lits {
        None => TrigramSet::new(),
        Some(l) => {
            let ghost lv = Seq::new(l@.len(), |i: int| l@[i]@);
            let n = l.len();
            if n == 0 {
                return TrigramSet::new();
            }
            let mut set = one_literal_set(&l[0]);
            let mut i: usize = 1;
            proof {
                assert(lv.take(1) =~= seq![l@[0]@]);
            }
            while i < n
                invariant
                    n == l@.len(),
                    lv == Seq::new(l@.len(), |i: int| l@[i]@),
                    1 <= i <= n,
                    set@ == literal_trigrams(lv.take(i as int)),
                decreases n - i,
            {
                proof {
                    assert(lv.take(i + 1).drop_last() =~= lv.take(i as int));
                    assert(lv.take(i + 1).last() == l@[i as int]@);
                }
                let t = one_literal_set(&l[i]);
                set = set.intersect(&t);
                i += 1;
            }
            proof {
                assert(lv.take(n as int) =~= lv);
            }
            set
        },
    }
}

fn branch_set(b: &BranchLiterals) -> (r: TrigramSet)
    ensures
        r@ == branch_trigrams(b@),
{
    let mut set = literal_set(&b.prefixes);
    let suffixes = literal_set(&b.suffixes);
    set.extend(&suffixes);
    set
}

/// The trigram query for a regex, from the literals found in its branches
/// (see [`regex_plan`]).
pub fn trigrams_from_regex_literals(alternation: bool, branches: &Vec<BranchLiterals>) -> (r: TrigramQuery)
    ensures
        r@ == regex_plan(alternation, branch_views(branches@)),
{
    let ghost bv = branch_views(branches@);
    let n = branches.len();
    if alternation {
        let mut sets: Vec<TrigramSet> = Vec::new();
        let mut i: usize = 0;
        while i < n
            invariant
                n == branches@.len(),
                alternation,
                bv == branch_views(branches@),
                0 <= i <= n,
                sets@.len() == i,
                forall|k: int| 0 <= k < i ==> #[trigger] sets@[k]@ == branch_trigrams(bv[k]),
                forall|k: int| 0 <= k < i ==> #[trigger] branch_trigrams(bv[k]).len() != 0,
            decreases n - i,
        {
            let t = branch_set(&branches[i]);
            proof {
                assert(bv[i as int] == branches@[i as int]@);
            }
            if t.is_empty() {
                proof {
                    assert(bv[i as int] == branches@[i as int]@);
                    assert(branch_trigrams(bv[i as int]).len() == 0);
                    assert(exists|k: int| 0 <= k < bv.len() && #[trigger] branch_trigrams(bv[k]).len() == 0);
                }
                return TrigramQuery::FullScan;
            }
            sets.push(t);
            i += 1;
        }
        if n == 0 {
            TrigramQuery::FullScan
        } else if n == 1 {
            let only = sets.remove(0);
            TrigramQuery::All(only)
        } else {
            proof {
                assert(set_views(sets@) =~= Seq::new(bv.len(), |i: int| branch_trigrams(bv[i])));
            }
            TrigramQuery::Any(sets)
        }
    } else if n == 0 {
        TrigramQuery::FullScan
    } else {
        let t = branch_set(&branches[0]);
        if t.is_empty() {
            TrigramQuery::FullScan
        } else {
            TrigramQuery::All(t)
        }
    }
}

/// Whether `regex_syntax::parse` accepts a pattern.
pub uninterp spec fn regex_syntax_accepts(pattern: Seq<char>) -> bool;

/// The top-level shape of a parsed pattern, from `Hir::kind`: `Some(n)` when
/// it is an alternation of `n` branches, `None` for every other kind.
pub uninterp spec fn regex_top_alternation(pattern: Seq<char>) -> Option<nat>;

/// The literals `regex_syntax`'s `Extractor` (default limits; suffixes when
/// `suffix`, else prefixes) finds in the HIR of a pattern, or of its
/// top-level branch `branch`; `None` when the extracted sequence is infinite.
pub uninterp spec fn regex_extracted_literals(pattern: Seq<char>, branch: Option<nat>, suffix: bool) -> Option<Seq<Seq<u8>>>;

/// The literals of one node of a pattern.
pub open spec fn node_literals(pattern: Seq<char>, branch: Option<nat>) -> BranchLiteralsView {
    BranchLiteralsView {
        prefixes: regex_extracted_literals(pattern, branch, false),
        suffixes: regex_extracted_literals(pattern, branch, true),
    }
}

/// Whether a pattern is a top-level alternation, and the literals of each of
/// its branches (of the whole pattern when it is no alternation).
pub open spec fn regex_branches(pattern: Seq<char>) -> (bool, Seq<BranchLiteralsView>) {
    match regex_top_alternation(pattern) {
        Some(n) => (true, Seq::new(n, |i: int| node_literals(pattern, Some(i as nat)))),
        None => (false, seq![node_literals(pattern, None)]),
    }
}

/// `regex_syntax::parse`, then `Hir::kind` of the result to find a top-level
/// alternation, then for each branch (or the whole HIR) a fresh
/// `Extractor::extract` of prefix and of suffix literals, each read out with
/// `literal::Seq::literals` and `Literal::as_bytes`. `None` when the pattern
/// does not parse; the parts are named `regex_syntax_accepts`,
/// `regex_top_alternation` and `regex_extracted_literals`.
#[verifier::external_body]
fn regex_branch_literals(pattern: &str) -> (r: Option<(bool, Vec<BranchLiterals>)>)
    ensures
        r is Some <==> regex_syntax_accepts(pattern@),
        r matches Some(p) ==> (p.0 <==> regex_top_alternation(pattern@) is Some),
        r matches Some(p) ==> branch_views(p.1@) == match regex_top_alternation(pattern@) {
            Some(n) => Seq::new(
                n,
                |i: int|
                    (BranchLiteralsView {
                        prefixes: regex_extracted_literals(pattern@, Some(i as nat), false),
                        suffixes: regex_extracted_literals(pattern@, Some(i as nat), true),
                    }),
            ),
            None => seq![
                (BranchLiteralsView {
                    prefixes: regex_extracted_literals(pattern@, None, false),
                    suffixes: regex_extracted_literals(pattern@, None, true),
                }),
            ],
        },
{
    let hir = regex_syntax::parse(pattern).ok()?;
    let (alternation, nodes) = match hir.kind() {
        regex_syntax::hir::HirKind::Alternation(bs) => (true, bs.iter().collect()),
        _ => (false, vec![&hir]),
    };
    let extract = |h: &Hir, kind| {
        let mut e = Extractor::new();
        e.kind(kind);
        e.extract(h).literals().map(|ls| ls.iter().map(|l| l.as_bytes().to_vec()).collect())
    };
    let lits = nodes.into_iter().map(|h| BranchLiterals { prefixes: extract(h, ExtractKind::Prefix), suffixes: extract(h, ExtractKind::Suffix) });
    Some((alternation, lits.collect()))
}

/// Extract trigrams from a regex pattern through its literal fragments.
///
/// A pattern `regex_syntax` rejects gives a full scan. Otherwise the prefix
/// and suffix literals of each top-level branch (or of the whole pattern when
/// it is no alternation) are found by `regex_syntax`'s extractor, and the
/// plan follows from them by [`regex_plan`].
pub fn extract_regex_trigrams(pattern: &str) -> (r: TrigramQuery)
    ensures
        !regex_syntax_accepts(pattern@) ==> r@ is FullScan,
        regex_syntax_accepts(pattern@) ==> r@ == regex_plan(regex_branches(pattern@).0, regex_branches(pattern@).1),
{
    match regex_branch_literals(pattern) {
        None => TrigramQuery::FullScan,
        Some((alternation, branches)) => {
            proof {
                assert(branch_views(branches@) =~= regex_branches(pattern@).1);
            }
            trigrams_from_regex_literals(alternation, &branches)
        },
    }
}

} // verus!
