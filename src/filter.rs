use vstd::prelude::*;

use crate::tree::SyntaxTree;

verus! {

/// Decides whether a node and its whole subtree are looked at during a walk.
pub trait Filter {
    /// Whether the filter keeps node `i` (and so lets the walk enter its subtree).
    spec fn keeps(&self, t: &SyntaxTree, i: int, source: Seq<char>) -> bool;

    /// Whether node `i` and its subtree are to be looked at.
    fn filter(&self, t: &SyntaxTree, i: usize, source: &str) -> (r: bool)
        requires
            t.wf(),
            i < t.size(),
        ensures
            r == self.keeps(t, i as int, source@),
    ;
}

/// The filter that keeps every node.
pub struct NothingFilter;

impl Filter for NothingFilter {
    open spec fn keeps(&self, t: &SyntaxTree, i: int, source: Seq<char>) -> bool {
        true
    }

    fn filter(&self, t: &SyntaxTree, i: usize, source: &str) -> (r: bool) {
        true
    }
}

/// The conjunction of a list of filters, evaluated left to right and stopped
/// at the first filter that refuses.
pub struct AndFilter<F: Filter> {
    pub filters: Vec<F>,
}

/// The filter at `k` is the first of `fs` that refuses node `i`.
pub open spec fn first_refusal<F: Filter>(fs: Seq<F>, t: &SyntaxTree, i: int, source: Seq<char>, k: int) -> bool {
    &&& 0 <= k < fs.len()
    &&& !fs[k].keeps(t, i, source)
    &&& forall|j: int| 0 <= j < k ==> #[trigger] fs[j].keeps(t, i, source)
}

impl<F: Filter> AndFilter<F> {
    /// The conjunction of `filters`, in the order given.
    pub fn new(filters: Vec<F>) -> (r: Self)
        ensures
            r.filters@ == filters@,
    {
        AndFilter { filters }
    }

    /// The index of the first filter that refuses node `i`, or `None` when all
    /// of them keep it. No filter after that index is consulted.
    pub fn first_refusing(&self, t: &SyntaxTree, i: usize, source: &str) -> (r: Option<usize>)
        requires
            t.wf(),
            i < t.size(),
        ensures
            r matches Some(k) ==> first_refusal(self.filters@, t, i as int, source@, k as int),
            r is None <==> forall|j: int|
                0 <= j < self.filters@.len() ==> #[trigger] self.filters@[j].keeps(t, i as int, source@),
    {
        let mut k: usize = 0;
        while k < self.filters.len()
            invariant
                t.wf(),
                i < t.size(),
                k <= self.filters@.len(),
                forall|j: int| 0 <= j < k ==> #[trigger] self.filters@[j].keeps(t, i as int, source@),
            decreases self.filters@.len() - k,
        {
            if !self.filters[k].filter(t, i, source) {
                return Some(k);
            }
            k = k + 1;
        }
        None
    }
}

impl<F: Filter> Filter for AndFilter<F> {
    open spec fn keeps(&self, t: &SyntaxTree, i: int, source: Seq<char>) -> bool {
        forall|j: int| 0 <= j < self.filters@.len() ==> #[trigger] self.filters@[j].keeps(t, i, source)
    }

    fn filter(&self, t: &SyntaxTree, i: usize, source: &str) -> (r: bool) {
        self.first_refusing(t, i, source).is_none()
    }
}

/// The conjunction of no filters keeps every node, as `NothingFilter` does.
pub proof fn lemma_empty_conjunction<F: Filter>(a: &AndFilter<F>, t: &SyntaxTree, i: int, source: Seq<char>)
    requires
        a.filters@.len() == 0,
    ensures
        a.keeps(t, i, source) == NothingFilter.keeps(t, i, source),
{
}

/// A conjunction is decided at its first refusing filter: two conjunctions
/// that agree up to and including that filter decide alike, whatever follows.
pub proof fn lemma_conjunction_short_circuit<F: Filter>(
    a: &AndFilter<F>,
    b: &AndFilter<F>,
    t: &SyntaxTree,
    i: int,
    source: Seq<char>,
    k: int,
)
    requires
        first_refusal(a.filters@, t, i, source, k),
        k < b.filters@.len(),
        forall|j: int| 0 <= j <= k ==> b.filters@[j] == a.filters@[j],
    ensures
        !a.keeps(t, i, source),
        !b.keeps(t, i, source),
        first_refusal(b.filters@, t, i, source, k),
{
    assert(b.filters@[k] == a.filters@[k]);
    assert forall|j: int| 0 <= j < k implies #[trigger] b.filters@[j].keeps(t, i, source) by {
        assert(b.filters@[j] == a.filters@[j]);
        assert(a.filters@[j].keeps(t, i, source));
    }
}

} // verus!
