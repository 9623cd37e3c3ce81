use vstd::prelude::*;

use crate::filter::Filter;
use crate::tree::{below_ok, parent_ok, SyntaxTree};

verus! {

/// Node `j` survives a walk of the subtree of `r`: the filter keeps `j` and
/// every ancestor of `j` inside that subtree.
pub open spec fn kept<F: Filter>(f: &F, t: &SyntaxTree, src: Seq<char>, r: int, j: int) -> bool {
    forall|a: int| r <= a <= j && #[trigger] t.encloses(a, j) ==> f.keeps(t, a, src)
}

/// The nodes of `[lo, t.end(r))` that survive a walk of the subtree of `r`,
/// in increasing (pre-order) order.
pub open spec fn walk_from<F: Filter>(f: &F, t: &SyntaxTree, src: Seq<char>, r: int, lo: int) -> Seq<int>
    decreases t.end(r) - lo,
{
    if lo >= t.end(r) {
        Seq::empty()
    } else if kept(f, t, src, r, lo) {
        seq![lo] + walk_from(f, t, src, r, lo + 1)
    } else {
        walk_from(f, t, src, r, lo + 1)
    }
}

/// The filtered pre-order walk of the subtree of `r`.
pub open spec fn walk_of<F: Filter>(f: &F, t: &SyntaxTree, src: Seq<char>, r: int) -> Seq<int> {
    walk_from(f, t, src, r, r)
}

/// Nodes that survive no walk between `lo` and `hi` leave the rest of the walk as it is.
pub proof fn lemma_walk_skip<F: Filter>(f: &F, t: &SyntaxTree, src: Seq<char>, r: int, lo: int, hi: int)
    requires
        lo <= hi <= t.end(r),
        forall|j: int| lo <= j < hi ==> !kept(f, t, src, r, j),
    ensures
        walk_from(f, t, src, r, lo) == walk_from(f, t, src, r, hi),
    decreases hi - lo,
{
    if lo < hi {
        lemma_walk_skip(f, t, src, r, lo + 1, hi);
    }
}

/// Every node of a subtree whose root the filter refuses is left out of the walk.
pub proof fn lemma_refused_subtree<F: Filter>(f: &F, t: &SyntaxTree, src: Seq<char>, r: int, c: int)
    requires
        t.wf(),
        0 <= r <= c < t.end(r),
        r < t.size(),
        !f.keeps(t, c, src),
    ensures
        forall|j: int| c <= j < t.end(c) ==> !kept(f, t, src, r, j),
        walk_from(f, t, src, r, c) == walk_from(f, t, src, r, t.end(c)),
{
    lemma_subtree_inside(t, r, c);
    assert forall|j: int| c <= j < t.end(c) implies !kept(f, t, src, r, j) by {
        assert(t.encloses(c, j));
    }
    lemma_walk_skip(f, t, src, r, c, t.end(c));
}

/// A subtree inside the subtree of `r` ends no later than it.
pub proof fn lemma_subtree_inside(t: &SyntaxTree, r: int, c: int)
    requires
        t.wf(),
        0 <= r <= c < t.end(r),
        r < t.size(),
    ensures
        c < t.size(),
        c < t.end(c) <= t.end(r),
{
    let n = t.size();
    assert(below_ok(t.parents@, t.ends@, 0, n));
    if r > 0 {
        assert(r < t.ends@[r] <= n);
    }
    assert(c < n);
    if c > 0 {
        assert(c < t.ends@[c] <= n);
    }
    if r > 0 && c > r {
        assert(t.ends@[c] <= t.ends@[r]);
    }
}

/// The parent of a node strictly inside the subtree of `r` lies in it too.
pub proof fn lemma_parent_inside(t: &SyntaxTree, r: int, c: int)
    requires
        t.wf(),
        0 <= r < c < t.end(r),
        r < t.size(),
    ensures
        t.parents@[c] matches Some(p) && r <= p < c && t.encloses(p as int, c) && t.end(c) <= t.end(
            p as int,
        ) && t.end(p as int) <= t.end(r),
{
    lemma_subtree_inside(t, r, c);
    assert(parent_ok(t.parents@, t.ends@, 0, c));
    let p = t.parents@[c]->0 as int;
    if p < r {
        assert(t.ends@[r] <= c);
    }
    lemma_subtree_inside(t, r, p);
    if p > 0 {
        assert(t.ends@[c] <= t.ends@[p]);
    }
}

enum State {
    AtCurrent,
    DescendToChild,
    MoveToSibling,
    AscendToParent,
}

/// A single pass over the nodes of a subtree that a filter keeps, in
/// pre-order, driven by cursor moves alone (first child, next sibling, parent).
pub struct NodeIterator<'a, F: Filter> {
    state: State,
    cursor: usize,
    root: usize,
    tree: &'a SyntaxTree,
    source: &'a str,
    filter: &'a F,
}

impl<'a, F: Filter> NodeIterator<'a, F> {
    /// Every ancestor of the cursor inside the walked subtree, the cursor excluded, is kept by the filter.
    closed spec fn ancestors_kept(&self) -> bool {
        forall|a: int|
            self.root <= a < self.cursor && #[trigger] self.tree.encloses(a, self.cursor as int)
                ==> self.filter.keeps(self.tree, a, self.source@)
    }

    /// The iterator's internal consistency.
    pub closed spec fn inv(&self) -> bool {
        &&& self.tree.wf()
        &&& self.root < self.tree.size()
        &&& self.root <= self.cursor < self.tree.end(self.root as int)
        &&& self.ancestors_kept()
        &&& match self.state {
            State::DescendToChild => self.filter.keeps(self.tree, self.cursor as int, self.source@),
            State::AscendToParent => self.cursor == self.root || self.tree.end(self.cursor as int)
                == self.tree.end(self.tree.parents@[self.cursor as int]->0 as int),
            _ => true,
        }
    }

    /// The nodes that this iterator has still to produce.
    pub closed spec fn remaining(&self) -> Seq<int> {
        let lo = match self.state {
            State::AtCurrent => self.cursor as int,
            State::DescendToChild => self.cursor + 1,
            _ => self.tree.end(self.cursor as int),
        };
        walk_from(self.filter, self.tree, self.source@, self.root as int, lo)
    }

    /// The tree being walked.
    pub closed spec fn walked_tree(&self) -> &'a SyntaxTree {
        self.tree
    }

    closed spec fn done_mark(&self) -> int {
        match self.state {
            State::AtCurrent => self.cursor as int,
            State::DescendToChild => self.cursor as int,
            _ => self.tree.end(self.cursor as int),
        }
    }

    closed spec fn rank(&self) -> int {
        match self.state {
            State::AtCurrent => 0,
            State::DescendToChild => 2,
            _ => 1,
        }
    }

    closed spec fn height(&self) -> int {
        match self.state {
            State::MoveToSibling => 2 * self.cursor + 1,
            _ => 2 * self.cursor,
        }
    }

    /// A walk of the subtree of `root`, about to look at `root` itself.
    pub fn new(tree: &'a SyntaxTree, root: usize, source: &'a str, filter: &'a F) -> (r: Self)
        requires
            tree.wf(),
            root < tree.size(),
        ensures
            r.inv(),
            r.walked_tree() == tree,
            r.remaining() == walk_of(filter, tree, source@, root as int),
    {
        proof {
            lemma_subtree_inside(tree, root as int, root as int);
        }
        NodeIterator { state: State::AtCurrent, cursor: root, root, tree, source, filter }
    }

    /// The next node of the walk, or `None` once the walk is over.
    pub fn next(&mut self) -> (r: Option<usize>)
        requires
            old(self).inv(),
        ensures
            final(self).inv(),
            final(self).walked_tree() == old(self).walked_tree(),
            r matches Some(j) ==> j < old(self).walked_tree().size(),
            old(self).remaining().len() == 0 ==> r is None && final(self).remaining().len() == 0,
            old(self).remaining().len() > 0 ==> r is Some && final(self).remaining() == old(
                self,
            ).remaining().drop_first(),
            r matches Some(j) ==> old(self).remaining().len() > 0 && j as int == old(self).remaining()[0],
    {
        let ghost start = self.remaining();
        loop
            invariant
                self.inv(),
                self.remaining() == start,
                start == old(self).remaining(),
                self.tree == old(self).tree,
                self.root == old(self).root,
            decreases
                self.tree.end(self.root as int) - self.done_mark(),
                self.rank(),
                self.height(),
        {
            let ghost t = self.tree;
            let ghost r = self.root as int;
            let ghost c = self.cursor as int;
            let ghost src = self.source@;
            proof {
                lemma_subtree_inside(t, r, c);
            }
            match self.state {
                State::AtCurrent => {
                    if self.filter.filter(self.tree, self.cursor, self.source) {
                        proof {
                            assert(kept(self.filter, t, src, r, c));
                            let rest = walk_from(self.filter, t, src, r, c + 1);
                            assert(start == seq![c] + rest);
                            assert((seq![c] + rest).drop_first() =~= rest);
                            assert((seq![c] + rest)[0] == c);
                        }
                        self.state = State::DescendToChild;
                        return Some(self.cursor);
                    } else {
                        proof {
                            lemma_refused_subtree(self.filter, t, src, r, c);
                        }
                        self.state = State::MoveToSibling;
                    }
                },
                State::DescendToChild => {
                    let end = self.tree.subtree_end(self.cursor);
                    if self.cursor + 1 < end {
                        proof {
                            lemma_subtree_inside(t, r, c);
                            assert forall|a: int|
                                r <= a < c + 1 && #[trigger] t.encloses(a, c + 1) implies self.filter.keeps(t, a, src) by {
                                if a < c {
                                    assert(t.encloses(a, c));
                                }
                            }
                        }
                        self.cursor = self.cursor + 1;
                        self.state = State::AtCurrent;
                    } else {
                        self.state = State::MoveToSibling;
                    }
                },
                State::MoveToSibling => {
                    let mut moved = false;
                    if self.cursor != self.root {
                        proof {
                            lemma_parent_inside(t, r, c);
                        }
                        match self.tree.parent(self.cursor) {
                            Some(p) => {
                                let end = self.tree.subtree_end(self.cursor);
                                if end < self.tree.subtree_end(p) {
                                    proof {
                                        let e = end as int;
                                        let n = t.size();
                                        assert(below_ok(t.parents@, t.ends@, 0, n));
                                        assert forall|a: int|
                                            r <= a < e && #[trigger] t.encloses(a, e) implies self.filter.keeps(t, a, src) by {
                                            if c <= a {
                                                if a > 0 {
                                                    assert(t.ends@[a] <= t.ends@[c]);
                                                }
                                            }
                                            assert(a < c);
                                            assert(t.encloses(a, c));
                                        }
                                    }
                                    self.cursor = end;
                                    self.state = State::AtCurrent;
                                    moved = true;
                                }
                            },
                            None => {},
                        }
                    }
                    if !moved {
                        proof {
                            if c != r {
                                lemma_parent_inside(t, r, c);
                            }
                        }
                        self.state = State::AscendToParent;
                    }
                },
                State::AscendToParent => {
                    if self.cursor == self.root {
                        proof {
                            lemma_subtree_inside(t, r, c);
                        }
                        return None;
                    }
                    proof {
                        lemma_parent_inside(t, r, c);
                    }
                    match self.tree.parent(self.cursor) {
                        Some(p) => {
                            proof {
                                let pp = p as int;
                                assert forall|a: int|
                                    r <= a < pp && #[trigger] t.encloses(a, pp) implies self.filter.keeps(t, a, src) by {
                                    lemma_subtree_inside(t, a, pp);
                                    assert(t.encloses(a, c));
                                }
                            }
                            self.cursor = p;
                            self.state = State::MoveToSibling;
                        },
                        None => {
                            return None;
                        },
                    }
                },
            }
        }
    }
}

/// All the nodes of the filtered pre-order walk of the subtree of `root`, in order.
pub fn walk_nodes<F: Filter>(tree: &SyntaxTree, root: usize, source: &str, filter: &F) -> (r: Vec<usize>)
    requires
        tree.wf(),
        root < tree.size(),
    ensures
        r@.map_values(|j: usize| j as int) == walk_of(filter, tree, source@, root as int),
{
    let mut it = NodeIterator::new(tree, root, source, filter);
    let mut out: Vec<usize> = Vec::new();
    let ghost all = it.remaining();
    loop
        invariant
            it.inv(),
            all == walk_of(filter, tree, source@, root as int),
            out@.map_values(|j: usize| j as int) + it.remaining() == all,
        decreases it.remaining().len(),
    {
        let ghost before = it.remaining();
        match it.next() {
            Some(j) => {
                proof {
                    assert(out@.push(j).map_values(|j: usize| j as int) =~= out@.map_values(
                        |j: usize| j as int,
                    ).push(j as int));
                    assert(before =~= seq![j as int] + it.remaining());
                    assert(out@.map_values(|j: usize| j as int).push(j as int) + it.remaining()
                        =~= out@.map_values(|j: usize| j as int) + before);
                }
                out.push(j);
            },
            None => {
                proof {
                    assert(out@.map_values(|j: usize| j as int) + it.remaining() =~= out@.map_values(
                        |j: usize| j as int,
                    ));
                }
                return out;
            },
        }
    }
}

/// A node lies in the walk from `lo` exactly when it is at or after `lo`,
/// inside the subtree of `r`, and kept; the walk is strictly increasing.
pub proof fn lemma_walk_members<F: Filter>(f: &F, t: &SyntaxTree, src: Seq<char>, r: int, lo: int)
    ensures
        forall|j: int|
            #[trigger] walk_from(f, t, src, r, lo).contains(j) <==> (lo <= j < t.end(r) && kept(
                f,
                t,
                src,
                r,
                j,
            )),
        forall|a: int, b: int|
            0 <= a < b < walk_from(f, t, src, r, lo).len() ==> walk_from(f, t, src, r, lo)[a] < walk_from(
                f,
                t,
                src,
                r,
                lo,
            )[b],
    decreases t.end(r) - lo,
{
    if lo < t.end(r) {
        lemma_walk_members(f, t, src, r, lo + 1);
        let rest = walk_from(f, t, src, r, lo + 1);
        if kept(f, t, src, r, lo) {
            let w = seq![lo] + rest;
            assert(w[0] == lo);
            assert forall|k: int| 0 < k < w.len() implies w[k] == rest[k - 1] by {}
            assert forall|j: int| w.contains(j) <==> (lo <= j < t.end(r) && kept(f, t, src, r, j)) by {
                assert(rest.contains(j) <==> (lo + 1 <= j < t.end(r) && kept(f, t, src, r, j)));
                if w.contains(j) {
                    let k = choose|k: int| 0 <= k < w.len() && w[k] == j;
                    if k > 0 {
                        assert(rest[k - 1] == j);
                        assert(rest.contains(j));
                    }
                }
                if lo <= j < t.end(r) && kept(f, t, src, r, j) {
                    if j == lo {
                        assert(w[0] == j);
                    } else {
                        assert(rest.contains(j));
                        let k = choose|k: int| 0 <= k < rest.len() && rest[k] == j;
                        assert(w[k + 1] == j);
                    }
                }
            }
            assert forall|a: int, b: int| 0 <= a < b < w.len() implies w[a] < w[b] by {
                if a == 0 {
                    assert(w[b] == rest[b - 1]);
                    assert(rest.contains(rest[b - 1]));
                    let v = rest[b - 1];
                    assert(rest.contains(v) <==> (lo + 1 <= v < t.end(r) && kept(f, t, src, r, v)));
                } else {
                    assert(w[a] == rest[a - 1] && w[b] == rest[b - 1]);
                    assert(rest[a - 1] < rest[b - 1]);
                }
            }
        }
    }
}

/// With a filter that refuses every node, the walk is empty.
pub proof fn lemma_walk_refuse_all<F: Filter>(f: &F, t: &SyntaxTree, src: Seq<char>, r: int)
    requires
        t.wf(),
        0 <= r < t.size(),
        forall|i: int| 0 <= i < t.size() ==> !#[trigger] f.keeps(t, i, src),
    ensures
        walk_of(f, t, src, r) == Seq::<int>::empty(),
{
    lemma_subtree_inside(t, r, r);
    lemma_refused_subtree(f, t, src, r, r);
}

/// With a filter that keeps every node, the walk is every node of the subtree
/// exactly once, in storage order.
pub proof fn lemma_walk_from_keep_all<F: Filter>(f: &F, t: &SyntaxTree, src: Seq<char>, r: int, lo: int)
    requires
        t.wf(),
        0 <= r < t.size(),
        r <= lo <= t.end(r),
        forall|i: int| 0 <= i < t.size() ==> #[trigger] f.keeps(t, i, src),
    ensures
        walk_from(f, t, src, r, lo) == Seq::new((t.end(r) - lo) as nat, |k: int| lo + k),
    decreases t.end(r) - lo,
{
    if lo < t.end(r) {
        lemma_walk_from_keep_all(f, t, src, r, lo + 1);
        lemma_subtree_inside(t, r, lo);
        assert forall|a: int| r <= a <= lo && #[trigger] t.encloses(a, lo) implies f.keeps(t, a, src) by {
            lemma_subtree_inside(t, r, a);
        }
        assert(seq![lo] + Seq::new((t.end(r) - lo - 1) as nat, |k: int| lo + 1 + k) =~= Seq::new(
            (t.end(r) - lo) as nat,
            |k: int| lo + k,
        ));
    } else {
        assert(Seq::new((t.end(r) - lo) as nat, |k: int| lo + k) =~= Seq::<int>::empty());
    }
}

/// Two children of one parent: the earlier one's whole subtree comes before the later one.
pub proof fn lemma_siblings_ordered(t: &SyntaxTree, s1: int, s2: int)
    requires
        t.wf(),
        0 < s1 < s2 < t.size(),
        t.parents@[s1] == t.parents@[s2],
    ensures
        t.end(s1) <= s2,
{
    let n = t.size();
    assert(parent_ok(t.parents@, t.ends@, 0, s1));
    assert(parent_ok(t.parents@, t.ends@, 0, s2));
    assert(t.ends@[s1] <= s2);
}

/// With a filter that keeps every node, the walk of the subtree of `r` is its
/// pre-order (see `preorder` and `lemma_children_run`) and holds each of its
/// nodes exactly once; an ancestor comes before its descendants,
/// and of two siblings the earlier one and its whole subtree come before the later one.
pub proof fn lemma_walk_keep_all<F: Filter>(f: &F, t: &SyntaxTree, src: Seq<char>, r: int)
    requires
        t.wf(),
        0 <= r < t.size(),
        forall|i: int| 0 <= i < t.size() ==> #[trigger] f.keeps(t, i, src),
    ensures
        walk_of(f, t, src, r).len() == t.end(r) - r,
        forall|k: int| 0 <= k < t.end(r) - r ==> #[trigger] walk_of(f, t, src, r)[k] == r + k,
        walk_of(f, t, src, r) == preorder(t, r),
        forall|a: int, b: int| t.encloses(a, b) && a != b ==> a < b,
        forall|s1: int, s2: int, x: int|
            0 < s1 < s2 < t.size() && t.parents@[s1] == t.parents@[s2] && t.encloses(s1, x) ==> x < s2,
{
    lemma_subtree_inside(t, r, r);
    lemma_walk_from_keep_all(f, t, src, r, r);
    lemma_preorder(t, r);
    assert forall|s1: int, s2: int, x: int|
        0 < s1 < s2 < t.size() && t.parents@[s1] == t.parents@[s2] && t.encloses(s1, x) implies x < s2 by {
        lemma_siblings_ordered(t, s1, s2);
    }
}

/// Refusing one node `x` drops `x` and its descendants from the walk and
/// nothing else: every other node is in the walk exactly when it was before,
/// and the walk is the earlier one with the subtree of `x` taken out, in the
/// same order.
pub proof fn lemma_walk_exclude<F: Filter, G: Filter>(
    f: &F,
    g: &G,
    t: &SyntaxTree,
    src: Seq<char>,
    r: int,
    x: int,
)
    requires
        t.wf(),
        0 <= r <= x < t.end(r),
        r < t.size(),
        !g.keeps(t, x, src),
        forall|i: int| 0 <= i < t.size() && i != x ==> #[trigger] g.keeps(t, i, src) == f.keeps(t, i, src),
    ensures
        forall|j: int| t.encloses(x, j) ==> !walk_of(g, t, src, r).contains(j),
        forall|j: int| !t.encloses(x, j) ==> (walk_of(g, t, src, r).contains(j) <==> walk_of(f, t, src, r).contains(j)),
        walk_of(g, t, src, r) == walk_of(f, t, src, r).filter(outside(t, x)),
{
    lemma_walk_exclude_order(f, g, t, src, r, x, r);
    lemma_subtree_inside(t, r, x);
    lemma_walk_members(f, t, src, r, r);
    lemma_walk_members(g, t, src, r, r);
    assert forall|j: int| !t.encloses(x, j) && r <= j < t.end(r) implies (kept(g, t, src, r, j) <==> kept(f, t, src, r, j)) by {
        lemma_subtree_inside(t, r, j);
        if kept(f, t, src, r, j) {
            assert forall|a: int| r <= a <= j && #[trigger] t.encloses(a, j) implies g.keeps(t, a, src) by {
                lemma_subtree_inside(t, r, a);
                assert(f.keeps(t, a, src));
            }
        }
        if kept(g, t, src, r, j) {
            assert forall|a: int| r <= a <= j && #[trigger] t.encloses(a, j) implies f.keeps(t, a, src) by {
                lemma_subtree_inside(t, r, a);
                assert(g.keeps(t, a, src));
            }
        }
    }
    assert forall|j: int| !t.encloses(x, j) implies (walk_of(g, t, src, r).contains(j) <==> walk_of(f, t, src, r).contains(j)) by {
        if r <= j < t.end(r) {
            assert(kept(g, t, src, r, j) <==> kept(f, t, src, r, j));
        }
    }
    assert forall|j: int| t.encloses(x, j) implies !walk_of(g, t, src, r).contains(j) by {
        if r <= j < t.end(r) {
            assert(!kept(g, t, src, r, j)) by {
                assert(t.encloses(x, j));
            }
        }
    }
}

/// The test "not in the subtree of `x`".
pub open spec fn outside(t: &SyntaxTree, x: int) -> spec_fn(int) -> bool {
    |j: int| !t.encloses(x, j)
}

/// Filtering a sequence with one more element in front.
pub proof fn lemma_filter_prepend(a: int, rest: Seq<int>, p: spec_fn(int) -> bool)
    ensures
        (seq![a] + rest).filter(p) == if p(a) {
            seq![a] + rest.filter(p)
        } else {
            rest.filter(p)
        },
    decreases rest.len(),
{
    reveal(Seq::filter);
    let s = seq![a] + rest;
    if rest.len() == 0 {
        assert(s =~= seq![a]);
        assert(s.drop_last() =~= Seq::<int>::empty());
        assert(Seq::<int>::empty().filter(p) == Seq::<int>::empty());
        assert(rest.filter(p) == Seq::<int>::empty());
        assert(s.filter(p) == if p(a) {
            s.drop_last().filter(p).push(a)
        } else {
            s.drop_last().filter(p)
        });
        assert(Seq::<int>::empty().push(a) =~= seq![a] + Seq::<int>::empty());
    } else {
        let rd = rest.drop_last();
        let l = rest.last();
        lemma_filter_prepend(a, rd, p);
        assert(s.drop_last() =~= seq![a] + rd);
        assert(s.last() == l);
        assert(s.filter(p) == if p(l) {
            s.drop_last().filter(p).push(l)
        } else {
            s.drop_last().filter(p)
        });
        assert(rest.filter(p) == if p(l) {
            rd.filter(p).push(l)
        } else {
            rd.filter(p)
        });
        assert((seq![a] + rd.filter(p)).push(l) =~= seq![a] + rd.filter(p).push(l));
    }
}

/// Under the conditions of `lemma_walk_exclude`, the walk that refuses `x` is
/// the other walk with the subtree of `x` taken out, in the same order.
pub proof fn lemma_walk_exclude_order<F: Filter, G: Filter>(
    f: &F,
    g: &G,
    t: &SyntaxTree,
    src: Seq<char>,
    r: int,
    x: int,
    lo: int,
)
    requires
        t.wf(),
        0 <= r <= x < t.end(r),
        r < t.size(),
        r <= lo <= t.end(r),
        !g.keeps(t, x, src),
        forall|i: int| 0 <= i < t.size() && i != x ==> #[trigger] g.keeps(t, i, src) == f.keeps(t, i, src),
    ensures
        walk_from(g, t, src, r, lo) == walk_from(f, t, src, r, lo).filter(outside(t, x)),
    decreases t.end(r) - lo,
{
    if lo >= t.end(r) {
        assert(walk_from(f, t, src, r, lo).filter(outside(t, x)) =~= Seq::<int>::empty());
    } else {
        lemma_walk_exclude_order(f, g, t, src, r, x, lo + 1);
        lemma_subtree_inside(t, r, lo);
        let rest_f = walk_from(f, t, src, r, lo + 1);
        if kept(f, t, src, r, lo) {
            lemma_filter_prepend(lo, rest_f, outside(t, x));
        }
        if kept(g, t, src, r, lo) {
            assert(kept(f, t, src, r, lo)) by {
                assert forall|a: int| r <= a <= lo && #[trigger] t.encloses(a, lo) implies f.keeps(t, a, src) by {
                    lemma_subtree_inside(t, r, a);
                    assert(g.keeps(t, a, src));
                }
            }
            assert(!t.encloses(x, lo));
        } else if kept(f, t, src, r, lo) {
            assert(t.encloses(x, lo)) by {
                let a = choose|a: int| r <= a <= lo && #[trigger] t.encloses(a, lo) && !g.keeps(t, a, src);
                lemma_subtree_inside(t, r, a);
                if a != x {
                    assert(f.keeps(t, a, src));
                }
            }
        }
    }
}

/// The run of siblings that starts at `c` and ends before `hi`: `c`, then the
/// node right after the subtree of `c`, and so on.
pub open spec fn sibling_run(t: &SyntaxTree, c: int, hi: int) -> Seq<int>
    decreases hi - c,
{
    if c < hi && c < t.end(c) <= hi {
        seq![c] + sibling_run(t, t.end(c), hi)
    } else {
        Seq::empty()
    }
}

/// The pre-order of the subtree of `n`: `n`, then the pre-order of each of its
/// children in turn.
pub open spec fn preorder(t: &SyntaxTree, n: int) -> Seq<int>
    decreases t.end(n) - n, 0int,
{
    if n < t.end(n) {
        seq![n] + preorder_run(t, n + 1, t.end(n))
    } else {
        seq![n]
    }
}

/// The pre-orders of the siblings of `sibling_run(t, c, hi)`, one after the other.
pub open spec fn preorder_run(t: &SyntaxTree, c: int, hi: int) -> Seq<int>
    decreases hi - c, 1int,
{
    if c < hi && c < t.end(c) <= hi {
        preorder(t, c) + preorder_run(t, t.end(c), hi)
    } else {
        Seq::empty()
    }
}

/// The run that starts right after `n` and ends with its subtree is exactly
/// the children of `n`, in order.
pub proof fn lemma_children_run(t: &SyntaxTree, n: int, c: int)
    requires
        t.wf(),
        0 <= n < t.size(),
        n < c <= t.end(n),
        forall|q: int| n < q < c ==> #[trigger] t.end(q) <= c,
    ensures
        forall|j: int|
            #[trigger] sibling_run(t, c, t.end(n)).contains(j) <==> (c <= j < t.end(n) && t.parents@[j] == Some(
                n as usize,
            )),
    decreases t.end(n) - c,
{
    let hi = t.end(n);
    let run = sibling_run(t, c, hi);
    lemma_subtree_inside(t, n, n);
    if c < hi {
        lemma_subtree_inside(t, n, c);
        let e = t.end(c);
        assert forall|q: int| n < q < e implies #[trigger] t.end(q) <= e by {
            if c < q {
                lemma_subtree_inside(t, c, q);
            }
        }
        lemma_children_run(t, n, e);
        let rest = sibling_run(t, e, hi);
        assert(run == seq![c] + rest);
        assert(parent_ok(t.parents@, t.ends@, 0, c));
        let p = t.parents@[c]->0 as int;
        if p < n {
            assert(t.ends@[n] <= c);
        } else if p > n {
            assert(t.end(p) <= c);
        }
        assert(t.parents@[c] == Some(n as usize));
        assert forall|j: int|
            #[trigger] run.contains(j) <==> (c <= j < hi && t.parents@[j] == Some(n as usize)) by {
            if run.contains(j) {
                let w = choose|w: int| 0 <= w < run.len() && run[w] == j;
                if w > 0 {
                    assert(rest[w - 1] == j);
                    assert(rest.contains(j));
                }
            }
            if c <= j < hi && t.parents@[j] == Some(n as usize) {
                if j == c {
                    assert(run[0] == j);
                } else if j < e {
                    lemma_subtree_inside(t, c, j);
                    assert(parent_ok(t.parents@, t.ends@, 0, j));
                    assert(t.end(c) <= j);
                } else {
                    assert(rest.contains(j));
                    let w = choose|w: int| 0 <= w < rest.len() && rest[w] == j;
                    assert(run[w + 1] == j);
                }
            }
        }
    } else {
        assert forall|j: int|
            #[trigger] run.contains(j) <==> (c <= j < hi && t.parents@[j] == Some(n as usize)) by {
        }
    }
}

/// The pre-order of a subtree is its interval of indices.
pub proof fn lemma_preorder(t: &SyntaxTree, n: int)
    requires
        t.wf(),
        0 <= n < t.size(),
    ensures
        preorder(t, n) == Seq::new((t.end(n) - n) as nat, |k: int| n + k),
    decreases t.end(n) - n, 0int,
{
    lemma_subtree_inside(t, n, n);
    assert forall|j: int| n + 1 <= j < t.end(n) implies #[trigger] t.end(j) <= t.end(n) by {
        lemma_subtree_inside(t, n, j);
    }
    lemma_preorder_run(t, n + 1, t.end(n));
    assert(seq![n] + Seq::new((t.end(n) - n - 1) as nat, |k: int| n + 1 + k) =~= Seq::new(
        (t.end(n) - n) as nat,
        |k: int| n + k,
    ));
}

/// The pre-orders of a run of siblings that tiles `[c, hi)` make up that interval.
pub proof fn lemma_preorder_run(t: &SyntaxTree, c: int, hi: int)
    requires
        t.wf(),
        0 <= c <= hi <= t.size(),
        forall|j: int| c <= j < hi ==> #[trigger] t.end(j) <= hi,
    ensures
        preorder_run(t, c, hi) == Seq::new((hi - c) as nat, |k: int| c + k),
    decreases hi - c, 1int,
{
    if c < hi {
        lemma_subtree_inside(t, c, c);
        let e = t.end(c);
        lemma_preorder(t, c);
        lemma_preorder_run(t, e, hi);
        assert(Seq::new((e - c) as nat, |k: int| c + k) + Seq::new((hi - e) as nat, |k: int| e + k) =~= Seq::new(
            (hi - c) as nat,
            |k: int| c + k,
        ));
    } else {
        assert(Seq::new((hi - c) as nat, |k: int| c + k) =~= Seq::<int>::empty());
    }
}

} // verus!
