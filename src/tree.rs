use vstd::prelude::*;

use crate::model::{CodePosition, CodeRange};
use crate::sitter::{end_point, start_point};

verus! {

/// What the library keeps of one node of a parsed tree.
#[derive(Debug, Clone, Copy)]
pub struct SyntaxNode {
    /// The grammar symbol of the node.
    pub kind: &'static str,
    /// Whether the symbol is a named one of the grammar (not punctuation).
    pub named: bool,
    /// The field of its parent under which the node stands, if any.
    pub field: Option<&'static str>,
    pub range: CodeRange,
    pub start_byte: usize,
    pub end_byte: usize,
}

/// A syntax tree stored in pre-order: node 0 is the root, the subtree of node
/// `i` is the interval of indices `[i, ends[i])`, and `parents[i]` is the
/// nearest node whose subtree strictly contains `i`.
pub struct SyntaxTree {
    pub nodes: Vec<SyntaxNode>,
    pub parents: Vec<Option<usize>>,
    pub ends: Vec<usize>,
}

/// Node `j` names as its parent the nearest enclosing node at or after `lo`.
pub open spec fn parent_ok(parents: Seq<Option<usize>>, ends: Seq<usize>, lo: int, j: int) -> bool {
    match parents[j] {
        Some(p) => {
            &&& lo <= p < j
            &&& (p == lo || j < ends[p as int])
            &&& forall|q: int| p < q < j ==> #[trigger] ends[q] <= j
        },
        None => false,
    }
}

/// The nodes strictly after `lo` and before `hi` form complete subtrees,
/// nested in one another or disjoint.
pub open spec fn below_ok(parents: Seq<Option<usize>>, ends: Seq<usize>, lo: int, hi: int) -> bool {
    &&& 0 <= lo < hi <= ends.len()
    &&& ends.len() == parents.len()
    &&& forall|i: int| lo < i < hi ==> i < #[trigger] ends[i] <= hi
    &&& forall|i: int, j: int|
        #![trigger ends[i], ends[j]]
        lo < i < hi && i < j < ends[i] ==> ends[j] <= ends[i]
    &&& forall|j: int| lo < j < hi ==> parent_ok(parents, ends, lo, j)
}

/// The nodes `[lo, hi)` form one complete subtree rooted at `lo`.
pub open spec fn block_ok(parents: Seq<Option<usize>>, ends: Seq<usize>, lo: int, hi: int) -> bool {
    &&& below_ok(parents, ends, lo, hi)
    &&& ends[lo] == hi
}

impl SyntaxTree {
    /// The number of nodes.
    pub open spec fn size(&self) -> int {
        self.nodes@.len() as int
    }

    /// One past the last node of the subtree of `i`.
    pub open spec fn end(&self, i: int) -> int {
        self.ends@[i] as int
    }

    /// Whether `a` is `j` or one of its ancestors.
    pub open spec fn encloses(&self, a: int, j: int) -> bool {
        a <= j < self.end(a)
    }

    /// The storage is a well-formed pre-order tree rooted at node 0.
    pub open spec fn wf(&self) -> bool {
        &&& self.nodes@.len() == self.parents@.len()
        &&& self.nodes@.len() == self.ends@.len()
        &&& self.nodes@.len() > 0
        &&& block_ok(self.parents@, self.ends@, 0, self.size())
        &&& self.parents@[0] is None
    }

    /// The number of nodes.
    pub fn len(&self) -> (r: usize)
        ensures
            r == self.size(),
    {
        self.nodes.len()
    }

    /// The node stored at index `i`.
    pub fn node(&self, i: usize) -> (r: &SyntaxNode)
        requires
            i < self.size(),
        ensures
            *r == self.nodes@[i as int],
    {
        &self.nodes[i]
    }

    /// One past the last node of the subtree of `i`.
    pub fn subtree_end(&self, i: usize) -> (r: usize)
        requires
            self.wf(),
            i < self.size(),
        ensures
            r == self.end(i as int),
            i < r <= self.size(),
    {
        self.ends[i]
    }

    /// The parent of `i`, if `i` is not the root.
    pub fn parent(&self, i: usize) -> (r: Option<usize>)
        requires
            self.wf(),
            i < self.size(),
        ensures
            r == self.parents@[i as int],
            i == 0 <==> r is None,
            r matches Some(p) ==> p < i && self.encloses(p as int, i as int),
    {
        proof {
            if i > 0 {
                assert(parent_ok(self.parents@, self.ends@, 0, i as int));
            }
        }
        self.parents[i]
    }
}

/// Node `i` stands on the stack `s` of nodes whose subtree is still being copied.
spec fn open_at(s: Seq<usize>, i: int) -> bool {
    exists|k: int| 0 <= k < s.len() && s[k] as int == i
}

/// A node that is no longer on the stack has its final subtree end, and its
/// subtree holds only such nodes, nested inside it.
spec fn closed_ok(ends: Seq<usize>, s: Seq<usize>, i: int, n: int) -> bool {
    &&& i < ends[i] <= n
    &&& forall|j: int| i < j < ends[i] ==> !open_at(s, j) && #[trigger] ends[j] <= ends[i]
}

/// Node `j` names as its parent the nearest node that encloses it.
spec fn link_ok(parents: Seq<Option<usize>>, ends: Seq<usize>, s: Seq<usize>, j: int) -> bool {
    match parents[j] {
        Some(p) => {
            &&& p < j
            &&& (open_at(s, p as int) || j < ends[p as int])
            &&& forall|q: int| p < q < j ==> !open_at(s, q) && #[trigger] ends[q] <= j
        },
        None => false,
    }
}

/// Consistency of a copy under way: `s` is the stack of open nodes, from the root up.
spec fn copy_ok(parents: Seq<Option<usize>>, ends: Seq<usize>, s: Seq<usize>, n: int) -> bool {
    &&& parents.len() == n
    &&& ends.len() == n
    &&& forall|a: int, b: int| 0 <= a < b < s.len() ==> s[a] < s[b]
    &&& forall|k: int| 0 <= k < s.len() ==> s[k] < n
    &&& (s.len() > 0 ==> s[0] == 0)
    &&& (n > 0 ==> parents[0] is None)
    &&& (s.len() == 0 && n > 0 ==> ends[0] == n)
    &&& forall|i: int| 0 <= i < n && !open_at(s, i) ==> closed_ok(ends, s, i, n)
    &&& forall|j: int| 0 < j < n ==> link_ok(parents, ends, s, j)
}

/// A tree under copy: the nodes so far, in pre-order, and the stack of nodes
/// whose subtree is not complete yet.
struct TreeCopy {
    nodes: Vec<SyntaxNode>,
    parents: Vec<Option<usize>>,
    ends: Vec<usize>,
    open: Vec<usize>,
}

impl TreeCopy {
    spec fn ok(&self) -> bool {
        &&& self.nodes@.len() == self.parents@.len()
        &&& copy_ok(self.parents@, self.ends@, self.open@, self.nodes@.len() as int)
    }

    /// Appends `node` as a child of the innermost open node and opens it.
    fn open_node(&mut self, node: &tree_sitter::Node, field: Option<&'static str>)
        requires
            old(self).ok(),
            old(self).open@.len() > 0 || old(self).nodes@.len() == 0,
        ensures
            final(self).ok(),
            final(self).open@.len() == old(self).open@.len() + 1,
            final(self).nodes@.len() == old(self).nodes@.len() + 1,
    {
        let n = self.nodes.len();
        let (start_row, start_column) = start_point(node);
        let (end_row, end_column) = end_point(node);
        let range = CodeRange {
            start: CodePosition::from_point(start_row, start_column),
            end: CodePosition::from_point(end_row, end_column),
        };
        let parent = if self.open.len() > 0 {
            Some(self.open[self.open.len() - 1])
        } else {
            None
        };
        let ghost s = self.open@;
        let ghost e = self.ends@;
        let ghost p0 = self.parents@;
        proof {
            assert forall|q: int| open_at(s, q) implies q <= s.last() by {
                let k = choose|k: int| 0 <= k < s.len() && s[k] as int == q;
                if k < s.len() - 1 {
                    assert(s[k] < s[s.len() - 1]);
                }
            }
        }
        self.nodes.push(
            SyntaxNode {
                kind: node.kind(),
                named: node.is_named(),
                field,
                range,
                start_byte: node.start_byte(),
                end_byte: node.end_byte(),
            },
        );
        self.parents.push(parent);
        self.ends.push(n);
        self.open.push(n);
        proof {
            let s2 = self.open@;
            let p2 = self.parents@;
            let e2 = self.ends@;
            let m = n as int + 1;
            assert forall|q: int| open_at(s2, q) <==> (open_at(s, q) || q == n) by {
                if open_at(s2, q) {
                    let k = choose|k: int| 0 <= k < s2.len() && s2[k] as int == q;
                    if k < s.len() {
                        assert(s[k] == s2[k]);
                    }
                }
                if open_at(s, q) {
                    let k = choose|k: int| 0 <= k < s.len() && s[k] as int == q;
                    assert(s2[k] == s[k]);
                }
                if q == n {
                    assert(s2[s.len() as int] == n);
                }
            }
            assert forall|i: int| 0 <= i < m && !open_at(s2, i) implies closed_ok(e2, s2, i, m) by {
                assert(closed_ok(e, s, i, n as int));
                assert forall|j: int| i < j < e2[i] implies !open_at(s2, j) && #[trigger] e2[j] <= e2[i] by {
                    assert(e[j] <= e[i]);
                }
            }
            assert forall|j: int| 0 < j < m implies link_ok(p2, e2, s2, j) by {
                if j < n {
                    assert(link_ok(p0, e, s, j));
                    assert(p2[j] == p0[j]);
                    let p = p2[j]->0;
                    assert forall|q: int| p < q < j implies !open_at(s2, q) && #[trigger] e2[q] <= j by {
                        assert(e[q] <= j);
                    }
                } else {
                    let p = s.last();
                    assert forall|q: int| p < q < j implies !open_at(s2, q) && #[trigger] e2[q] <= j by {
                        assert(!open_at(s, q));
                        assert(closed_ok(e, s, q, n as int));
                    }
                }
            }
        }
    }

    /// Closes the innermost open node: its subtree is all that was copied after it.
    fn close_node(&mut self)
        requires
            old(self).ok(),
            old(self).open@.len() > 0,
        ensures
            final(self).ok(),
            final(self).open@.len() == old(self).open@.len() - 1,
            final(self).nodes@.len() == old(self).nodes@.len(),
    {
        let n = self.nodes.len();
        let o = self.open[self.open.len() - 1];
        let ghost s = self.open@;
        let ghost e = self.ends@;
        proof {
            assert forall|q: int| open_at(s, q) implies q <= o by {
                let k = choose|k: int| 0 <= k < s.len() && s[k] as int == q;
                if k < s.len() - 1 {
                    assert(s[k] < s[s.len() - 1]);
                }
            }
        }
        self.ends.set(o, n);
        self.open.pop();
        proof {
            let s2 = self.open@;
            let e2 = self.ends@;
            let p2 = self.parents@;
            assert(s2 =~= s.drop_last());
            assert forall|q: int| open_at(s2, q) <==> (open_at(s, q) && q != o) by {
                if open_at(s2, q) {
                    let k = choose|k: int| 0 <= k < s2.len() && s2[k] as int == q;
                    assert(s[k] == s2[k]);
                    assert(s[k] < s[s.len() - 1]);
                }
                if open_at(s, q) && q != o {
                    let k = choose|k: int| 0 <= k < s.len() && s[k] as int == q;
                    assert(k < s.len() - 1);
                    assert(s2[k] == s[k]);
                }
            }
            assert(open_at(s, o as int)) by {
                assert(s[s.len() - 1] == o);
            }
            assert forall|i: int| 0 <= i < n && !open_at(s2, i) implies closed_ok(e2, s2, i, n as int) by {
                if i == o {
                    assert forall|j: int| i < j < e2[i] implies !open_at(s2, j) && #[trigger] e2[j] <= e2[i] by {
                        if open_at(s, j) {
                            assert(j <= o);
                        }
                        assert(closed_ok(e, s, j, n as int));
                    }
                } else {
                    assert(closed_ok(e, s, i, n as int));
                    assert forall|j: int| i < j < e2[i] implies !open_at(s2, j) && #[trigger] e2[j] <= e2[i] by {
                        assert(e[j] <= e[i]);
                    }
                }
            }
            assert forall|j: int| 0 < j < n implies link_ok(p2, e2, s2, j) by {
                assert(link_ok(p2, e, s, j));
                let p = p2[j]->0;
                assert forall|q: int| p < q < j implies !open_at(s2, q) && #[trigger] e2[q] <= j by {
                    assert(e[q] <= j);
                }
            }
            if s2.len() == 0 && n > 0 {
                assert(s[0] == 0);
            }
        }
    }
}

/// The library's copy of a parsed tree, or `None` should the parser's cursor
/// disagree with itself.
pub fn from_parsed(tree: &tree_sitter::Tree) -> (r: Option<SyntaxTree>)
    ensures
        r matches Some(t) ==> t.wf(),
{
    let root = tree.root_node();
    let mut copy = TreeCopy { nodes: Vec::new(), parents: Vec::new(), ends: Vec::new(), open: Vec::new() };
    proof {
        assert(copy.open@.len() == 0);
    }
    copy.open_node(&root, None);
    let mut cursor = root.walk();
    // Each round copies one more node, so the count of rounds cannot run out
    // before memory does.
    let mut rounds: usize = 0;
    loop
        invariant
            copy.ok(),
            copy.open@.len() > 0,
        decreases usize::MAX - rounds,
    {
        if rounds == usize::MAX {
            return None;
        }
        rounds = rounds + 1;
        if cursor.goto_first_child() {
            let child = cursor.node();
            copy.open_node(&child, cursor.field_name());
        } else {
            loop
                invariant
                    copy.ok(),
                    copy.open@.len() > 0,
                decreases copy.open@.len(),
            {
                copy.close_node();
                if copy.open.len() == 0 {
                    let TreeCopy { nodes, parents, ends, open } = copy;
                    proof {
                        let n = nodes@.len() as int;
                        assert(open@.len() == 0);
                        assert forall|i: int| !open_at(open@, i) by {}
                        assert(copy_ok(parents@, ends@, open@, n));
                        assert(n > 0);
                        assert forall|j: int| 0 < j < n implies parent_ok(parents@, ends@, 0, j) by {
                            assert(link_ok(parents@, ends@, open@, j));
                        }
                        assert forall|i: int| 0 < i < n implies i < #[trigger] ends@[i] <= n by {
                            assert(!open_at(open@, i));
                            assert(closed_ok(ends@, open@, i, n));
                        }
                        assert forall|i: int, j: int|
                            #![trigger ends@[i], ends@[j]]
                            0 < i < n && i < j < ends@[i] implies ends@[j] <= ends@[i] by {
                            assert(!open_at(open@, i));
                            assert(closed_ok(ends@, open@, i, n));
                        }
                    }
                    return Some(SyntaxTree { nodes, parents, ends });
                }
                if cursor.goto_next_sibling() {
                    let sibling = cursor.node();
                    copy.open_node(&sibling, cursor.field_name());
                    break;
                }
                if !cursor.goto_parent() {
                    return None;
                }
            }
        }
    }
}

} // verus!
