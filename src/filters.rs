//! The filter that leaves out test-only modules.
use vstd::prelude::*;

use crate::filter::{AndFilter, Filter};
use crate::grammar::{ARGUMENTS, ATTRIBUTE_ITEM, IDENTIFIER, META_ITEM, MOD_ITEM};
use crate::text::{lower_of, node_lowercase_eq, node_text, same_text};
use crate::tree::{SyntaxNode, SyntaxTree};

verus! {

/// The named children of `a` that come before node `hi`, in order.
pub open spec fn named_children_before(t: &SyntaxTree, a: int, hi: int) -> Seq<int>
    decreases hi - a,
{
    if hi <= a + 1 {
        Seq::empty()
    } else {
        let s = named_children_before(t, a, hi - 1);
        if t.parents@[hi - 1] == Some(a as usize) && t.nodes@[hi - 1].named {
            s.push(hi - 1)
        } else {
            s
        }
    }
}

/// The node stands under the field `name` of its parent.
pub open spec fn has_field(n: SyntaxNode, name: Seq<char>) -> bool {
    match n.field {
        Some(f) => f@ == name,
        None => false,
    }
}

/// The children of `a` before node `hi` that stand under the field `name`, in order.
pub open spec fn field_children_before(t: &SyntaxTree, a: int, hi: int, name: Seq<char>) -> Seq<int>
    decreases hi - a,
{
    if hi <= a + 1 {
        Seq::empty()
    } else {
        let s = field_children_before(t, a, hi - 1, name);
        if t.parents@[hi - 1] == Some(a as usize) && has_field(t.nodes@[hi - 1], name) {
            s.push(hi - 1)
        } else {
            s
        }
    }
}

/// The `k`-th named child of `a`.
pub open spec fn named_child(t: &SyntaxTree, a: int, k: int) -> Option<int> {
    let s = named_children_before(t, a, t.end(a));
    if 0 <= k < s.len() {
        Some(s[k])
    } else {
        None
    }
}

/// The nearest named sibling before `i`.
pub open spec fn prev_named_sibling(t: &SyntaxTree, i: int) -> Option<int> {
    match t.parents@[i] {
        Some(p) => {
            let s = named_children_before(t, p as int, i);
            if s.len() == 0 {
                None
            } else {
                Some(s.last())
            }
        },
        None => None,
    }
}

/// The first child of `a` under the field `name`.
pub open spec fn child_by_field_name(t: &SyntaxTree, a: int, name: Seq<char>) -> Option<int> {
    let s = field_children_before(t, a, t.end(a), name);
    if s.len() == 0 {
        None
    } else {
        Some(s[0])
    }
}

/// Node `c` is an identifier whose lowercase text is `word`.
pub open spec fn is_word(t: &SyntaxTree, c: int, src: Seq<char>, word: Seq<char>) -> bool {
    match node_text(IDENTIFIER@, t, c, src) {
        Some(x) => lower_of(x) == word,
        None => false,
    }
}

/// The first named child of `a` is the word `word`.
pub open spec fn first_child_is_word(t: &SyntaxTree, a: int, src: Seq<char>, word: Seq<char>) -> bool {
    match named_child(t, a, 0) {
        Some(c) => is_word(t, c, src, word),
        None => false,
    }
}

/// One of the named children of node `args` is a `meta_item` whose first
/// named child is the word `test`.
pub open spec fn lists_test(t: &SyntaxTree, args: int, src: Seq<char>) -> bool {
    let items = named_children_before(t, args, t.end(args));
    exists|k: int| 0 <= k < items.len() && #[trigger] is_test_item(t, items[k], src)
}

/// Node `item` is a `meta_item` whose first named child is the word `test`.
pub open spec fn is_test_item(t: &SyntaxTree, item: int, src: Seq<char>) -> bool {
    t.nodes@[item].kind@ == META_ITEM@ && first_child_is_word(t, item, src, "test"@)
}

/// Node `m`, an attribute's content, reads `cfg(..., test, ...)`: its first
/// named child is the word `cfg` and one of its arguments is `test`.
pub open spec fn is_cfg_test(t: &SyntaxTree, m: int, src: Seq<char>) -> bool {
    &&& t.nodes@[m].kind@ == META_ITEM@
    &&& first_child_is_word(t, m, src, "cfg"@)
    &&& match child_by_field_name(t, m, ARGUMENTS@) {
        Some(args) => lists_test(t, args, src),
        None => false,
    }
}

/// Node `i` is a module right after an attribute `#[cfg(..., test, ...)]`.
pub open spec fn is_test_module(t: &SyntaxTree, i: int, src: Seq<char>) -> bool {
    &&& t.nodes@[i].kind@ == MOD_ITEM@
    &&& match prev_named_sibling(t, i) {
        Some(attr) => t.nodes@[attr].kind@ == ATTRIBUTE_ITEM@ && match named_child(t, attr, 0) {
            Some(m) => is_cfg_test(t, m, src),
            None => false,
        },
        None => false,
    }
}

/// The nodes are in the tree.
pub open spec fn all_in_tree(t: &SyntaxTree, s: Seq<int>) -> bool {
    forall|k: int| 0 <= k < s.len() ==> 0 <= #[trigger] s[k] < t.size()
}

/// The named children of `a` before node `hi`.
fn named_children_upto(t: &SyntaxTree, a: usize, hi: usize) -> (r: Vec<usize>)
    requires
        t.wf(),
        a < hi <= t.size(),
    ensures
        r@.map_values(|q: usize| q as int) == named_children_before(t, a as int, hi as int),
        all_in_tree(t, named_children_before(t, a as int, hi as int)),
{
    let mut out: Vec<usize> = Vec::new();
    let mut q: usize = a + 1;
    while q < hi
        invariant
            t.wf(),
            a < q <= hi <= t.size(),
            out@.map_values(|q: usize| q as int) == named_children_before(t, a as int, q as int),
            all_in_tree(t, named_children_before(t, a as int, q as int)),
        decreases hi - q,
    {
        let ghost before = out@;
        if t.parent(q) == Some(a) && t.node(q).named {
            out.push(q);
            proof {
                assert(out@.map_values(|q: usize| q as int) =~= before.map_values(|q: usize| q as int).push(q as int));
            }
        }
        q = q + 1;
    }
    out
}

/// The first child of `a` under the field `name`.
fn child_with_field(t: &SyntaxTree, a: usize, name: &str) -> (r: Option<usize>)
    requires
        t.wf(),
        a < t.size(),
    ensures
        r matches Some(c) ==> c < t.size() && child_by_field_name(t, a as int, name@) == Some(c as int),
        r is None ==> child_by_field_name(t, a as int, name@) is None,
{
    let hi = t.subtree_end(a);
    let mut q: usize = a + 1;
    while q < hi
        invariant
            t.wf(),
            a < q <= hi <= t.size(),
            hi == t.end(a as int),
            field_children_before(t, a as int, q as int, name@).len() == 0,
        decreases hi - q,
    {
        let node = t.node(q);
        if t.parent(q) == Some(a) {
            match node.field {
                Some(f) => {
                    if same_text(f, name) {
                        proof {
                            lemma_field_children_start(t, a as int, q as int + 1, t.end(a as int), name@);
                        }
                        return Some(q);
                    }
                },
                None => {},
            }
        }
        q = q + 1;
    }
    None
}

/// Once the children under a field before `lo` are found, later ones only follow them.
proof fn lemma_field_children_start(t: &SyntaxTree, a: int, lo: int, hi: int, name: Seq<char>)
    requires
        a < lo <= hi,
        field_children_before(t, a, lo, name).len() > 0,
    ensures
        field_children_before(t, a, hi, name).len() > 0,
        field_children_before(t, a, hi, name)[0] == field_children_before(t, a, lo, name)[0],
    decreases hi - lo,
{
    if lo < hi {
        lemma_field_children_start(t, a, lo, hi - 1, name);
    }
}

/// Leaves out every module that carries an attribute `#[cfg(..., test, ...)]`
/// (compared in any letter case), and with it the module's whole content.
pub struct TestModuleFilter;

impl Filter for TestModuleFilter {
    open spec fn keeps(&self, t: &SyntaxTree, i: int, source: Seq<char>) -> bool {
        !is_test_module(t, i, source)
    }

    fn filter(&self, t: &SyntaxTree, i: usize, source: &str) -> (r: bool) {
        if !same_text(t.node(i).kind, MOD_ITEM) {
            return true;
        }
        let parent = match t.parent(i) {
            Some(p) => p,
            None => {
                return true;
            },
        };
        // The attribute is the nearest named sibling before the module.
        let before = named_children_upto(t, parent, i);
        if before.len() == 0 {
            return true;
        }
        let attr = before[before.len() - 1];
        proof {
            assert(before@.map_values(|q: usize| q as int)[before@.len() - 1] == attr as int);
        }
        if !same_text(t.node(attr).kind, ATTRIBUTE_ITEM) {
            return true;
        }
        let attr_children = named_children_upto(t, attr, t.subtree_end(attr));
        if attr_children.len() == 0 {
            return true;
        }
        let meta_item = attr_children[0];
        proof {
            assert(attr_children@.map_values(|q: usize| q as int)[0] == meta_item as int);
        }
        if !same_text(t.node(meta_item).kind, META_ITEM) {
            return true;
        }
        let meta_children = named_children_upto(t, meta_item, t.subtree_end(meta_item));
        if meta_children.len() == 0 {
            return true;
        }
        proof {
            assert(meta_children@.map_values(|q: usize| q as int)[0] == meta_children@[0] as int);
        }
        if !node_lowercase_eq(IDENTIFIER, t, meta_children[0], source, "cfg") {
            return true;
        }
        let meta_arguments = match child_with_field(t, meta_item, ARGUMENTS) {
            Some(a) => a,
            None => {
                return true;
            },
        };
        proof {
            assert(is_test_module(t, i as int, source@) == lists_test(t, meta_arguments as int, source@));
        }
        !lists_test_word(t, meta_arguments, source)
    }
}

/// Whether one of the named children of `meta_arguments` is a `meta_item`
/// whose first named child is the word `test`.
fn lists_test_word(t: &SyntaxTree, meta_arguments: usize, source: &str) -> (r: bool)
    requires
        t.wf(),
        meta_arguments < t.size(),
    ensures
        r == lists_test(t, meta_arguments as int, source@),
{
    let items = named_children_upto(t, meta_arguments, t.subtree_end(meta_arguments));
    let ghost items_s = named_children_before(t, meta_arguments as int, t.end(meta_arguments as int));
    let mut k: usize = 0;
    while k < items.len()
        invariant
            t.wf(),
            meta_arguments < t.size(),
            items@.map_values(|q: usize| q as int) == items_s,
            items_s == named_children_before(t, meta_arguments as int, t.end(meta_arguments as int)),
            all_in_tree(t, items_s),
            k <= items@.len(),
            forall|j: int| 0 <= j < k ==> !#[trigger] is_test_item(t, items_s[j], source@),
        decreases items@.len() - k,
    {
        let item = items[k];
        proof {
            assert(items_s[k as int] == item as int);
        }
        if same_text(t.node(item).kind, META_ITEM) {
            let item_children = named_children_upto(t, item, t.subtree_end(item));
            if item_children.len() > 0 {
                proof {
                    assert(item_children@.map_values(|q: usize| q as int)[0] == item_children@[0] as int);
                }
                if node_lowercase_eq(IDENTIFIER, t, item_children[0], source, "test") {
                    proof {
                        assert(is_test_item(t, items_s[k as int], source@));
                    }
                    return true;
                }
            }
        }
        k = k + 1;
    }
    false
}

/// The filters that are active in normal operation.
pub fn get_all_filters() -> (r: Vec<TestModuleFilter>)
    ensures
        r@ == seq![TestModuleFilter],
{
    let r = vec![TestModuleFilter];
    proof {
        assert(r@ =~= seq![TestModuleFilter]);
    }
    r
}

/// The conjunction of every filter that is active in normal operation.
pub fn default_filter() -> (r: AndFilter<TestModuleFilter>)
    ensures
        r.filters@ == seq![TestModuleFilter],
        forall|t: &SyntaxTree, i: int, src: Seq<char>| r.keeps(t, i, src) <==> !is_test_module(t, i, src),
{
    let r = AndFilter::new(get_all_filters());
    proof {
        assert forall|t: &SyntaxTree, i: int, src: Seq<char>| r.keeps(t, i, src) <==> !is_test_module(t, i, src) by {
            assert(r.filters@[0].keeps(t, i, src) == !is_test_module(t, i, src));
        }
    }
    r
}

} // verus!
