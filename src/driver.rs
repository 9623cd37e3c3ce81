//! The composite validation driver: a filtered walk, every check on every
//! node, and the first violation that is not suppressed.
use vstd::prelude::*;

use crate::filter::{AndFilter, Filter};
use crate::filters::{default_filter, is_test_module, TestModuleFilter};
use crate::iter::{walk_of, NodeIterator};
use crate::model::{as_result, ValidationError, Validator};
use crate::rule::{code_name, RuleCode};
use crate::text::{lower_of, lowercase};
use crate::tree::SyntaxTree;
use crate::validators::{all_validators_spec, get_all_validators, RuleValidator};

verus! {

/// The violations that the first `k` checks of `vs` find at node `i`, in order.
pub open spec fn node_violations<V: Validator>(vs: Seq<V>, k: int, t: &SyntaxTree, i: int, src: Seq<char>) -> Seq<ValidationError>
    decreases k,
{
    if k <= 0 {
        Seq::empty()
    } else {
        let before = node_violations(vs, k - 1, t, i, src);
        match vs[k - 1].outcome(t, i, src) {
            Some(e) => before.push(e),
            None => before,
        }
    }
}

/// The violations that the checks `vs` find over the nodes `ns`, node by node
/// and, within a node, check by check.
pub open spec fn all_violations<V: Validator>(vs: Seq<V>, t: &SyntaxTree, ns: Seq<int>, src: Seq<char>) -> Seq<ValidationError>
    decreases ns.len(),
{
    if ns.len() == 0 {
        Seq::empty()
    } else {
        all_violations(vs, t, ns.drop_last(), src) + node_violations(vs, vs.len() as int, t, ns.last(), src)
    }
}

/// Whether the violations of `code` are suppressed by the lowercased names `supp`.
pub open spec fn is_suppressed(supp: Seq<Seq<char>>, code: RuleCode) -> bool {
    supp.contains(lower_of(code_name(code)))
}

/// The first of `es` whose rule is not suppressed.
pub open spec fn first_unsuppressed(es: Seq<ValidationError>, supp: Seq<Seq<char>>) -> Option<ValidationError>
    decreases es.len(),
{
    if es.len() == 0 {
        None
    } else {
        match first_unsuppressed(es.drop_last(), supp) {
            Some(e) => Some(e),
            None => if is_suppressed(supp, es.last().rule.code) {
                None
            } else {
                Some(es.last())
            },
        }
    }
}

/// Runs an ordered list of checks over the filtered pre-order walk of a tree
/// and reports the first violation whose rule is not suppressed.
///
/// A call reports at most one violation and stops there (fail-fast); every
/// violation that the checks find is described by `violations`.
pub struct AllRulesValidator<V: Validator, F: Filter> {
    validators: Vec<V>,
    suppressed_rules: Vec<String>,
    filter: F,
}

impl<V: Validator, F: Filter> AllRulesValidator<V, F> {
    /// The checks, in the order they run on each node.
    pub closed spec fn checks(&self) -> Seq<V> {
        self.validators@
    }

    /// The lowercased names of the suppressed rules.
    pub closed spec fn suppressed(&self) -> Seq<Seq<char>> {
        self.suppressed_rules@.map_values(|s: String| s@)
    }

    /// The filter that decides which subtrees are walked.
    pub closed spec fn subtree_filter(&self) -> &F {
        &self.filter
    }

    /// Every violation that the checks find over the walk of the subtree of `root`.
    pub open spec fn violations(&self, t: &SyntaxTree, root: int, src: Seq<char>) -> Seq<ValidationError> {
        all_violations(self.checks(), t, walk_of(self.subtree_filter(), t, src, root), src)
    }

    /// A driver with the given checks, suppressed rule names (in any letter case) and filter.
    pub fn with_validators(validators: Vec<V>, suppressed_rules: Vec<String>, filter: F) -> (r: Self)
        ensures
            r.checks() == validators@,
            r.subtree_filter() == &filter,
            r.suppressed() == suppressed_rules@.map_values(|s: String| lower_of(s@)),
    {
        let mut lowered: Vec<String> = Vec::new();
        let mut k: usize = 0;
        while k < suppressed_rules.len()
            invariant
                k <= suppressed_rules@.len(),
                lowered@.len() == k,
                forall|j: int| 0 <= j < k ==> #[trigger] lowered@[j]@ == lower_of(suppressed_rules@[j]@),
            decreases suppressed_rules@.len() - k,
        {
            let l = lowercase(suppressed_rules[k].as_str());
            lowered.push(l);
            k = k + 1;
        }
        proof {
            assert(lowered@.map_values(|s: String| s@) =~= suppressed_rules@.map_values(|s: String| lower_of(s@)));
        }
        AllRulesValidator { validators, suppressed_rules: lowered, filter }
    }

    /// Whether the violations of `code` are suppressed here.
    fn suppresses(&self, code: RuleCode) -> (r: bool)
        ensures
            r == is_suppressed(self.suppressed(), code),
    {
        let name = code.to_string();
        let lower = lowercase(name.as_str());
        let mut k: usize = 0;
        while k < self.suppressed_rules.len()
            invariant
                k <= self.suppressed_rules@.len(),
                lower@ == lower_of(code_name(code)),
                forall|j: int| 0 <= j < k ==> self.suppressed_rules@[j]@ != lower@,
            decreases self.suppressed_rules@.len() - k,
        {
            if self.suppressed_rules[k] == lower {
                proof {
                    assert(self.suppressed()[k as int] == lower@);
                }
                return true;
            }
            k = k + 1;
        }
        proof {
            if self.suppressed().contains(lower@) {
                let j = choose|j: int| 0 <= j < self.suppressed().len() && self.suppressed()[j] == lower@;
                assert(self.suppressed_rules@[j]@ == lower@);
            }
        }
        false
    }

    /// Walks the subtree of `root` and checks each node it keeps, in order,
    /// with each check in order; returns the first violation whose rule is not
    /// suppressed, or success when there is none.
    pub fn validate(&self, t: &SyntaxTree, root: usize, source: &str) -> (r: Result<(), ValidationError>)
        requires
            t.wf(),
            root < t.size(),
        ensures
            r == as_result(first_unsuppressed(self.violations(t, root as int, source@), self.suppressed())),
    {
        let mut it = NodeIterator::new(t, root, source, &self.filter);
        let ghost all = walk_of(&self.filter, t, source@, root as int);
        let ghost supp = self.suppressed();
        let ghost vs = self.validators@;
        let ghost mut done: Seq<int> = Seq::empty();
        loop
            invariant
                it.inv(),
                it.walked_tree() == t,
                t.wf(),
                supp == self.suppressed(),
                vs == self.validators@,
                all == walk_of(&self.filter, t, source@, root as int),
                done + it.remaining() == all,
                first_unsuppressed(all_violations(vs, t, done, source@), supp) is None,
            decreases it.remaining().len(),
        {
            let ghost before = it.remaining();
            match it.next() {
                None => {
                    proof {
                        assert(done =~= all);
                    }
                    return Ok(());
                },
                Some(j) => {
                    let ghost prior = all_violations(vs, t, done, source@);
                    let mut k: usize = 0;
                    while k < self.validators.len()
                        invariant
                            t.wf(),
                            j < t.size(),
                            k <= vs.len(),
                            vs == self.validators@,
                            supp == self.suppressed(),
                            first_unsuppressed(prior + node_violations(vs, k as int, t, j as int, source@), supp) is None,
                            prior == all_violations(vs, t, done, source@),
                            before.len() > 0,
                            j as int == before[0],
                            it.remaining() == before.drop_first(),
                            done + before == all,
                            all == walk_of(&self.filter, t, source@, root as int),
                        decreases vs.len() - k,
                    {
                        let ghost es = prior + node_violations(vs, k as int, t, j as int, source@);
                        match self.validators[k].validate(t, j, source) {
                            Ok(()) => {},
                            Err(err) => {
                                proof {
                                    assert(es.push(err) =~= prior + node_violations(vs, k + 1, t, j as int, source@));
                                    assert(es.push(err).drop_last() =~= es);
                                }
                                if !self.suppresses(err.rule.code) {
                                    proof {
                                        assert(first_unsuppressed(es.push(err), supp) == Some(err));
                                        let done2 = done.push(j as int);
                                        let rest = it.remaining();
                                        assert(before =~= seq![j as int] + rest);
                                        assert(all =~= done2 + rest);
                                        lemma_node_violations_prefix(vs, k as int + 1, vs.len() as int, t, j as int, source@);
                                        let tail = node_violations(vs, vs.len() as int, t, j as int, source@).subrange(
                                            node_violations(vs, k + 1, t, j as int, source@).len() as int,
                                            node_violations(vs, vs.len() as int, t, j as int, source@).len() as int,
                                        );
                                        assert(done2.drop_last() =~= done);
                                        assert(all_violations(vs, t, done2, source@) =~= (prior + node_violations(vs, k + 1, t, j as int, source@)) + tail);
                                        lemma_first_unsuppressed_prefix(prior + node_violations(vs, k + 1, t, j as int, source@), tail, supp);
                                        lemma_all_violations_append(vs, t, done2, rest, source@);
                                        lemma_first_unsuppressed_prefix(all_violations(vs, t, done2, source@), all_violations(vs, t, rest, source@), supp);
                                    }
                                    return Err(err);
                                }
                            },
                        }
                        k = k + 1;
                    }
                    proof {
                        assert(done.push(j as int).drop_last() =~= done);
                        assert(before =~= seq![j as int] + it.remaining());
                        assert(done.push(j as int) + it.remaining() =~= done + before);
                        done = done.push(j as int);
                    }
                },
            }
        }
    }
}

impl<F: Filter> AllRulesValidator<RuleValidator, F> {
    /// A driver with every built-in check, the given suppressed rule names (in
    /// any letter case) and the given filter.
    pub fn new(suppressed_rules: Vec<String>, filter: F) -> (r: Self)
        ensures
            r.checks() == all_validators_spec(),
            r.subtree_filter() == &filter,
            r.suppressed() == suppressed_rules@.map_values(|s: String| lower_of(s@)),
    {
        Self::with_validators(get_all_validators(), suppressed_rules, filter)
    }
}

impl Default for AllRulesValidator<RuleValidator, AndFilter<TestModuleFilter>> {
    /// Every built-in check, nothing suppressed, and the default filter.
    fn default() -> (r: Self)
        ensures
            r.checks() == all_validators_spec(),
            r.suppressed() == Seq::<Seq<char>>::empty(),
            forall|t: &SyntaxTree, i: int, src: Seq<char>|
                r.subtree_filter().keeps(t, i, src) <==> !is_test_module(t, i, src),
    {
        let r = Self::new(Vec::new(), default_filter());
        proof {
            assert(r.suppressed() =~= Seq::<Seq<char>>::empty());
        }
        r
    }
}

/// The violations of the first `k` checks start those of the first `m`.
proof fn lemma_node_violations_prefix<V: Validator>(vs: Seq<V>, k: int, m: int, t: &SyntaxTree, i: int, src: Seq<char>)
    requires
        0 <= k <= m,
    ensures
        node_violations(vs, k, t, i, src).len() <= node_violations(vs, m, t, i, src).len(),
        node_violations(vs, m, t, i, src) =~= node_violations(vs, k, t, i, src) + node_violations(vs, m, t, i, src).subrange(
            node_violations(vs, k, t, i, src).len() as int,
            node_violations(vs, m, t, i, src).len() as int,
        ),
    decreases m - k,
{
    if k < m {
        lemma_node_violations_prefix(vs, k, m - 1, t, i, src);
    }
}

/// The violations over two runs of nodes are those of the first run, then those of the second.
pub proof fn lemma_all_violations_append<V: Validator>(vs: Seq<V>, t: &SyntaxTree, a: Seq<int>, b: Seq<int>, src: Seq<char>)
    ensures
        all_violations(vs, t, a + b, src) == all_violations(vs, t, a, src) + all_violations(vs, t, b, src),
    decreases b.len(),
{
    if b.len() == 0 {
        assert(a + b =~= a);
        assert(all_violations(vs, t, a, src) + Seq::empty() =~= all_violations(vs, t, a, src));
    } else {
        assert((a + b).drop_last() =~= a + b.drop_last());
        lemma_all_violations_append(vs, t, a, b.drop_last(), src);
        assert((a + b).last() == b.last());
    }
}

/// Once a run of violations holds one that is not suppressed, what follows it changes nothing.
pub proof fn lemma_first_unsuppressed_prefix(a: Seq<ValidationError>, b: Seq<ValidationError>, supp: Seq<Seq<char>>)
    requires
        first_unsuppressed(a, supp) is Some,
    ensures
        first_unsuppressed(a + b, supp) == first_unsuppressed(a, supp),
    decreases b.len(),
{
    if b.len() == 0 {
        assert(a + b =~= a);
    } else {
        lemma_first_unsuppressed_prefix(a, b.drop_last(), supp);
        assert((a + b).drop_last() =~= a + b.drop_last());
    }
}

/// There is no violation to report exactly when every violation found is suppressed.
pub proof fn lemma_first_unsuppressed_none(es: Seq<ValidationError>, supp: Seq<Seq<char>>)
    ensures
        first_unsuppressed(es, supp) is None <==> forall|k: int|
            0 <= k < es.len() ==> is_suppressed(supp, #[trigger] es[k].rule.code),
    decreases es.len(),
{
    if es.len() > 0 {
        lemma_first_unsuppressed_none(es.drop_last(), supp);
        if first_unsuppressed(es, supp) is None {
            assert forall|k: int| 0 <= k < es.len() implies is_suppressed(supp, #[trigger] es[k].rule.code) by {
                if k < es.len() - 1 {
                    assert(es.drop_last()[k] == es[k]);
                }
            }
        } else {
            if first_unsuppressed(es.drop_last(), supp) is Some {
                let k = choose|k: int|
                    0 <= k < es.drop_last().len() && !is_suppressed(supp, #[trigger] es.drop_last()[k].rule.code);
                assert(es[k] == es.drop_last()[k]);
            } else {
                assert(!is_suppressed(supp, es[es.len() - 1].rule.code));
            }
        }
    }
}

/// A reported violation is never one whose rule is suppressed.
pub proof fn lemma_first_unsuppressed_some(es: Seq<ValidationError>, supp: Seq<Seq<char>>)
    ensures
        first_unsuppressed(es, supp) matches Some(e) ==> !is_suppressed(supp, e.rule.code) && es.contains(e),
    decreases es.len(),
{
    if es.len() > 0 {
        lemma_first_unsuppressed_some(es.drop_last(), supp);
        if let Some(e) = first_unsuppressed(es.drop_last(), supp) {
            let k = choose|k: int| 0 <= k < es.drop_last().len() && es.drop_last()[k] == e;
            assert(es[k] == e);
        } else {
            assert(es[es.len() - 1] == es.last());
        }
    }
}

/// The driver succeeds exactly when every violation that any check finds on
/// any walked node is suppressed (so also when no check finds any).
pub proof fn lemma_success_iff_all_suppressed<V: Validator, F: Filter>(
    d: &AllRulesValidator<V, F>,
    t: &SyntaxTree,
    root: int,
    src: Seq<char>,
)
    ensures
        first_unsuppressed(d.violations(t, root, src), d.suppressed()) is None <==> forall|k: int|
            0 <= k < d.violations(t, root, src).len() ==> is_suppressed(
                d.suppressed(),
                #[trigger] d.violations(t, root, src)[k].rule.code,
            ),
{
    lemma_first_unsuppressed_none(d.violations(t, root, src), d.suppressed());
}

/// Suppression ignores letter case: naming a rule code in any case whose
/// lowercase form is that of the code's name suppresses that rule, so the
/// driver never reports it; and two lists of names that agree once lowercased
/// give drivers that report alike.
pub proof fn lemma_suppression_case_insensitive<V: Validator, F: Filter>(
    d: &AllRulesValidator<V, F>,
    names: Seq<String>,
    s: String,
    code: RuleCode,
    t: &SyntaxTree,
    root: int,
    src: Seq<char>,
)
    requires
        d.suppressed() == names.map_values(|x: String| lower_of(x@)),
        names.contains(s),
        lower_of(s@) == lower_of(code_name(code)),
    ensures
        is_suppressed(d.suppressed(), code),
        first_unsuppressed(d.violations(t, root, src), d.suppressed()) matches Some(e) ==> e.rule.code != code,
        forall|other: Seq<String>|
            other.len() == names.len() && (forall|k: int|
                0 <= k < names.len() ==> lower_of(#[trigger] other[k]@) == lower_of(names[k]@)) ==> other.map_values(
                |x: String| lower_of(x@),
            ) == d.suppressed(),
{
    let k = choose|k: int| 0 <= k < names.len() && names[k] == s;
    assert(d.suppressed()[k] == lower_of(code_name(code)));
    lemma_first_unsuppressed_some(d.violations(t, root, src), d.suppressed());
    assert forall|other: Seq<String>|
        other.len() == names.len() && (forall|k: int|
            0 <= k < names.len() ==> lower_of(#[trigger] other[k]@) == lower_of(names[k]@)) implies other.map_values(
        |x: String| lower_of(x@),
    ) == d.suppressed() by {
        assert(other.map_values(|x: String| lower_of(x@)) =~= names.map_values(|x: String| lower_of(x@)));
    }
}

/// A violation is among those of the first `k` checks at node `i` exactly when
/// one of those checks reports it there.
pub proof fn lemma_node_violations_members<V: Validator>(
    vs: Seq<V>,
    k: int,
    t: &SyntaxTree,
    i: int,
    src: Seq<char>,
)
    ensures
        forall|e: ValidationError|
            #[trigger] node_violations(vs, k, t, i, src).contains(e) <==> exists|c: int|
                0 <= c < k && vs[c].outcome(t, i, src) == Some(e),
    decreases k,
{
    if k > 0 {
        lemma_node_violations_members(vs, k - 1, t, i, src);
        let before = node_violations(vs, k - 1, t, i, src);
        assert forall|e: ValidationError|
            #[trigger] node_violations(vs, k, t, i, src).contains(e) <==> exists|c: int|
                0 <= c < k && vs[c].outcome(t, i, src) == Some(e) by {
            let now = node_violations(vs, k, t, i, src);
            if now.contains(e) {
                let w = choose|w: int| 0 <= w < now.len() && now[w] == e;
                if w < before.len() {
                    assert(now[w] == before[w]);
                    assert(before.contains(e));
                } else {
                    assert(vs[k - 1].outcome(t, i, src) == Some(e));
                }
            }
            if exists|c: int| 0 <= c < k && vs[c].outcome(t, i, src) == Some(e) {
                let c = choose|c: int| 0 <= c < k && vs[c].outcome(t, i, src) == Some(e);
                if c < k - 1 {
                    assert(before.contains(e));
                    let w = choose|w: int| 0 <= w < before.len() && before[w] == e;
                    assert(now[w] == e);
                } else {
                    assert(now[now.len() - 1] == e);
                }
            }
        }
    }
}

/// A violation is found over the nodes `ns` exactly when some check reports it
/// at some node of `ns`.
pub proof fn lemma_all_violations_members<V: Validator>(vs: Seq<V>, t: &SyntaxTree, ns: Seq<int>, src: Seq<char>)
    ensures
        forall|e: ValidationError|
            #[trigger] all_violations(vs, t, ns, src).contains(e) <==> exists|m: int, c: int|
                0 <= m < ns.len() && 0 <= c < vs.len() && vs[c].outcome(t, ns[m], src) == Some(e),
    decreases ns.len(),
{
    if ns.len() > 0 {
        let rest = ns.drop_last();
        lemma_all_violations_members(vs, t, rest, src);
        lemma_node_violations_members(vs, vs.len() as int, t, ns.last(), src);
        let a = all_violations(vs, t, rest, src);
        let b = node_violations(vs, vs.len() as int, t, ns.last(), src);
        assert forall|e: ValidationError|
            #[trigger] all_violations(vs, t, ns, src).contains(e) <==> exists|m: int, c: int|
                0 <= m < ns.len() && 0 <= c < vs.len() && vs[c].outcome(t, ns[m], src) == Some(e) by {
            let all = a + b;
            if all.contains(e) {
                let w = choose|w: int| 0 <= w < all.len() && all[w] == e;
                if w < a.len() {
                    assert(a[w] == e);
                    assert(a.contains(e));
                    let (m, c) = choose|m: int, c: int|
                        0 <= m < rest.len() && 0 <= c < vs.len() && vs[c].outcome(t, rest[m], src) == Some(e);
                    assert(ns[m] == rest[m]);
                } else {
                    assert(b[w - a.len()] == e);
                    assert(b.contains(e));
                    let c = choose|c: int| 0 <= c < vs.len() && vs[c].outcome(t, ns.last(), src) == Some(e);
                    assert(vs[c].outcome(t, ns[ns.len() - 1], src) == Some(e));
                }
            }
            if exists|m: int, c: int|
                0 <= m < ns.len() && 0 <= c < vs.len() && vs[c].outcome(t, ns[m], src) == Some(e) {
                let (m, c) = choose|m: int, c: int|
                    0 <= m < ns.len() && 0 <= c < vs.len() && vs[c].outcome(t, ns[m], src) == Some(e);
                if m < ns.len() - 1 {
                    assert(rest[m] == ns[m]);
                    assert(a.contains(e));
                    let w = choose|w: int| 0 <= w < a.len() && a[w] == e;
                    assert(all[w] == e);
                } else {
                    assert(b.contains(e));
                    let w = choose|w: int| 0 <= w < b.len() && b[w] == e;
                    assert(all[a.len() + w] == e);
                }
            }
        }
    }
}

/// The outcome of check `c` at node `n` is harmless: no violation, or a suppressed one.
pub open spec fn passes<V: Validator>(v: V, t: &SyntaxTree, n: int, src: Seq<char>, supp: Seq<Seq<char>>) -> bool {
    match v.outcome(t, n, src) {
        Some(e) => is_suppressed(supp, e.rule.code),
        None => true,
    }
}

/// The driver succeeds exactly when, for every walked node and every check,
/// the check finds nothing there or finds a violation whose rule is suppressed.
pub proof fn lemma_success_iff_each_check_passes<V: Validator, F: Filter>(
    d: &AllRulesValidator<V, F>,
    t: &SyntaxTree,
    root: int,
    src: Seq<char>,
)
    ensures
        first_unsuppressed(d.violations(t, root, src), d.suppressed()) is None <==> forall|m: int, c: int|
            0 <= m < walk_of(d.subtree_filter(), t, src, root).len() && 0 <= c < d.checks().len() ==> passes(
                #[trigger] d.checks()[c],
                t,
                #[trigger] walk_of(d.subtree_filter(), t, src, root)[m],
                src,
                d.suppressed(),
            ),
{
    let ns = walk_of(d.subtree_filter(), t, src, root);
    let vs = d.checks();
    let es = d.violations(t, root, src);
    let supp = d.suppressed();
    lemma_first_unsuppressed_none(es, supp);
    lemma_all_violations_members(vs, t, ns, src);
    if first_unsuppressed(es, supp) is None {
        assert forall|m: int, c: int| 0 <= m < ns.len() && 0 <= c < vs.len() implies passes(
            #[trigger] vs[c],
            t,
            #[trigger] ns[m],
            src,
            supp,
        ) by {
            if let Some(e) = vs[c].outcome(t, ns[m], src) {
                assert(es.contains(e));
                let w = choose|w: int| 0 <= w < es.len() && es[w] == e;
                assert(is_suppressed(supp, es[w].rule.code));
            }
        }
    } else {
        let w = choose|w: int| 0 <= w < es.len() && !is_suppressed(supp, #[trigger] es[w].rule.code);
        assert(es.contains(es[w]));
        let (m, c) = choose|m: int, c: int|
            0 <= m < ns.len() && 0 <= c < vs.len() && vs[c].outcome(t, ns[m], src) == Some(es[w]);
        assert(!passes(vs[c], t, ns[m], src, supp));
    }
}

} // verus!
