//! Laws of the evaluation order: the structural checks decide one outcome,
//! so `hierarchy_order` and `validate_hierarchy` report the same error, and
//! the order starts with the roots in declaration order.
use vstd::prelude::*;

use crate::hierarchy::{
    acyclic, ancestor_at, bfs_order, cycle_report, level, levels_upto, parent_fault, parents_resolve, reaches_root,
    repeats_earlier, roots_upto, self_parent, topology_outcome, unique_ids, HierarchyErrorView,
};

verus! {

/// A cycle report is determined by its starting node: the walk stops at the
/// first ancestor that is missing or repeats.
proof fn lemma_cycle_report_unique(
    ids: Seq<Seq<char>>,
    par: Seq<Option<Seq<char>>>,
    start: int,
    p1: Seq<char>,
    p2: Seq<char>,
)
    requires
        cycle_report(ids, par, start, p1),
        cycle_report(ids, par, start, p2),
    ensures
        p1 == p2,
{
    let m1 = choose|m: nat|
        {
            &&& m >= 1
            &&& forall|k: nat| k < m ==> (#[trigger] ancestor_at(ids, par, start, k)) is Some
            &&& forall|a: nat, b: nat|
                a < b < m ==> #[trigger] ancestor_at(ids, par, start, a) != #[trigger] ancestor_at(ids, par, start, b)
            &&& {
                ||| (ancestor_at(ids, par, start, m) is None && p1 == crate::hierarchy::join_arrows(
                    crate::hierarchy::walk_names(ids, par, start, m).reverse(),
                ))
                ||| (ancestor_at(ids, par, start, m) is Some && (exists|a: nat|
                    a < m && ancestor_at(ids, par, start, a) == ancestor_at(ids, par, start, m)) && p1
                    == crate::hierarchy::join_arrows(crate::hierarchy::walk_names(ids, par, start, m + 1).reverse()))
            }
        };
    let m2 = choose|m: nat|
        {
            &&& m >= 1
            &&& forall|k: nat| k < m ==> (#[trigger] ancestor_at(ids, par, start, k)) is Some
            &&& forall|a: nat, b: nat|
                a < b < m ==> #[trigger] ancestor_at(ids, par, start, a) != #[trigger] ancestor_at(ids, par, start, b)
            &&& {
                ||| (ancestor_at(ids, par, start, m) is None && p2 == crate::hierarchy::join_arrows(
                    crate::hierarchy::walk_names(ids, par, start, m).reverse(),
                ))
                ||| (ancestor_at(ids, par, start, m) is Some && (exists|a: nat|
                    a < m && ancestor_at(ids, par, start, a) == ancestor_at(ids, par, start, m)) && p2
                    == crate::hierarchy::join_arrows(crate::hierarchy::walk_names(ids, par, start, m + 1).reverse()))
            }
        };
    lemma_stop_point_unique(ids, par, start, m1, m2);
    lemma_stop_point_unique(ids, par, start, m2, m1);
}

/// Two stopping points of the same walk coincide (one direction).
proof fn lemma_stop_point_unique(ids: Seq<Seq<char>>, par: Seq<Option<Seq<char>>>, start: int, m1: nat, m2: nat)
    requires
        forall|k: nat| k < m2 ==> (#[trigger] ancestor_at(ids, par, start, k)) is Some,
        forall|a: nat, b: nat|
            a < b < m2 ==> #[trigger] ancestor_at(ids, par, start, a) != #[trigger] ancestor_at(ids, par, start, b),
        ancestor_at(ids, par, start, m1) is None || (exists|a: nat|
            a < m1 && ancestor_at(ids, par, start, a) == ancestor_at(ids, par, start, m1)),
    ensures
        m2 <= m1,
{
    if m1 < m2 {
        assert(ancestor_at(ids, par, start, m1) is Some);
        let a = choose|a: nat| a < m1 && ancestor_at(ids, par, start, a) == ancestor_at(ids, par, start, m1);
        assert(ancestor_at(ids, par, start, a) != ancestor_at(ids, par, start, m1));
    }
}

/// The structural checks decide one outcome: two results that both follow
/// the rules of `topology_outcome` are equal. So `hierarchy_order` fails
/// exactly when `validate_hierarchy` does, with the same error, and on
/// success returns the evaluation order `bfs_order`.
pub proof fn law_topology_outcome_is_determined(
    ids: Seq<Seq<char>>,
    par: Seq<Option<Seq<char>>>,
    r1: Result<Seq<int>, HierarchyErrorView>,
    r2: Result<Seq<int>, HierarchyErrorView>,
)
    requires
        topology_outcome(ids, par, r1),
        topology_outcome(ids, par, r2),
    ensures
        r1 == r2,
{
    if !unique_ids(ids) {
        let j1 = choose|j: int|
            0 <= j < ids.len() && #[trigger] repeats_earlier(ids, j) && (forall|t: int|
                0 <= t < j ==> !repeats_earlier(ids, t)) && r1 == Err::<Seq<int>, HierarchyErrorView>(
                HierarchyErrorView::DuplicateNodeId(ids[j]),
            );
        let j2 = choose|j: int|
            0 <= j < ids.len() && #[trigger] repeats_earlier(ids, j) && (forall|t: int|
                0 <= t < j ==> !repeats_earlier(ids, t)) && r2 == Err::<Seq<int>, HierarchyErrorView>(
                HierarchyErrorView::DuplicateNodeId(ids[j]),
            );
        assert(j1 == j2) by {
            if j1 < j2 {
                assert(!repeats_earlier(ids, j1));
            } else if j2 < j1 {
                assert(!repeats_earlier(ids, j2));
            }
        }
    } else if !parents_resolve(ids, par) {
        let i1 = choose|i: int|
            0 <= i < ids.len() && #[trigger] parent_fault(ids, par, i) && (forall|t: int|
                0 <= t < i ==> !parent_fault(ids, par, t)) && r1 == (if self_parent(ids, par, i) {
                Err::<Seq<int>, HierarchyErrorView>(HierarchyErrorView::SelfParent { node: ids[i] })
            } else {
                Err::<Seq<int>, HierarchyErrorView>(
                    HierarchyErrorView::UnknownParent { node: ids[i], parent: par[i]->0 },
                )
            });
        let i2 = choose|i: int|
            0 <= i < ids.len() && #[trigger] parent_fault(ids, par, i) && (forall|t: int|
                0 <= t < i ==> !parent_fault(ids, par, t)) && r2 == (if self_parent(ids, par, i) {
                Err::<Seq<int>, HierarchyErrorView>(HierarchyErrorView::SelfParent { node: ids[i] })
            } else {
                Err::<Seq<int>, HierarchyErrorView>(
                    HierarchyErrorView::UnknownParent { node: ids[i], parent: par[i]->0 },
                )
            });
        assert(i1 == i2) by {
            if i1 < i2 {
                assert(!parent_fault(ids, par, i1));
            } else if i2 < i1 {
                assert(!parent_fault(ids, par, i2));
            }
        }
    } else if !acyclic(ids, par) {
        let s1 = choose|start: int|
            0 <= start < ids.len() && !#[trigger] reaches_root(ids, par, start) && (forall|t: int|
                0 <= t < start ==> reaches_root(ids, par, t)) && r1 is Err && r1->Err_0 is Cycle && cycle_report(
                ids,
                par,
                start,
                r1->Err_0->path,
            );
        let s2 = choose|start: int|
            0 <= start < ids.len() && !#[trigger] reaches_root(ids, par, start) && (forall|t: int|
                0 <= t < start ==> reaches_root(ids, par, t)) && r2 is Err && r2->Err_0 is Cycle && cycle_report(
                ids,
                par,
                start,
                r2->Err_0->path,
            );
        assert(s1 == s2) by {
            if s1 < s2 {
                assert(reaches_root(ids, par, s1));
            } else if s2 < s1 {
                assert(reaches_root(ids, par, s2));
            }
        }
        lemma_cycle_report_unique(ids, par, s1, r1->Err_0->path, r2->Err_0->path);
    }
}

/// The first `d` levels start with level 0, when `d >= 1`.
proof fn lemma_levels_start_with_roots(ids: Seq<Seq<char>>, par: Seq<Option<Seq<char>>>, d: nat)
    requires
        d >= 1,
    ensures
        levels_upto(ids, par, d).len() >= level(ids, par, 0).len(),
        levels_upto(ids, par, d).take(level(ids, par, 0).len() as int) == level(ids, par, 0),
    decreases d,
{
    let l0 = level(ids, par, 0);
    if d == 1 {
        assert(levels_upto(ids, par, 0) =~= Seq::<int>::empty());
        assert(levels_upto(ids, par, 1) =~= l0);
        assert(l0.take(l0.len() as int) =~= l0);
    } else {
        lemma_levels_start_with_roots(ids, par, (d - 1) as nat);
        let prev = levels_upto(ids, par, (d - 1) as nat);
        let cur = levels_upto(ids, par, d);
        assert(cur == prev + level(ids, par, (d - 1) as nat));
        assert(cur.take(l0.len() as int) =~= prev.take(l0.len() as int));
    }
}

/// The parentless positions below `k` are listed in increasing order, each
/// once.
proof fn lemma_roots_upto_facts(par: Seq<Option<Seq<char>>>, k: int)
    requires
        0 <= k <= par.len(),
    ensures
        forall|i: int| 0 <= i < k && par[i] is None <==> roots_upto(par, k).contains(i),
        forall|a: int, b: int|
            0 <= a < b < roots_upto(par, k).len() ==> roots_upto(par, k)[a] < roots_upto(par, k)[b],
        forall|a: int| 0 <= a < roots_upto(par, k).len() ==> 0 <= #[trigger] roots_upto(par, k)[a] < k,
    decreases k,
{
    if k > 0 {
        lemma_roots_upto_facts(par, k - 1);
        let prev = roots_upto(par, k - 1);
        let cur = roots_upto(par, k);
        assert forall|i: int| 0 <= i < k && par[i] is None <==> cur.contains(i) by {
            if 0 <= i < k && par[i] is None {
                if i < k - 1 {
                    assert(0 <= i < k - 1 && par[i] is None);
                    assert(prev.contains(i));
                    let j = choose|j: int| 0 <= j < prev.len() && prev[j] == i;
                    assert(cur[j] == i);
                } else {
                    assert(cur[cur.len() - 1] == i);
                }
            }
            if cur.contains(i) {
                let j = choose|j: int| 0 <= j < cur.len() && cur[j] == i;
                if j < prev.len() {
                    assert(prev.contains(i));
                }
            }
        }
    }
}

/// The evaluation order starts with the roots (the nodes without a parent),
/// in declaration order.
pub proof fn law_roots_come_first(ids: Seq<Seq<char>>, par: Seq<Option<Seq<char>>>)
    requires
        ids.len() == par.len(),
        ids.len() >= 1,
    ensures
        ({
            let roots = roots_upto(par, par.len() as int);
            &&& bfs_order(ids, par).len() >= roots.len()
            &&& bfs_order(ids, par).take(roots.len() as int) == roots
            &&& forall|i: int| 0 <= i < par.len() && par[i] is None <==> roots.contains(i)
            &&& forall|a: int, b: int| 0 <= a < b < roots.len() ==> roots[a] < roots[b]
        }),
{
    lemma_levels_start_with_roots(ids, par, ids.len() as nat);
    lemma_roots_upto_facts(par, par.len() as int);
}

} // verus!
