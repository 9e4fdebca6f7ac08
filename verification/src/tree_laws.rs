//! Laws of the scene tree: the evaluation order is a topological order, a
//! valid tree can always be walked down, and a successful reparent keeps the
//! tree valid.
use vstd::prelude::*;

use crate::hierarchy::{
    ancestor_at, bfs_order, children_of_index, children_upto, expand, first_index, lemma_ancestor_step,
    lemma_first_index_facts, lemma_levels_upto_membership, level, levels_upto, parent_of, reaches_root, root_at,
    roots_upto, valid_tree,
};
use crate::hierarchy::HierarchyErrorView;
use crate::hierarchy::unique_ids;
use crate::scene_tree::{
    ancestor_chain, child_names, child_names_upto, descendants_spec, descendants_upto, expand_names, last_index,
    lemma_empty_level_stays, lemma_last_index_facts, name_level, recorded_parent, reparent_outcome, subtree_finite,
};

verus! {

/// A node is at one depth only: its parent chain meets a root once.
pub proof fn lemma_root_at_unique(ids: Seq<Seq<char>>, par: Seq<Option<Seq<char>>>, c: int, d: nat, e: nat)
    requires
        root_at(ids, par, c, d),
        root_at(ids, par, c, e),
    ensures
        d == e,
{
    if d < e {
        lemma_past_root_is_none(ids, par, c, d, e);
    } else if e < d {
        lemma_past_root_is_none(ids, par, c, e, d);
    }
}

/// Past the root, the parent chain has ended.
proof fn lemma_past_root_is_none(ids: Seq<Seq<char>>, par: Seq<Option<Seq<char>>>, c: int, d: nat, e: nat)
    requires
        root_at(ids, par, c, d),
        d < e,
    ensures
        ancestor_at(ids, par, c, e) is None,
    decreases e - d,
{
    lemma_ancestor_step(ids, par, c, (e - 1) as nat);
    if e - 1 == d {
        let a = ancestor_at(ids, par, c, d)->0;
        assert(parent_of(ids, par, a) is None);
    } else {
        lemma_past_root_is_none(ids, par, c, d, (e - 1) as nat);
    }
}

/// A child is one level below its parent.
proof fn lemma_child_depth(ids: Seq<Seq<char>>, par: Seq<Option<Seq<char>>>, c: int, p: int, e: nat)
    requires
        parent_of(ids, par, c) == Some(p),
        root_at(ids, par, p, e),
    ensures
        root_at(ids, par, c, e + 1),
{
    assert(ancestor_at(ids, par, c, e + 1) == ancestor_at(ids, par, p, e));
}

/// Children are listed in increasing index order.
proof fn lemma_children_upto_increasing(ids: Seq<Seq<char>>, par: Seq<Option<Seq<char>>>, p: int, k: int)
    ensures
        forall|a: int, b: int|
            0 <= a < b < children_upto(ids, par, p, k).len() ==> children_upto(ids, par, p, k)[a] < children_upto(
                ids,
                par,
                p,
                k,
            )[b],
        forall|a: int|
            0 <= a < children_upto(ids, par, p, k).len() ==> #[trigger] children_upto(ids, par, p, k)[a] < k,
        forall|a: int|
            0 <= a < children_upto(ids, par, p, k).len() ==> parent_of(
                ids,
                par,
                #[trigger] children_upto(ids, par, p, k)[a],
            ) == Some(p),
    decreases k,
{
    if k > 0 {
        lemma_children_upto_increasing(ids, par, p, k - 1);
    }
}

/// Roots are listed in increasing index order.
proof fn lemma_roots_upto_increasing(par: Seq<Option<Seq<char>>>, k: int)
    ensures
        forall|a: int, b: int|
            0 <= a < b < roots_upto(par, k).len() ==> roots_upto(par, k)[a] < roots_upto(par, k)[b],
        forall|a: int| 0 <= a < roots_upto(par, k).len() ==> #[trigger] roots_upto(par, k)[a] < k,
    decreases k,
{
    if k > 0 {
        lemma_roots_upto_increasing(par, k - 1);
        let prev = roots_upto(par, k - 1);
        if par[k - 1] is None {
            let cur = prev.push(k - 1);
            assert forall|a: int| 0 <= a < cur.len() implies #[trigger] cur[a] < k by {
                if a < prev.len() {
                    assert(cur[a] == prev[a]);
                }
            }
            assert forall|a: int, b: int| 0 <= a < b < cur.len() implies cur[a] < cur[b] by {
                assert(cur[a] == prev[a]);
                if b < prev.len() {
                    assert(cur[b] == prev[b]);
                }
            }
        }
    }
}

/// Every element of `expand(ps)` is a child of an element of `ps`.
proof fn lemma_expand_parents(ids: Seq<Seq<char>>, par: Seq<Option<Seq<char>>>, ps: Seq<int>, t: int)
    requires
        0 <= t < expand(ids, par, ps).len(),
    ensures
        exists|q: int| #[trigger] ps.contains(q) && parent_of(ids, par, expand(ids, par, ps)[t]) == Some(q),
    decreases ps.len(),
{
    let front = ps.drop_last();
    let a = expand(ids, par, front);
    let b = children_of_index(ids, par, ps.last());
    assert(expand(ids, par, ps) == a + b);
    if t < a.len() {
        lemma_expand_parents(ids, par, front, t);
        let q = choose|q: int| #[trigger] front.contains(q) && parent_of(ids, par, a[t]) == Some(q);
        let u = choose|u: int| 0 <= u < front.len() && front[u] == q;
        assert(ps[u] == q);
        assert(ps.contains(q));
    } else {
        lemma_children_upto_increasing(ids, par, ps.last(), ids.len() as int);
        assert(b[t - a.len()] == expand(ids, par, ps)[t]);
        assert(ps[ps.len() - 1] == ps.last());
        assert(ps.contains(ps.last()));
    }
}

/// Expanding distinct parents gives distinct children.
proof fn lemma_expand_no_duplicates(ids: Seq<Seq<char>>, par: Seq<Option<Seq<char>>>, ps: Seq<int>)
    requires
        ps.no_duplicates(),
    ensures
        expand(ids, par, ps).no_duplicates(),
    decreases ps.len(),
{
    if ps.len() > 0 {
        let front = ps.drop_last();
        let last = ps.last();
        assert(front.no_duplicates()) by {
            assert forall|i: int, j: int| 0 <= i < front.len() && 0 <= j < front.len() && i != j implies front[i]
                != front[j] by {
                assert(front[i] == ps[i] && front[j] == ps[j]);
            }
        }
        lemma_expand_no_duplicates(ids, par, front);
        let a = expand(ids, par, front);
        let b = children_of_index(ids, par, last);
        lemma_children_upto_increasing(ids, par, last, ids.len() as int);
        assert forall|i: int, j: int| 0 <= i < (a + b).len() && 0 <= j < (a + b).len() && i != j implies (a + b)[i]
            != (a + b)[j] by {
            if i < a.len() && j < a.len() {
            } else if i >= a.len() && j >= a.len() {
                if i < j {
                    assert(b[i - a.len()] < b[j - a.len()]);
                } else {
                    assert(b[j - a.len()] < b[i - a.len()]);
                }
            } else {
                let (x, y) = if i < a.len() { (i, j - a.len()) } else { (j, i - a.len()) };
                if a[x] == b[y] {
                    lemma_expand_parents(ids, par, front, x);
                    let q = choose|q: int| #[trigger] front.contains(q) && parent_of(ids, par, a[x]) == Some(q);
                    assert(parent_of(ids, par, b[y]) == Some(last));
                    let u = choose|u: int| 0 <= u < front.len() && front[u] == q;
                    assert(ps[u] == last && ps[ps.len() - 1] == last && u != ps.len() - 1);
                }
            }
        }
        assert(expand(ids, par, ps) == a + b);
    }
}

/// Each breadth-first level lists distinct nodes.
proof fn lemma_level_no_duplicates(ids: Seq<Seq<char>>, par: Seq<Option<Seq<char>>>, d: nat)
    ensures
        level(ids, par, d).no_duplicates(),
    decreases d,
{
    if d == 0 {
        lemma_roots_upto_increasing(par, par.len() as int);
        let r = roots_upto(par, par.len() as int);
        assert forall|i: int, j: int| 0 <= i < r.len() && 0 <= j < r.len() && i != j implies r[i] != r[j] by {
            if i < j {
                assert(r[i] < r[j]);
            } else {
                assert(r[j] < r[i]);
            }
        }
    } else {
        lemma_level_no_duplicates(ids, par, (d - 1) as nat);
        lemma_expand_no_duplicates(ids, par, level(ids, par, (d - 1) as nat));
    }
}

/// Membership of the `t`-th element of a level.
proof fn lemma_level_element(ids: Seq<Seq<char>>, par: Seq<Option<Seq<char>>>, d: nat, t: int)
    requires
        ids.len() == par.len(),
        0 <= t < level(ids, par, d).len(),
    ensures
        0 <= level(ids, par, d)[t] < ids.len(),
        root_at(ids, par, level(ids, par, d)[t], d),
{
    let x = level(ids, par, d)[t];
    assert(level(ids, par, d).contains(x));
    crate::hierarchy::lemma_level_membership(ids, par, d, x);
}

/// The levels `0 .. d` list distinct nodes, shallower nodes first.
proof fn lemma_levels_upto_shape(ids: Seq<Seq<char>>, par: Seq<Option<Seq<char>>>, d: nat)
    requires
        ids.len() == par.len(),
    ensures
        levels_upto(ids, par, d).no_duplicates(),
        forall|t: int|
            0 <= t < levels_upto(ids, par, d).len() ==> 0 <= #[trigger] levels_upto(ids, par, d)[t] < ids.len(),
        forall|a: int, b: int, e1: nat, e2: nat|
            0 <= a < b < levels_upto(ids, par, d).len() && #[trigger] root_at(ids, par, levels_upto(ids, par, d)[a], e1)
                && #[trigger] root_at(ids, par, levels_upto(ids, par, d)[b], e2) ==> e1 <= e2,
    decreases d,
{
    if d > 0 {
        let dm = (d - 1) as nat;
        lemma_levels_upto_shape(ids, par, dm);
        lemma_level_no_duplicates(ids, par, dm);
        let f = levels_upto(ids, par, dm);
        let l = level(ids, par, dm);
        assert(levels_upto(ids, par, d) == f + l);
        assert forall|t: int| 0 <= t < (f + l).len() implies 0 <= #[trigger] (f + l)[t] < ids.len() by {
            if t >= f.len() {
                lemma_level_element(ids, par, dm, t - f.len());
            }
        }
        assert forall|t: int| 0 <= t < f.len() implies exists|e: nat| e < dm && #[trigger] root_at(
            ids,
            par,
            #[trigger] f[t],
            e,
        ) by {
            assert(f.contains(f[t]));
            lemma_levels_upto_membership(ids, par, dm, f[t]);
        }
        assert forall|i: int, j: int| 0 <= i < (f + l).len() && 0 <= j < (f + l).len() && i != j implies (f + l)[i]
            != (f + l)[j] by {
            if i < f.len() && j < f.len() {
            } else if i >= f.len() && j >= f.len() {
            } else {
                let (x, y) = if i < f.len() { (i, j - f.len()) } else { (j, i - f.len()) };
                if f[x] == l[y] {
                    let e = choose|e: nat| e < dm && #[trigger] root_at(ids, par, f[x], e);
                    lemma_level_element(ids, par, dm, y);
                    lemma_root_at_unique(ids, par, f[x], e, dm);
                }
            }
        }
        assert forall|a: int, b: int, e1: nat, e2: nat|
            0 <= a < b < (f + l).len() && #[trigger] root_at(ids, par, (f + l)[a], e1) && #[trigger] root_at(
                ids,
                par,
                (f + l)[b],
                e2,
            ) implies e1 <= e2 by {
            if b < f.len() {
                assert(f[a] == (f + l)[a] && f[b] == (f + l)[b]);
            } else if a >= f.len() {
                lemma_level_element(ids, par, dm, a - f.len());
                lemma_level_element(ids, par, dm, b - f.len());
                lemma_root_at_unique(ids, par, (f + l)[a], e1, dm);
                lemma_root_at_unique(ids, par, (f + l)[b], e2, dm);
            } else {
                let e = choose|e: nat| e < dm && #[trigger] root_at(ids, par, f[a], e);
                lemma_root_at_unique(ids, par, (f + l)[a], e1, e);
                lemma_level_element(ids, par, dm, b - f.len());
                lemma_root_at_unique(ids, par, (f + l)[b], e2, dm);
            }
        }
    }
}

/// On a valid tree the evaluation order lists every node exactly once, and
/// no node comes before its parent.
pub proof fn law_order_is_topological(ids: Seq<Seq<char>>, par: Seq<Option<Seq<char>>>)
    requires
        valid_tree(ids, par),
    ensures
        bfs_order(ids, par).len() == ids.len(),
        bfs_order(ids, par).no_duplicates(),
        forall|i: int| 0 <= i < ids.len() ==> bfs_order(ids, par).contains(i),
        forall|t: int| 0 <= t < bfs_order(ids, par).len() ==> 0 <= #[trigger] bfs_order(ids, par)[t] < ids.len(),
        forall|a: int, b: int|
            0 <= a < b < bfs_order(ids, par).len() ==> parent_of(ids, par, #[trigger] bfs_order(ids, par)[a])
                != Some(#[trigger] bfs_order(ids, par)[b]),
{
    let n = ids.len();
    let order = bfs_order(ids, par);
    lemma_levels_upto_shape(ids, par, n as nat);
    assert forall|i: int| 0 <= i < n implies order.contains(i) by {
        assert(crate::hierarchy::reaches_root(ids, par, i));
        lemma_levels_upto_membership(ids, par, n as nat, i);
    }
    assert forall|a: int, b: int| 0 <= a < b < order.len() implies parent_of(ids, par, #[trigger] order[a]) != Some(
        #[trigger] order[b],
    ) by {
        if parent_of(ids, par, order[a]) == Some(order[b]) {
            assert(order.contains(order[b]));
            lemma_levels_upto_membership(ids, par, n as nat, order[b]);
            let e = choose|e: nat| e < n && #[trigger] root_at(ids, par, order[b], e);
            lemma_child_depth(ids, par, order[a], order[b], e);
        }
    }
    order.unique_seq_to_set();
    vstd::set_lib::lemma_int_range(0, n as int);
    assert(order.to_set() =~= vstd::set_lib::set_int_range(0, n as int)) by {
        assert forall|x: int| order.to_set().contains(x) implies vstd::set_lib::set_int_range(0, n as int).contains(
            x,
        ) by {
            let t = choose|t: int| 0 <= t < order.len() && order[t] == x;
        }
    }
}

// ---------------------------------------------------------------------------
// Walking down a valid tree ends
// ---------------------------------------------------------------------------

/// Node `j` is named `y` and declares `x` as parent.
pub open spec fn is_child_at(ids: Seq<Seq<char>>, par: Seq<Option<Seq<char>>>, x: Seq<char>, j: int, y: Seq<char>) -> bool {
    par[j] == Some(x) && ids[j] == y
}

/// Membership in `child_names_upto`.
proof fn lemma_child_names_upto(ids: Seq<Seq<char>>, par: Seq<Option<Seq<char>>>, x: Seq<char>, k: int, y: Seq<char>)
    requires
        0 <= k,
    ensures
        child_names_upto(ids, par, x, k).contains(y) <==> exists|j: int|
            0 <= j < k && #[trigger] is_child_at(ids, par, x, j, y),
    decreases k,
{
    if k > 0 {
        lemma_child_names_upto(ids, par, x, k - 1, y);
        let prev = child_names_upto(ids, par, x, k - 1);
        if par[k - 1] == Some(x) {
            let cur = prev.push(ids[k - 1]);
            if cur.contains(y) {
                let t = choose|t: int| 0 <= t < cur.len() && cur[t] == y;
                if t < prev.len() {
                    assert(prev[t] == y);
                } else {
                    assert(is_child_at(ids, par, x, k - 1, y));
                }
            }
            if exists|j: int| 0 <= j < k && #[trigger] is_child_at(ids, par, x, j, y) {
                let j = choose|j: int| 0 <= j < k && #[trigger] is_child_at(ids, par, x, j, y);
                if j == k - 1 {
                    assert(cur[prev.len() as int] == y);
                } else {
                    assert(prev.contains(y));
                    let t = choose|t: int| 0 <= t < prev.len() && prev[t] == y;
                    assert(cur[t] == y);
                }
            }
        } else {
            if exists|j: int| 0 <= j < k && #[trigger] is_child_at(ids, par, x, j, y) {
                let j = choose|j: int| 0 <= j < k && #[trigger] is_child_at(ids, par, x, j, y);
                assert(j != k - 1);
            }
        }
    }
}

/// Membership in `expand_names`.
proof fn lemma_expand_names(ids: Seq<Seq<char>>, par: Seq<Option<Seq<char>>>, xs: Seq<Seq<char>>, y: Seq<char>)
    ensures
        expand_names(ids, par, xs).contains(y) <==> exists|x: Seq<char>|
            #[trigger] xs.contains(x) && child_names(ids, par, x).contains(y),
    decreases xs.len(),
{
    if xs.len() > 0 {
        let front = xs.drop_last();
        let last = xs.last();
        lemma_expand_names(ids, par, front, y);
        let a = expand_names(ids, par, front);
        let b = child_names(ids, par, last);
        assert(expand_names(ids, par, xs) == a + b);
        if (a + b).contains(y) {
            let t = choose|t: int| 0 <= t < (a + b).len() && (a + b)[t] == y;
            if t < a.len() {
                assert(a[t] == y);
                let x = choose|x: Seq<char>| #[trigger] front.contains(x) && child_names(ids, par, x).contains(y);
                let u = choose|u: int| 0 <= u < front.len() && front[u] == x;
                assert(xs[u] == x);
                assert(xs.contains(x));
            } else {
                assert(b[t - a.len()] == y);
                assert(xs[xs.len() - 1] == last);
                assert(xs.contains(last));
            }
        }
        if exists|x: Seq<char>| #[trigger] xs.contains(x) && child_names(ids, par, x).contains(y) {
            let x = choose|x: Seq<char>| #[trigger] xs.contains(x) && child_names(ids, par, x).contains(y);
            let u = choose|u: int| 0 <= u < xs.len() && xs[u] == x;
            if u == xs.len() - 1 {
                let t = choose|t: int| 0 <= t < b.len() && b[t] == y;
                assert((a + b)[a.len() + t] == y);
            } else {
                assert(front[u] == x);
                assert(front.contains(x));
                let t = choose|t: int| 0 <= t < a.len() && a[t] == y;
                assert((a + b)[t] == y);
            }
        }
    }
}

/// In a valid tree, a node on level `k >= 1` below `r` has a `(k-1)`-th
/// ancestor whose parent is named `r`.
proof fn lemma_name_level_ancestor(ids: Seq<Seq<char>>, par: Seq<Option<Seq<char>>>, r: Seq<char>, k: nat, y: Seq<char>)
    requires
        valid_tree(ids, par),
        k >= 1,
        name_level(ids, par, r, k).contains(y),
    ensures
        exists|j: int, m: int|
            0 <= j < ids.len() && ids[j] == y && 0 <= m < ids.len() && #[trigger] ancestor_at(ids, par, j, (k - 1) as nat)
                == Some(m) && #[trigger] par[m] == Some(r),
    decreases k,
{
    let prev = name_level(ids, par, r, (k - 1) as nat);
    lemma_expand_names(ids, par, prev, y);
    let x = choose|x: Seq<char>| #[trigger] prev.contains(x) && child_names(ids, par, x).contains(y);
    lemma_child_names_upto(ids, par, x, ids.len() as int, y);
    let j = choose|j: int| 0 <= j < ids.len() && #[trigger] is_child_at(ids, par, x, j, y);
    if k == 1 {
        assert(prev =~= seq![r]);
        assert(x == r);
        assert(ancestor_at(ids, par, j, 0) == Some(j));
    } else {
        lemma_name_level_ancestor(ids, par, r, (k - 1) as nat, x);
        let (jp, m) = choose|jp: int, m: int|
            0 <= jp < ids.len() && ids[jp] == x && 0 <= m < ids.len() && #[trigger] ancestor_at(
                ids,
                par,
                jp,
                (k - 2) as nat,
            ) == Some(m) && #[trigger] par[m] == Some(r);
        lemma_first_index_facts(ids, x);
        assert(first_index(ids, x) == jp) by {
            if first_index(ids, x) != jp {
                let f = first_index(ids, x);
                assert(f >= 0 && f < jp ==> ids[f] != x);
                assert(ids[f] == x);
            }
        }
        assert(parent_of(ids, par, j) == Some(jp));
        assert(ancestor_at(ids, par, j, (k - 1) as nat) == ancestor_at(ids, par, jp, (k - 2) as nat));
    }
}

/// In a valid tree the walk down from any name ends: level `n + 1` is empty.
pub proof fn law_valid_tree_walks_down(ids: Seq<Seq<char>>, par: Seq<Option<Seq<char>>>, r: Seq<char>)
    requires
        valid_tree(ids, par),
    ensures
        subtree_finite(ids, par, r),
        name_level(ids, par, r, (ids.len() + 1) as nat).len() == 0,
{
    let n = ids.len();
    let k = (n + 1) as nat;
    let lv = name_level(ids, par, r, k);
    if lv.len() > 0 {
        let y = lv[0];
        assert(lv.contains(y));
        lemma_name_level_ancestor(ids, par, r, k, y);
        let (j, m) = choose|j: int, m: int|
            0 <= j < ids.len() && ids[j] == y && 0 <= m < ids.len() && #[trigger] ancestor_at(
                ids,
                par,
                j,
                (k - 1) as nat,
            ) == Some(m) && #[trigger] par[m] == Some(r);
        assert(reaches_root(ids, par, j));
        let d = choose|d: nat| d < ids.len() && #[trigger] root_at(ids, par, j, d);
        lemma_past_root_is_none(ids, par, j, d, (k - 1) as nat);
    }
    assert(name_level(ids, par, r, k).len() == 0);
}

// ---------------------------------------------------------------------------
// Reparenting keeps the tree valid
// ---------------------------------------------------------------------------

/// Walking `a` steps and then `t` more is walking `a + t` steps.
proof fn lemma_ancestor_compose(ids: Seq<Seq<char>>, par: Seq<Option<Seq<char>>>, i: int, a: nat, t: nat, z: int)
    requires
        ancestor_at(ids, par, i, a) == Some(z),
    ensures
        ancestor_at(ids, par, i, a + t) == ancestor_at(ids, par, z, t),
    decreases a,
{
    if a > 0 {
        let p = parent_of(ids, par, i)->0;
        assert(ancestor_at(ids, par, i, a) == ancestor_at(ids, par, p, (a - 1) as nat));
        lemma_ancestor_compose(ids, par, p, (a - 1) as nat, t, z);
        assert(((a + t) - 1) as nat == (a - 1) as nat + t);
    }
}

/// Ancestors of a node are nodes.
proof fn lemma_ancestor_in_range(ids: Seq<Seq<char>>, par: Seq<Option<Seq<char>>>, i: int, k: nat)
    requires
        0 <= i < ids.len(),
        ancestor_at(ids, par, i, k) is Some,
    ensures
        0 <= ancestor_at(ids, par, i, k)->0 < ids.len(),
    decreases k,
{
    if k > 0 {
        let p = parent_of(ids, par, i)->0;
        lemma_first_index_facts(ids, par[i]->0);
        lemma_ancestor_in_range(ids, par, p, (k - 1) as nat);
    }
}

/// Up to the root, every step of the walk exists.
proof fn lemma_ancestor_exists_below_root(ids: Seq<Seq<char>>, par: Seq<Option<Seq<char>>>, i: int, d: nat, k: nat)
    requires
        root_at(ids, par, i, d),
        k <= d,
    ensures
        ancestor_at(ids, par, i, k) is Some,
    decreases d - k,
{
    if k < d {
        lemma_ancestor_exists_below_root(ids, par, i, d, k + 1);
        lemma_ancestor_step(ids, par, i, k);
    }
}

/// Up to the root, the walk visits distinct nodes.
proof fn lemma_chain_distinct(ids: Seq<Seq<char>>, par: Seq<Option<Seq<char>>>, i: int, d: nat, a: nat, b: nat)
    requires
        root_at(ids, par, i, d),
        a < b <= d,
    ensures
        ancestor_at(ids, par, i, a) != ancestor_at(ids, par, i, b),
{
    lemma_ancestor_exists_below_root(ids, par, i, d, a);
    if ancestor_at(ids, par, i, a) == ancestor_at(ids, par, i, b) {
        let z = ancestor_at(ids, par, i, a)->0;
        let t = (d - a) as nat;
        lemma_ancestor_compose(ids, par, i, a, t, z);
        lemma_ancestor_compose(ids, par, i, b, t, z);
        lemma_past_root_is_none(ids, par, i, d, b + t);
    }
}

/// A node `k >= 1` steps below the node `idx` is on level `k` below its name.
proof fn lemma_descendant_on_level(ids: Seq<Seq<char>>, par: Seq<Option<Seq<char>>>, idx: int, j: int, k: nat)
    requires
        ids.len() == par.len(),
        0 <= j < ids.len(),
        k >= 1,
        ancestor_at(ids, par, j, k) == Some(idx),
    ensures
        name_level(ids, par, ids[idx], k).contains(ids[j]),
    decreases k,
{
    let p = parent_of(ids, par, j)->0;
    let pn = par[j]->0;
    lemma_first_index_facts(ids, pn);
    assert(ids[p] == pn);
    assert(is_child_at(ids, par, ids[p], j, ids[j]));
    lemma_child_names_upto(ids, par, ids[p], ids.len() as int, ids[j]);
    let prev = name_level(ids, par, ids[idx], (k - 1) as nat);
    if k == 1 {
        assert(ancestor_at(ids, par, p, 0) == Some(p));
        assert(p == idx);
        assert(prev[0] == ids[idx]);
        assert(prev.contains(ids[p]));
    } else {
        lemma_descendant_on_level(ids, par, idx, p, (k - 1) as nat);
    }
    lemma_expand_names(ids, par, prev, ids[j]);
}

/// Levels `1 ..= d` all appear in `descendants_upto(d)`.
proof fn lemma_level_in_descendants_upto(ids: Seq<Seq<char>>, par: Seq<Option<Seq<char>>>, r: Seq<char>, d: nat, k: nat, y: Seq<char>)
    requires
        1 <= k <= d,
        name_level(ids, par, r, k).contains(y),
    ensures
        descendants_upto(ids, par, r, d).contains(y),
    decreases d,
{
    let front = descendants_upto(ids, par, r, (d - 1) as nat);
    let last = name_level(ids, par, r, d);
    assert(descendants_upto(ids, par, r, d) == front + last);
    if k == d {
        let t = choose|t: int| 0 <= t < last.len() && last[t] == y;
        assert((front + last)[front.len() + t] == y);
    } else {
        lemma_level_in_descendants_upto(ids, par, r, (d - 1) as nat, k, y);
        let t = choose|t: int| 0 <= t < front.len() && front[t] == y;
        assert((front + last)[t] == y);
    }
}

/// A name on some level `k >= 1` is among the descendants.
proof fn lemma_level_in_descendants(ids: Seq<Seq<char>>, par: Seq<Option<Seq<char>>>, r: Seq<char>, k: nat, y: Seq<char>)
    requires
        subtree_finite(ids, par, r),
        k >= 1,
        name_level(ids, par, r, k).contains(y),
    ensures
        descendants_spec(ids, par, r).contains(y),
{
    let d = choose|d: nat| #[trigger] name_level(ids, par, r, d).len() == 0;
    if d < k {
        lemma_empty_level_stays(ids, par, r, d, k);
    }
    lemma_level_in_descendants_upto(ids, par, r, d, k, y);
}

/// Walks that avoid the edited node agree before and after the edit.
proof fn lemma_walk_agrees(
    ids: Seq<Seq<char>>,
    par: Seq<Option<Seq<char>>>,
    idx: int,
    np: Option<Seq<char>>,
    i: int,
    t: nat,
)
    requires
        ids.len() == par.len(),
        0 <= idx < par.len(),
        0 <= i < ids.len(),
        forall|u: nat| u < t ==> #[trigger] ancestor_at(ids, par, i, u) != Some(idx),
    ensures
        ancestor_at(ids, par.update(idx, np), i, t) == ancestor_at(ids, par, i, t),
    decreases t,
{
    if t > 0 {
        let tm = (t - 1) as nat;
        lemma_walk_agrees(ids, par, idx, np, i, tm);
        lemma_ancestor_step(ids, par, i, tm);
        lemma_ancestor_step(ids, par.update(idx, np), i, tm);
        match ancestor_at(ids, par, i, tm) {
            Some(a) => {
                assert(a != idx);
                lemma_ancestor_in_range(ids, par, i, tm);
                assert(par.update(idx, np)[a] == par[a]);
            },
            None => {},
        }
    }
}

/// The first step at which the walk up from `i` meets `idx`, if it does
/// within `d` steps.
proof fn lemma_first_hit(ids: Seq<Seq<char>>, par: Seq<Option<Seq<char>>>, idx: int, i: int, d: nat) -> (s: Option<nat>)
    ensures
        s matches Some(k) ==> k <= d && ancestor_at(ids, par, i, k) == Some(idx) && forall|u: nat|
            u < k ==> #[trigger] ancestor_at(ids, par, i, u) != Some(idx),
        s is None ==> forall|u: nat| u <= d ==> #[trigger] ancestor_at(ids, par, i, u) != Some(idx),
    decreases d,
{
    let earlier = if d == 0 {
        None
    } else {
        lemma_first_hit(ids, par, idx, i, (d - 1) as nat)
    };
    match earlier {
        Some(k) => Some(k),
        None => if ancestor_at(ids, par, i, d) == Some(idx) {
            Some(d)
        } else {
            None
        },
    }
}

/// A reparent that the checks accept keeps a valid tree valid: ids stay
/// unique, parents resolve, and no cycle is born.
pub proof fn law_reparent_keeps_tree(
    ids: Seq<Seq<char>>,
    par: Seq<Option<Seq<char>>>,
    id: Seq<char>,
    parent: Option<Seq<char>>,
)
    requires
        valid_tree(ids, par),
        reparent_outcome(ids, par, id, parent) is Ok,
    ensures
        valid_tree(ids, par.update(first_index(ids, id), parent)),
{
    let n = ids.len();
    let idx = first_index(ids, id);
    lemma_first_index_facts(ids, id);
    let par2 = par.update(idx, parent);
    law_valid_tree_walks_down(ids, par, id);
    assert forall|i: int| 0 <= i < n implies !crate::hierarchy::parent_fault(ids, par2, i) by {
        if i != idx {
            assert(par2[i] == par[i]);
            assert(!crate::hierarchy::parent_fault(ids, par, i));
        }
    }
    let q: int = match parent {
        Some(p) => first_index(ids, p),
        None => -1,
    };
    if parent is Some {
        lemma_first_index_facts(ids, parent->0);
        assert(q != idx);
        assert forall|u: nat| #[trigger] ancestor_at(ids, par, q, u) != Some(idx) by {
            if u >= 1 && ancestor_at(ids, par, q, u) == Some(idx) {
                lemma_descendant_on_level(ids, par, idx, q, u);
                lemma_level_in_descendants(ids, par, id, u, ids[q]);
            }
        }
    }
    assert forall|i: int| 0 <= i < n implies reaches_root(ids, par2, i) by {
        lemma_reaches_root_after_edit(ids, par, id, parent, idx, q, i);
    }
}

proof fn lemma_reaches_root_after_edit(
    ids: Seq<Seq<char>>,
    par: Seq<Option<Seq<char>>>,
    id: Seq<char>,
    parent: Option<Seq<char>>,
    idx: int,
    q: int,
    i: int,
)
    requires
        valid_tree(ids, par),
        0 <= idx < ids.len(),
        ids[idx] == id,
        0 <= i < ids.len(),
        parent matches Some(p) ==> q == first_index(ids, p) && 0 <= q < ids.len() && ids[q] == p && q != idx
            && forall|u: nat| #[trigger] ancestor_at(ids, par, q, u) != Some(idx),
        parent is None ==> q == -1,
    ensures
        reaches_root(ids, par.update(idx, parent), i),
{
    let n = ids.len();
    let par2 = par.update(idx, parent);
    assert(reaches_root(ids, par, i));
    let d = choose|d: nat| d < n && #[trigger] root_at(ids, par, i, d);
    match lemma_first_hit(ids, par, idx, i, d) {
        None => {
            lemma_walk_agrees(ids, par, idx, parent, i, d);
            let z = ancestor_at(ids, par, i, d)->0;
            lemma_ancestor_in_range(ids, par, i, d);
            assert(par2[z] == par[z]);
            assert(root_at(ids, par2, i, d));
        },
        Some(s) => {
            lemma_walk_agrees(ids, par, idx, parent, i, s);
            lemma_ancestor_step(ids, par2, i, s);
            match parent {
                None => {
                    assert(root_at(ids, par2, i, s));
                },
                Some(p) => {
                    assert(reaches_root(ids, par, q));
                    let dq = choose|dq: nat| dq < n && #[trigger] root_at(ids, par, q, dq);
                    lemma_walk_agrees(ids, par, idx, parent, q, dq);
                    lemma_first_index_facts(ids, p);
                    assert(parent_of(ids, par2, idx) == Some(q));
                    assert(ancestor_at(ids, par2, i, s + 1) == Some(q));
                    lemma_ancestor_compose(ids, par2, i, s + 1, dq, q);
                    let z = ancestor_at(ids, par, q, dq)->0;
                    lemma_ancestor_in_range(ids, par, q, dq);
                    assert(z != idx);
                    assert(par2[z] == par[z]);
                    assert(root_at(ids, par2, i, s + 1 + dq));
                    lemma_joined_walk_bound(ids, par, idx, i, d, s, q, dq);
                },
            }
        },
    }
}

/// The walk from `i` up to `idx` and the walk from `q` up to its root share
/// no node, so together they fit in the tree.
proof fn lemma_joined_walk_bound(
    ids: Seq<Seq<char>>,
    par: Seq<Option<Seq<char>>>,
    idx: int,
    i: int,
    d: nat,
    s: nat,
    q: int,
    dq: nat,
)
    requires
        ids.len() == par.len(),
        0 <= i < ids.len(),
        0 <= q < ids.len(),
        root_at(ids, par, i, d),
        s <= d,
        ancestor_at(ids, par, i, s) == Some(idx),
        root_at(ids, par, q, dq),
        forall|u: nat| #[trigger] ancestor_at(ids, par, q, u) != Some(idx),
    ensures
        s + 1 + dq < ids.len(),
{
    let n = ids.len() as int;
    let w1 = Seq::new(s + 1, |k: int| ancestor_at(ids, par, i, k as nat)->0);
    let w2 = Seq::new(dq + 1, |k: int| ancestor_at(ids, par, q, k as nat)->0);
    let w = w1 + w2;
    assert forall|k: int| 0 <= k < w.len() implies 0 <= #[trigger] w[k] < n by {
        if k < w1.len() {
            lemma_ancestor_exists_below_root(ids, par, i, d, k as nat);
            lemma_ancestor_in_range(ids, par, i, k as nat);
        } else {
            lemma_ancestor_exists_below_root(ids, par, q, dq, (k - w1.len()) as nat);
            lemma_ancestor_in_range(ids, par, q, (k - w1.len()) as nat);
        }
    }
    assert forall|x: int, y: int| 0 <= x < w.len() && 0 <= y < w.len() && x != y implies w[x] != w[y] by {
        let (a, b) = if x < y { (x, y) } else { (y, x) };
        if b < w1.len() {
            lemma_ancestor_exists_below_root(ids, par, i, d, a as nat);
            lemma_ancestor_exists_below_root(ids, par, i, d, b as nat);
            lemma_chain_distinct(ids, par, i, d, a as nat, b as nat);
        } else if a >= w1.len() {
            let a2 = (a - w1.len()) as nat;
            let b2 = (b - w1.len()) as nat;
            lemma_ancestor_exists_below_root(ids, par, q, dq, a2);
            lemma_ancestor_exists_below_root(ids, par, q, dq, b2);
            lemma_chain_distinct(ids, par, q, dq, a2, b2);
        } else {
            let b2 = (b - w1.len()) as nat;
            lemma_ancestor_exists_below_root(ids, par, i, d, a as nat);
            lemma_ancestor_exists_below_root(ids, par, q, dq, b2);
            if w[a] == w[b] {
                let z = w[a];
                assert(ancestor_at(ids, par, i, a as nat) == Some(z));
                assert(ancestor_at(ids, par, q, b2) == Some(z));
                let t = (s - a) as nat;
                lemma_ancestor_compose(ids, par, i, a as nat, t, z);
                lemma_ancestor_compose(ids, par, q, b2, t, z);
                assert(ancestor_at(ids, par, q, b2 + t) == Some(idx));
            }
        }
    }
    assert(w.no_duplicates());
    crate::hierarchy::lemma_distinct_indices_bounded(w, n);
}

// ---------------------------------------------------------------------------
// Reparenting back undoes a reparent
// ---------------------------------------------------------------------------

/// A descendant is on some level `k >= 1` below the root of the walk.
proof fn lemma_descendant_level(ids: Seq<Seq<char>>, par: Seq<Option<Seq<char>>>, r: Seq<char>, d: nat, y: Seq<char>)
    requires
        descendants_upto(ids, par, r, d).contains(y),
    ensures
        exists|k: nat| 1 <= k <= d && #[trigger] name_level(ids, par, r, k).contains(y),
    decreases d,
{
    if d > 0 {
        let front = descendants_upto(ids, par, r, (d - 1) as nat);
        let last = name_level(ids, par, r, d);
        assert(descendants_upto(ids, par, r, d) == front + last);
        let t = choose|t: int| 0 <= t < (front + last).len() && (front + last)[t] == y;
        if t < front.len() {
            assert(front[t] == y);
            assert(front.contains(y));
            lemma_descendant_level(ids, par, r, (d - 1) as nat, y);
        } else {
            assert(last[t - front.len()] == y);
            assert(last.contains(y));
        }
    } else {
        assert(descendants_upto(ids, par, r, d) =~= Seq::<Seq<char>>::empty());
    }
}

/// In a valid tree a node's parent is never below the node.
proof fn lemma_parent_not_below(ids: Seq<Seq<char>>, par: Seq<Option<Seq<char>>>, f: int, q: int)
    requires
        valid_tree(ids, par),
        0 <= f < ids.len(),
        parent_of(ids, par, f) == Some(q),
    ensures
        forall|u: nat| #[trigger] ancestor_at(ids, par, q, u) != Some(f),
{
    lemma_first_index_facts(ids, par[f]->0);
    assert(0 <= q < ids.len());
    assert(reaches_root(ids, par, q));
    let dq = choose|dq: nat| dq < ids.len() && #[trigger] root_at(ids, par, q, dq);
    assert forall|u: nat| #[trigger] ancestor_at(ids, par, q, u) != Some(f) by {
        if ancestor_at(ids, par, q, u) == Some(f) {
            lemma_ancestor_compose(ids, par, q, u, 1, f);
            assert(ancestor_at(ids, par, f, 1) == Some(q)) by {
                assert(ancestor_at(ids, par, q, 0) == Some(q));
            }
            if u + 1 <= dq {
                lemma_chain_distinct(ids, par, q, dq, 0, u + 1);
            } else {
                lemma_past_root_is_none(ids, par, q, dq, u + 1);
            }
        }
    }
}

/// Undoing a reparent: on a valid tree, after a reparent that the checks
/// accept, reparenting the node back to the previous parent it reported is
/// accepted too, reports the parent just set, and restores the tree.
pub proof fn law_reparent_back_undoes(
    ids: Seq<Seq<char>>,
    par: Seq<Option<Seq<char>>>,
    id: Seq<char>,
    parent: Option<Seq<char>>,
)
    requires
        valid_tree(ids, par),
        reparent_outcome(ids, par, id, parent) is Ok,
    ensures
        ({
            let f = first_index(ids, id);
            let previous = reparent_outcome(ids, par, id, parent)->Ok_0;
            let par2 = par.update(f, parent);
            &&& previous == par[f]
            &&& reparent_outcome(ids, par2, id, previous) == Ok::<Option<Seq<char>>, HierarchyErrorView>(parent)
            &&& par2.update(f, previous) == par
        }),
{
    let f = first_index(ids, id);
    lemma_first_index_facts(ids, id);
    let par2 = par.update(f, parent);
    law_reparent_keeps_tree(ids, par, id, parent);
    assert(par2.update(f, par[f]) =~= par);
    match par[f] {
        None => {},
        Some(pp) => {
            assert(!crate::hierarchy::parent_fault(ids, par, f));
            lemma_first_index_facts(ids, pp);
            let q = first_index(ids, pp);
            assert(parent_of(ids, par, f) == Some(q));
            assert(pp != id);
            law_valid_tree_walks_down(ids, par2, id);
            if descendants_spec(ids, par2, id).contains(pp) {
                let d = choose|d: nat| #[trigger] name_level(ids, par2, id, d).len() == 0;
                lemma_descendant_level(ids, par2, id, d, pp);
                let k = choose|k: nat| 1 <= k <= d && #[trigger] name_level(ids, par2, id, k).contains(pp);
                lemma_name_level_ancestor(ids, par2, id, k, pp);
                let (j, m) = choose|j: int, m: int|
                    0 <= j < ids.len() && ids[j] == pp && 0 <= m < ids.len() && #[trigger] ancestor_at(
                        ids,
                        par2,
                        j,
                        (k - 1) as nat,
                    ) == Some(m) && #[trigger] par2[m] == Some(id);
                assert(j == q) by {
                    if j != q {
                        assert(ids[q] == pp);
                    }
                }
                lemma_ancestor_step(ids, par2, q, (k - 1) as nat);
                assert(parent_of(ids, par2, m) == Some(f));
                assert(ancestor_at(ids, par2, q, k) == Some(f));
                lemma_parent_not_below(ids, par, f, q);
                lemma_walk_agrees(ids, par, f, parent, q, k);
                assert(false);
            }
        },
    }
}

// ---------------------------------------------------------------------------
// Descendants and ancestors
// ---------------------------------------------------------------------------

/// The name `k` steps up from `y` along the recorded parents.
pub open spec fn up(ids: Seq<Seq<char>>, par: Seq<Option<Seq<char>>>, y: Seq<char>, k: nat) -> Option<Seq<char>>
    decreases k,
{
    if k == 0 {
        Some(y)
    } else {
        match recorded_parent(ids, par, y) {
            Some(z) => up(ids, par, z, (k - 1) as nat),
            None => None,
        }
    }
}

/// One more step up is the recorded parent of the name reached.
proof fn lemma_up_step(ids: Seq<Seq<char>>, par: Seq<Option<Seq<char>>>, y: Seq<char>, k: nat)
    ensures
        up(ids, par, y, k + 1) == match up(ids, par, y, k) {
            Some(z) => recorded_parent(ids, par, z),
            None => None,
        },
    decreases k,
{
    if k > 0 {
        match recorded_parent(ids, par, y) {
            Some(z) => {
                lemma_up_step(ids, par, z, (k - 1) as nat);
                assert(up(ids, par, y, k + 1) == up(ids, par, z, k));
                assert(up(ids, par, y, k) == up(ids, par, z, (k - 1) as nat));
            },
            None => {},
        }
    } else {
        match recorded_parent(ids, par, y) {
            Some(z) => assert(up(ids, par, z, 0) == Some(z)),
            None => {},
        }
    }
}

/// With distinct ids, `y` is a child of `x` exactly when `y` is a node
/// whose recorded parent is `x`.
proof fn lemma_child_iff_recorded(ids: Seq<Seq<char>>, par: Seq<Option<Seq<char>>>, x: Seq<char>, y: Seq<char>)
    requires
        unique_ids(ids),
        ids.len() == par.len(),
    ensures
        child_names(ids, par, x).contains(y) <==> (ids.contains(y) && recorded_parent(ids, par, y) == Some(x)),
{
    lemma_child_names_upto(ids, par, x, ids.len() as int, y);
    lemma_last_index_facts(ids, y);
    if child_names(ids, par, x).contains(y) {
        let j = choose|j: int| 0 <= j < ids.len() as int && #[trigger] is_child_at(ids, par, x, j, y);
        assert(ids[j] == y);
        assert(last_index(ids, y) == j) by {
            if last_index(ids, y) != j {
                assert(last_index(ids, y) > j);
            }
        }
    }
    if ids.contains(y) && recorded_parent(ids, par, y) == Some(x) {
        let j = last_index(ids, y);
        assert(is_child_at(ids, par, x, j, y));
    }
}

/// With distinct ids, level `k >= 1` below `a` holds exactly the nodes that
/// are `k` steps below `a`.
proof fn lemma_level_iff_up(ids: Seq<Seq<char>>, par: Seq<Option<Seq<char>>>, a: Seq<char>, k: nat, y: Seq<char>)
    requires
        unique_ids(ids),
        ids.len() == par.len(),
        k >= 1,
    ensures
        name_level(ids, par, a, k).contains(y) <==> (ids.contains(y) && up(ids, par, y, k) == Some(a)),
    decreases k,
{
    let prev = name_level(ids, par, a, (k - 1) as nat);
    lemma_expand_names(ids, par, prev, y);
    lemma_child_iff_recorded(ids, par, recorded_parent(ids, par, y)->0, y);
    if k == 1 {
        assert(prev =~= seq![a]);
        if name_level(ids, par, a, k).contains(y) {
            let x = choose|x: Seq<char>| #[trigger] prev.contains(x) && child_names(ids, par, x).contains(y);
            lemma_child_iff_recorded(ids, par, x, y);
        }
        if ids.contains(y) && up(ids, par, y, k) == Some(a) {
            assert(prev.contains(a) && child_names(ids, par, a).contains(y)) by {
                lemma_child_iff_recorded(ids, par, a, y);
                assert(prev[0] == a);
            }
        }
    } else {
        if name_level(ids, par, a, k).contains(y) {
            let x = choose|x: Seq<char>| #[trigger] prev.contains(x) && child_names(ids, par, x).contains(y);
            lemma_child_iff_recorded(ids, par, x, y);
            lemma_level_iff_up(ids, par, a, (k - 1) as nat, x);
        }
        if ids.contains(y) && up(ids, par, y, k) == Some(a) {
            let x = recorded_parent(ids, par, y)->0;
            lemma_child_iff_recorded(ids, par, x, y);
            assert(up(ids, par, x, (k - 1) as nat) == Some(a));
            assert(ids.contains(x)) by {
                let r = recorded_parent(ids, par, x);
                assert(r is Some);
                lemma_last_index_facts(ids, x);
                assert(ids[last_index(ids, x)] == x);
            }
            lemma_level_iff_up(ids, par, a, (k - 1) as nat, x);
            assert(prev.contains(x) && child_names(ids, par, x).contains(y));
        }
    }
}

/// The walk up recorded by an ancestor chain: `k` steps up from `y` is the
/// `k`-th name of the chain, and past its end the walk stays in the chain
/// or has stopped.
proof fn lemma_chain_is_walk(ids: Seq<Seq<char>>, par: Seq<Option<Seq<char>>>, y: Seq<char>, c: Seq<Seq<char>>, k: nat)
    requires
        ancestor_chain(ids, par, y, c),
        k >= 1,
    ensures
        k <= c.len() ==> up(ids, par, y, k) == Some(c[k - 1]),
        k > c.len() ==> match up(ids, par, y, k) {
            Some(z) => c.contains(z),
            None => true,
        },
    decreases k,
{
    if k == 1 {
        assert(up(ids, par, y, 1) == recorded_parent(ids, par, y)) by {
            match recorded_parent(ids, par, y) {
                Some(z) => assert(up(ids, par, z, 0) == Some(z)),
                None => {},
            }
        }
        if c.len() == 0 {
            assert(recorded_parent(ids, par, y) is None);
        }
    } else {
        lemma_chain_is_walk(ids, par, y, c, (k - 1) as nat);
        lemma_up_step(ids, par, y, (k - 1) as nat);
        if k <= c.len() {
            assert(recorded_parent(ids, par, c[k - 2]) == Some(c[k - 1]));
        } else if k - 1 == c.len() {
            assert(c[k - 2] == c.last());
        } else {
            match up(ids, par, y, (k - 1) as nat) {
                Some(z) => {
                    let i = choose|i: int| 0 <= i < c.len() && c[i] == z;
                    if i < c.len() - 1 {
                        assert(recorded_parent(ids, par, c[i]) == Some(c[i + 1]));
                    } else {
                        assert(c[i] == c.last());
                    }
                },
                None => {},
            }
        }
    }
}

/// In a tree with distinct ids, `y` is a descendant of `a` exactly when `a`
/// is an ancestor of `y`: walking down from `a` and walking up from `y` are
/// two views of the same parent links.
pub proof fn law_descendants_are_the_reverse_of_ancestors(
    ids: Seq<Seq<char>>,
    par: Seq<Option<Seq<char>>>,
    a: Seq<char>,
    y: Seq<char>,
    chain: Seq<Seq<char>>,
)
    requires
        unique_ids(ids),
        ids.len() == par.len(),
        subtree_finite(ids, par, a),
        ancestor_chain(ids, par, y, chain),
    ensures
        descendants_spec(ids, par, a).contains(y) <==> chain.contains(a),
{
    if descendants_spec(ids, par, a).contains(y) {
        let d = choose|d: nat| #[trigger] name_level(ids, par, a, d).len() == 0;
        lemma_descendant_level(ids, par, a, d, y);
        let k = choose|k: nat| 1 <= k <= d && #[trigger] name_level(ids, par, a, k).contains(y);
        lemma_level_iff_up(ids, par, a, k, y);
        lemma_chain_is_walk(ids, par, y, chain, k);
        if k <= chain.len() {
            assert(chain[k - 1] == a);
        }
    }
    if chain.contains(a) {
        let i = choose|i: int| 0 <= i < chain.len() && chain[i] == a;
        lemma_chain_is_walk(ids, par, y, chain, (i + 1) as nat);
        assert(ids.contains(y)) by {
            assert(recorded_parent(ids, par, y) is Some);
            lemma_last_index_facts(ids, y);
            assert(ids[last_index(ids, y)] == y);
        }
        lemma_level_iff_up(ids, par, a, (i + 1) as nat, y);
        lemma_level_in_descendants(ids, par, a, (i + 1) as nat, y);
    }
}

} // verus!
