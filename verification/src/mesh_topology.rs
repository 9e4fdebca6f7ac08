//! Topology decisions of normal reconstruction: which triangles of an index
//! list take part in the per-vertex accumulation, and which morph targets
//! move positions without carrying normal deltas.
use vstd::prelude::*;

verus! {

/// The corners of triangle `t`, the `t`-th complete group of three indices.
pub open spec fn corners(indices: Seq<u32>, t: int) -> (usize, usize, usize) {
    (indices[3 * t] as usize, indices[3 * t + 1] as usize, indices[3 * t + 2] as usize)
}

/// A triangle takes part when each corner names a vertex and, where
/// degenerate triangles are refused, no two corners coincide.
pub open spec fn usable(c: (usize, usize, usize), vertex_count: usize, distinct_corners: bool) -> bool {
    &&& c.0 < vertex_count
    &&& c.1 < vertex_count
    &&& c.2 < vertex_count
    &&& distinct_corners ==> (c.0 != c.1 && c.1 != c.2 && c.0 != c.2)
}

/// The usable triangles among the first `n` groups of three, in index order.
pub open spec fn usable_upto(
    indices: Seq<u32>,
    vertex_count: usize,
    distinct_corners: bool,
    n: int,
) -> Seq<(usize, usize, usize)>
    decreases n,
{
    if n <= 0 {
        Seq::empty()
    } else {
        let before = usable_upto(indices, vertex_count, distinct_corners, n - 1);
        let c = corners(indices, n - 1);
        if usable(c, vertex_count, distinct_corners) {
            before.push(c)
        } else {
            before
        }
    }
}

/// The usable triangles of an index list read in groups of three; a trailing
/// group of one or two indices is no triangle.
pub open spec fn usable_triangles_of(
    indices: Seq<u32>,
    vertex_count: usize,
    distinct_corners: bool,
) -> Seq<(usize, usize, usize)> {
    usable_upto(indices, vertex_count, distinct_corners, (indices.len() / 3) as int)
}

/// The triangles whose corners all name one of `vertex_count` vertices
/// (and, with `distinct_corners`, are pairwise distinct), in index order.
pub fn usable_triangles(indices: &[u32], vertex_count: usize, distinct_corners: bool) -> (out: Vec<(usize, usize, usize)>)
    ensures
        out@ == usable_triangles_of(indices@, vertex_count, distinct_corners),
        forall|k: int| 0 <= k < out@.len() ==> usable(#[trigger] out@[k], vertex_count, distinct_corners),
{
    let count = indices.len() / 3;
    let mut out: Vec<(usize, usize, usize)> = Vec::new();
    let mut t: usize = 0;
    while t < count
        invariant
            count == indices@.len() / 3,
            t <= count,
            out@ == usable_upto(indices@, vertex_count, distinct_corners, t as int),
            forall|k: int| 0 <= k < out@.len() ==> usable(#[trigger] out@[k], vertex_count, distinct_corners),
        decreases count - t,
    {
        assert(3 * t + 2 < indices@.len()) by (nonlinear_arith)
            requires
                t < count,
                count == indices@.len() / 3,
        ;
        assert(indices@.len() == indices.len());
        let base: usize = 3 * t;
        let a = indices[base] as usize;
        let b = indices[base + 1] as usize;
        let c = indices[base + 2] as usize;
        let fits = a < vertex_count && b < vertex_count && c < vertex_count;
        let distinct = a != b && b != c && a != c;
        proof {
            assert(corners(indices@, t as int) == (a, b, c));
        }
        if fits && (!distinct_corners || distinct) {
            out.push((a, b, c));
        }
        t = t + 1;
    }
    out
}

/// A target needs its normal deltas rebuilt when it moves some vertex and
/// carries no normal delta.
pub open spec fn needs_normals(target: (usize, bool)) -> bool {
    target.0 > 0 && !target.1
}

/// The positions of the targets that need normals, in order.
pub open spec fn needing_normals_upto(targets: Seq<(usize, bool)>, n: int) -> Seq<usize>
    decreases n,
{
    if n <= 0 {
        Seq::empty()
    } else {
        let before = needing_normals_upto(targets, n - 1);
        if needs_normals(targets[n - 1]) {
            before.push((n - 1) as usize)
        } else {
            before
        }
    }
}

/// Proof that the listed positions are increasing, name targets that need
/// normals, and include every such target.
pub proof fn lemma_needing_normals_facts(targets: Seq<(usize, bool)>, n: int)
    requires
        0 <= n <= targets.len(),
        targets.len() <= usize::MAX,
    ensures
        forall|k: int|
            0 <= k < needing_normals_upto(targets, n).len() ==> {
                let i = #[trigger] needing_normals_upto(targets, n)[k];
                &&& i < n
                &&& needs_normals(targets[i as int])
            },
        forall|j: int, k: int|
            0 <= j < k < needing_normals_upto(targets, n).len() ==> needing_normals_upto(targets, n)[j]
                < needing_normals_upto(targets, n)[k],
        forall|i: int|
            0 <= i < n && needs_normals(#[trigger] targets[i]) ==> needing_normals_upto(targets, n).contains(
                i as usize,
            ),
    decreases n,
{
    if n > 0 {
        lemma_needing_normals_facts(targets, n - 1);
        let before = needing_normals_upto(targets, n - 1);
        assert forall|i: int| 0 <= i < n && needs_normals(#[trigger] targets[i]) implies needing_normals_upto(
            targets,
            n,
        ).contains(i as usize) by {
            if i < n - 1 {
                let k = choose|k: int| 0 <= k < before.len() && before[k] == i as usize;
                if needs_normals(targets[n - 1]) {
                    assert(needing_normals_upto(targets, n)[k] == i as usize);
                }
            } else {
                let out = needing_normals_upto(targets, n);
                assert(out[out.len() - 1] == i as usize);
            }
        }
    }
}

/// Positions of the targets that move vertices (`.0`, their delta count, is
/// positive) without normal deltas (`.1` is false), in increasing order.
pub fn targets_missing_normals(targets: &[(usize, bool)]) -> (out: Vec<usize>)
    ensures
        out@ == needing_normals_upto(targets@, targets@.len() as int),
        forall|k: int|
            0 <= k < out@.len() ==> {
                let i = #[trigger] out@[k];
                &&& i < targets@.len()
                &&& needs_normals(targets@[i as int])
            },
        forall|i: int|
            0 <= i < targets@.len() && needs_normals(#[trigger] targets@[i]) ==> out@.contains(i as usize),
        forall|j: int, k: int| 0 <= j < k < out@.len() ==> out@[j] < out@[k],
{
    let mut out: Vec<usize> = Vec::new();
    let mut i: usize = 0;
    while i < targets.len()
        invariant
            i <= targets@.len(),
            out@ == needing_normals_upto(targets@, i as int),
        decreases targets.len() - i,
    {
        let (count, has_normals) = targets[i];
        if count > 0 && !has_normals {
            out.push(i);
        }
        i = i + 1;
    }
    proof {
        lemma_needing_normals_facts(targets@, targets@.len() as int);
    }
    out
}

} // verus!
