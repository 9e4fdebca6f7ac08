//! Laws of the structural scene edits: applying the undo of an edit to the
//! scene it produced gives back the scene it started from.
use vstd::prelude::*;

use crate::hierarchy::{first_index, lemma_first_index_facts, unique_ids, NodeKind};
use crate::ids::asset_id_for;
use crate::node_commands::{
    kept_nodes, law_reinsert_rebuilds, law_restore_plan_positions, lemma_sub_from_all, lemma_sub_from_prefix,
    lemma_sub_from_same_tail, reinsert, removed_with, restore_steps_upto, step_positions, sub_from, RestoreStep,
};
use crate::project::{base_uri, BaseGender, MeshPreset};
use crate::scene_edits::{
    character_node_id, created_record, is_base_mesh, gender_switched, insert_position, mesh_preset_uri, mesh_set, parent_set,
    readd, relink, removal_marks, restored_record, step_records, view_ids, view_parents, visibility_set, with_parent,
    NodeRecordView,
};
use crate::scene_tree::{
    child_names, child_names_upto, descendants_spec, descendants_upto, expand_names, lemma_descendants_at_empty_level,
    name_level, subtree_finite,
};

verus! {

/// An update that keeps the id of a record keeps all the ids.
proof fn lemma_update_keeps_ids(v: Seq<NodeRecordView>, f: int, r: NodeRecordView)
    requires
        0 <= f < v.len(),
        r.id == v[f].id,
    ensures
        view_ids(v.update(f, r)) == view_ids(v),
{
    assert(view_ids(v.update(f, r)) =~= view_ids(v));
}

/// Showing or hiding a node, then restoring the visibility it had, gives
/// back the records.
pub proof fn law_visibility_undo(v: Seq<NodeRecordView>, id: Seq<char>, visible: bool)
    requires
        first_index(view_ids(v), id) >= 0,
    ensures
        visibility_set(visibility_set(v, id, visible), id, v[first_index(view_ids(v), id)].visible) == v,
{
    lemma_first_index_facts(view_ids(v), id);
    let f = first_index(view_ids(v), id);
    let w = visibility_set(v, id, visible);
    lemma_update_keeps_ids(v, f, w[f]);
    assert(visibility_set(w, id, v[f].visible) =~= v);
}

/// Pointing a node at another mesh, then restoring the mesh it had, gives
/// back the records.
pub proof fn law_mesh_undo(v: Seq<NodeRecordView>, id: Seq<char>, mesh: Option<(Seq<char>, u32)>)
    requires
        first_index(view_ids(v), id) >= 0,
    ensures
        mesh_set(mesh_set(v, id, mesh), id, v[first_index(view_ids(v), id)].mesh) == v,
{
    lemma_first_index_facts(view_ids(v), id);
    let f = first_index(view_ids(v), id);
    let w = mesh_set(v, id, mesh);
    lemma_update_keeps_ids(v, f, w[f]);
    assert(mesh_set(w, id, v[f].mesh) =~= v);
}

/// Giving a node another parent, then restoring the parent it had, gives
/// back the records.
pub proof fn law_parent_undo(v: Seq<NodeRecordView>, id: Seq<char>, parent: Option<Seq<char>>)
    requires
        first_index(view_ids(v), id) >= 0,
    ensures
        parent_set(parent_set(v, id, parent), id, v[first_index(view_ids(v), id)].parent) == v,
{
    lemma_first_index_facts(view_ids(v), id);
    let f = first_index(view_ids(v), id);
    let w = parent_set(v, id, parent);
    lemma_update_keeps_ids(v, f, w[f]);
    assert(parent_set(w, id, v[f].parent) =~= v);
}

/// A name that no node names as its parent has no descendants.
proof fn lemma_childless_has_no_descendants(ids: Seq<Seq<char>>, par: Seq<Option<Seq<char>>>, x: Seq<char>)
    requires
        ids.len() == par.len(),
        forall|j: int| 0 <= j < par.len() ==> par[j] != Some(x),
    ensures
        subtree_finite(ids, par, x),
        descendants_spec(ids, par, x) == Seq::<Seq<char>>::empty(),
{
    assert forall|k: int| 0 <= k <= ids.len() implies (#[trigger] child_names_upto(ids, par, x, k)).len() == 0 by {
        lemma_no_child_upto(ids, par, x, k);
    }
    assert(child_names(ids, par, x).len() == 0);
    let one = seq![x];
    assert(one.drop_last() =~= Seq::<Seq<char>>::empty());
    assert(expand_names(ids, par, one) =~= expand_names(ids, par, one.drop_last()) + child_names(ids, par, x));
    assert(name_level(ids, par, x, 1) == expand_names(ids, par, name_level(ids, par, x, 0)));
    assert(name_level(ids, par, x, 1).len() == 0);
    lemma_descendants_at_empty_level(ids, par, x, 1);
    assert(descendants_upto(ids, par, x, 0) =~= Seq::<Seq<char>>::empty());
    assert(descendants_upto(ids, par, x, 1) =~= Seq::<Seq<char>>::empty());
}

proof fn lemma_no_child_upto(ids: Seq<Seq<char>>, par: Seq<Option<Seq<char>>>, x: Seq<char>, k: int)
    requires
        0 <= k <= par.len(),
        forall|j: int| 0 <= j < par.len() ==> par[j] != Some(x),
    ensures
        child_names_upto(ids, par, x, k).len() == 0,
    decreases k,
{
    if k > 0 {
        lemma_no_child_upto(ids, par, x, k - 1);
    }
}

/// Creating a node with a fresh id, then removing that node, gives back the
/// records: when no existing node names the new id as its parent (as in any
/// tree whose parents all exist) and the new node is not its own parent,
/// the removal takes exactly the created node.
pub proof fn law_add_then_remove(
    v: Seq<NodeRecordView>,
    id: Seq<char>,
    name: Seq<char>,
    parent: Option<Seq<char>>,
    kind: NodeKind,
    mesh: Option<(Seq<char>, u32)>,
    material: Option<Seq<char>>,
    index: u32,
)
    requires
        first_index(view_ids(v), id) < 0,
        forall|j: int| 0 <= j < v.len() ==> v[j].parent != Some(id),
        parent != Some(id),
    ensures
        ({
            let w = v.insert(
                insert_position(index, v.len()),
                created_record(id, name, parent, kind, mesh, material),
            );
            &&& subtree_finite(view_ids(w), view_parents(w), id)
            &&& kept_nodes(w, removal_marks(view_ids(w), view_parents(w), id)) == v
        }),
{
    lemma_first_index_facts(view_ids(v), id);
    let p = insert_position(index, v.len());
    let w = v.insert(p, created_record(id, name, parent, kind, mesh, material));
    let ids = view_ids(w);
    let par = view_parents(w);
    assert forall|j: int| 0 <= j < par.len() implies par[j] != Some(id) by {
        if j < p {
            assert(w[j] == v[j]);
        } else if j > p {
            assert(w[j] == v[j - 1]);
        }
    }
    lemma_childless_has_no_descendants(ids, par, id);
    let marks = removal_marks(ids, par, id);
    let excl = Set::new(|j: int| 0 <= j < marks.len() && marks[j]);
    assert forall|j: int| 0 <= j < w.len() implies (excl.contains(j) <==> j == p) by {
        assert(marks[j] == removed_with(ids, par, id, ids[j]));
        if j < p {
            assert(ids[j] == view_ids(v)[j]);
        } else if j > p {
            assert(ids[j] == view_ids(v)[j - 1]);
        }
    }
    lemma_sub_from_prefix(w, excl, 0, p);
    assert(sub_from(w, excl, p) == sub_from(w, excl, p + 1));
    lemma_sub_from_same_tail(w, excl, Set::empty(), p + 1);
    lemma_sub_from_all(w, p + 1);
    assert(w.subrange(0, p) + w.subrange(p + 1, w.len() as int) =~= v);
}

/// Switching the base gender, then switching back, gives back the records
/// when the character node shows the base mesh of the gender switched from
/// (or no base mesh at all), as a consistent project does.
pub proof fn law_base_gender_undo(v: Seq<NodeRecordView>, from: BaseGender, to: BaseGender)
    requires
        ({
            let f = first_index(view_ids(v), character_node_id());
            f >= 0 && is_base_mesh(v[f].mesh) ==> v[f].mesh == Some((asset_id_for(base_uri(from)), 0u32))
        }),
    ensures
        gender_switched(gender_switched(v, to), from) == v,
{
    lemma_first_index_facts(view_ids(v), character_node_id());
    let f = first_index(view_ids(v), character_node_id());
    let w = gender_switched(v, to);
    if f >= 0 && is_base_mesh(v[f].mesh) {
        lemma_update_keeps_ids(v, f, w[f]);
        assert(gender_switched(w, from) =~= v);
    }
}

/// Loading a preset, then undoing it (restoring the base gender, then the
/// mesh the character node had), gives back the records.
pub proof fn law_preset_undo(v: Seq<NodeRecordView>, preset: MeshPreset, gender: BaseGender)
    requires
        first_index(view_ids(v), character_node_id()) >= 0,
    ensures
        ({
            let c = character_node_id();
            let loaded = mesh_set(v, c, Some((asset_id_for(mesh_preset_uri(preset, gender)), 0u32)));
            mesh_set(gender_switched(loaded, gender), c, v[first_index(view_ids(v), c)].mesh) == v
        }),
{
    let c = character_node_id();
    lemma_first_index_facts(view_ids(v), c);
    let f = first_index(view_ids(v), c);
    let loaded = mesh_set(v, c, Some((asset_id_for(mesh_preset_uri(preset, gender)), 0u32)));
    lemma_update_keeps_ids(v, f, loaded[f]);
    let switched = gender_switched(loaded, gender);
    lemma_update_keeps_ids(loaded, f, switched[f]);
    assert(view_ids(switched) == view_ids(v));
    assert(mesh_set(switched, c, v[f].mesh) =~= v);
}

// ---------------------------------------------------------------------------
// Undoing a removal
// ---------------------------------------------------------------------------

/// Two sequences that agree off the excluded positions keep the same
/// elements.
proof fn lemma_sub_from_agree<T>(a: Seq<T>, b: Seq<T>, excl: Set<int>, i: int)
    requires
        a.len() == b.len(),
        forall|j: int| i <= j < a.len() && !excl.contains(j) ==> a[j] == b[j],
    ensures
        sub_from(a, excl, i) == sub_from(b, excl, i),
    decreases a.len() - i,
{
    if 0 <= i < a.len() {
        lemma_sub_from_agree(a, b, excl, i + 1);
    } else if i < 0 {
    }
}

/// The parent whose removal also removes node `j` was removed too.
pub open spec fn parent_removed(ids: Seq<Seq<char>>, par: Seq<Option<Seq<char>>>, id: Seq<char>, j: int) -> bool {
    par[j] matches Some(q) && removed_with(ids, par, id, q)
}

/// The records as the creations of the undo leave them: each removed node
/// created again, the others as they were.
pub open spec fn recreated(s: Seq<NodeRecordView>, id: Seq<char>) -> Seq<NodeRecordView> {
    let ids = view_ids(s);
    let par = view_parents(s);
    Seq::new(
        s.len(),
        |j: int|
            if removed_with(ids, par, id, ids[j]) {
                restored_record(s[j], parent_removed(ids, par, id, j))
            } else {
                s[j]
            },
    )
}

proof fn lemma_readd_is_reinsert(s: Seq<NodeRecordView>, id: Seq<char>, list: Seq<NodeRecordView>, t: int)
    requires
        s.len() <= u32::MAX,
        0 <= t <= restore_steps_upto(view_ids(s), view_parents(s), id, s.len() as int).len(),
    ensures
        ({
            let steps = restore_steps_upto(view_ids(s), view_parents(s), id, s.len() as int);
            readd(list, step_records(s, steps), steps.take(t)) == reinsert(
                list,
                recreated(s, id),
                step_positions(steps).take(t),
            )
        }),
    decreases t,
{
    let ids = view_ids(s);
    let par = view_parents(s);
    let steps = restore_steps_upto(ids, par, id, s.len() as int);
    let recs = step_records(s, steps);
    let ps = step_positions(steps);
    if t == 0 {
        assert(steps.take(0) =~= Seq::<RestoreStep>::empty());
        assert(ps.take(0) =~= Seq::<int>::empty());
    } else {
        lemma_readd_is_reinsert(s, id, list, t - 1);
        law_restore_plan_positions(ids, par, id, s.len() as int);
        assert(steps.take(t).drop_last() =~= steps.take(t - 1));
        assert(ps.take(t).drop_last() =~= ps.take(t - 1));
        let p = ps[t - 1];
        assert(ps.take(t).last() == p);
        assert(steps.take(t)[t - 1] == steps[t - 1]);
        assert(0 <= p < s.len());
        assert(ps.contains(p));
        assert(removed_with(ids, par, id, ids[p]));
        assert(recs[t - 1] == s[p]);
        assert(steps[t - 1].parent_inside == parent_removed(ids, par, id, p));
        assert(restored_record(recs[t - 1], steps[t - 1].parent_inside) == recreated(s, id)[p]);
        assert((steps[t - 1].position as u32) as int == p);
    }
}

/// The records after the first `t` relinks of the undo.
pub open spec fn relinked_upto(s: Seq<NodeRecordView>, id: Seq<char>, t: int) -> Seq<NodeRecordView> {
    let ids = view_ids(s);
    let par = view_parents(s);
    let steps = restore_steps_upto(ids, par, id, s.len() as int);
    let r = recreated(s, id);
    Seq::new(
        s.len(),
        |j: int|
            if exists|i: int| 0 <= i < t && step_positions(steps)[i] == j && steps[i].parent_inside {
                with_parent(r[j], s[j].parent)
            } else {
                r[j]
            },
    )
}

proof fn lemma_relink_steps(s: Seq<NodeRecordView>, id: Seq<char>, t: int)
    requires
        unique_ids(view_ids(s)),
        s.len() <= u32::MAX,
        0 <= t <= restore_steps_upto(view_ids(s), view_parents(s), id, s.len() as int).len(),
    ensures
        ({
            let steps = restore_steps_upto(view_ids(s), view_parents(s), id, s.len() as int);
            relink(recreated(s, id), step_records(s, steps), steps.take(t)) == relinked_upto(s, id, t)
        }),
        view_ids(relinked_upto(s, id, t)) == view_ids(s),
    decreases t,
{
    let ids = view_ids(s);
    let par = view_parents(s);
    let steps = restore_steps_upto(ids, par, id, s.len() as int);
    let recs = step_records(s, steps);
    let ps = step_positions(steps);
    let r = recreated(s, id);
    law_restore_plan_positions(ids, par, id, s.len() as int);
    assert(view_ids(relinked_upto(s, id, t)) =~= ids);
    if t == 0 {
        assert(steps.take(0) =~= Seq::<RestoreStep>::empty());
        assert(relinked_upto(s, id, 0) =~= r);
    } else {
        lemma_relink_steps(s, id, t - 1);
        assert(steps.take(t).drop_last() =~= steps.take(t - 1));
        let prev = relinked_upto(s, id, t - 1);
        let p = ps[t - 1];
        assert(0 <= p < s.len());
        assert(recs[t - 1] == s[p]);
        if steps[t - 1].parent_inside {
            lemma_first_index_facts(view_ids(prev), s[p].id);
            let f = first_index(view_ids(prev), s[p].id);
            assert(view_ids(prev)[p] == s[p].id);
            assert(f == p) by {
                if f != p {
                    assert(f < p);
                    assert(ids[f] == ids[p]);
                }
            }
            assert(prev[p] == r[p]) by {
                if exists|i: int| 0 <= i < t - 1 && ps[i] == p && steps[i].parent_inside {
                    let i = choose|i: int| 0 <= i < t - 1 && ps[i] == p && steps[i].parent_inside;
                    assert(ps[i] < ps[t - 1]);
                }
            }
            assert(parent_set(prev, s[p].id, s[p].parent) =~= relinked_upto(s, id, t)) by {
                assert forall|j: int| 0 <= j < s.len() implies #[trigger] relinked_upto(s, id, t)[j] == parent_set(
                    prev,
                    s[p].id,
                    s[p].parent,
                )[j] by {
                    if j != p {
                        if exists|i: int| 0 <= i < t && ps[i] == j && steps[i].parent_inside {
                            let i = choose|i: int| 0 <= i < t && ps[i] == j && steps[i].parent_inside;
                            assert(i != t - 1);
                            assert(exists|i: int| 0 <= i < t - 1 && ps[i] == j && steps[i].parent_inside);
                        }
                    }
                }
            }
        } else {
            assert(prev =~= relinked_upto(s, id, t)) by {
                assert forall|j: int| 0 <= j < s.len() implies #[trigger] relinked_upto(s, id, t)[j] == prev[j] by {
                    if exists|i: int| 0 <= i < t && ps[i] == j && steps[i].parent_inside {
                        let i = choose|i: int| 0 <= i < t && ps[i] == j && steps[i].parent_inside;
                        assert(i != t - 1);
                        assert(exists|i: int| 0 <= i < t - 1 && ps[i] == j && steps[i].parent_inside);
                    }
                }
            }
        }
    }
}

/// Removing a node, then applying the undo of the removal, gives back the
/// records: the removed nodes are created again at their former positions
/// in ascending order (a node whose parent was removed too as a root), then
/// those nodes get their parents back.
///
/// This holds for a list with distinct ids (a valid scene), hidden nodes
/// included: the undo creates each node as it was recorded.
pub proof fn law_remove_then_restore(s: Seq<NodeRecordView>, id: Seq<char>)
    requires
        unique_ids(view_ids(s)),
        s.len() <= u32::MAX,
    ensures
        ({
            let ids = view_ids(s);
            let par = view_parents(s);
            let steps = restore_steps_upto(ids, par, id, s.len() as int);
            let recs = step_records(s, steps);
            relink(readd(kept_nodes(s, removal_marks(ids, par, id)), recs, steps), recs, steps) == s
        }),
{
    let ids = view_ids(s);
    let par = view_parents(s);
    let n = s.len() as int;
    let steps = restore_steps_upto(ids, par, id, n);
    let recs = step_records(s, steps);
    let ps = step_positions(steps);
    let marks = removal_marks(ids, par, id);
    let r = recreated(s, id);
    law_restore_plan_positions(ids, par, id, n);
    let excl = Set::new(|j: int| 0 <= j < marks.len() && marks[j]);
    lemma_sub_from_agree(s, r, excl, 0);
    assert(kept_nodes(s, marks) == kept_nodes(r, marks));
    let kept = kept_nodes(s, marks);
    lemma_readd_is_reinsert(s, id, kept, steps.len() as int);
    assert(steps.take(steps.len() as int) =~= steps);
    assert(ps.take(ps.len() as int) =~= ps);
    law_reinsert_rebuilds(r, marks, ps);
    assert(readd(kept, recs, steps) == r);
    lemma_relink_steps(s, id, steps.len() as int);
    assert(relinked_upto(s, id, steps.len() as int) =~= s) by {
        assert forall|j: int| 0 <= j < n implies #[trigger] relinked_upto(s, id, steps.len() as int)[j] == s[j] by {
            if removed_with(ids, par, id, ids[j]) {
                assert(ps.contains(j));
                let i = choose|i: int| 0 <= i < ps.len() && ps[i] == j;
                if parent_removed(ids, par, id, j) {
                    assert(steps[i].parent_inside);
                } else {
                    assert(!steps[i].parent_inside);
                    assert(!exists|k: int| 0 <= k < steps.len() && ps[k] == j && steps[k].parent_inside) by {
                        if exists|k: int| 0 <= k < steps.len() && ps[k] == j && steps[k].parent_inside {
                            let k = choose|k: int| 0 <= k < steps.len() && ps[k] == j && steps[k].parent_inside;
                            if k < i {
                                assert(ps[k] < ps[i]);
                            } else if k > i {
                                assert(ps[i] < ps[k]);
                            }
                        }
                    }
                }
            } else {
                assert(!exists|k: int| 0 <= k < steps.len() && ps[k] == j && steps[k].parent_inside) by {
                    if exists|k: int| 0 <= k < steps.len() && ps[k] == j && steps[k].parent_inside {
                        let k = choose|k: int| 0 <= k < steps.len() && ps[k] == j && steps[k].parent_inside;
                        assert(ps.contains(j));
                    }
                }
            }
        }
    }
}

} // verus!
