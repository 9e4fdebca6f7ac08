//! The structural edits of a persisted scene: visibility, mesh reference,
//! parent link, creation and removal of nodes, and the character mesh
//! switches that follow the base gender and the mesh presets.
//!
//! A `NodeRecord` is a persisted scene node as these edits read and write it:
//! everything but its local transform, whose checks are numeric. Each edit has
//! its check (the first problem, in the order the editor reports it), its
//! application, and what its undo needs; the laws at the end show that the
//! undo puts the scene back.
use vstd::prelude::*;

use crate::hierarchy::{first_index, lemma_first_index_facts, NodeKind};
use crate::ids::{asset_id_for, canonical_id, AssetId, IdKind, MaterialId, NodeId, NodeIdKind};
use crate::node_commands::{kept_nodes, law_restore_plan_positions, restore_plan, restore_steps_upto, step_positions, RestoreStep, removal_mask, removed_with, sub_from, unknown_node, CommandError, CommandErrorView};
use crate::project::{base_mesh_asset_id, base_uri, BaseGender, MeshPreset, MeshRef, URI_PRESET_CUBE, URI_PRESET_SPHERE};
use crate::scene_tree::{link_ids, link_parents, opt_view, subtree_finite, NodeLink};

verus! {

/// A persisted scene node, without its local transform.
#[derive(Debug, PartialEq, Eq)]
pub struct NodeRecord {
    /// Stable id of the node.
    pub node_id: NodeId,
    /// Display name.
    pub name: String,
    /// Parent in the transform tree (`None`: a scene root).
    pub parent_id: Option<NodeId>,
    /// Specialised type of the node.
    pub kind: NodeKind,
    /// Whether the node is drawn.
    pub visible: bool,
    /// Mesh primitive drawn by the node.
    pub mesh: Option<MeshRef>,
    /// Material of the node.
    pub material_id: Option<MaterialId>,
}

/// Mathematical view of a `NodeRecord`.
pub struct NodeRecordView {
    pub id: Seq<char>,
    pub name: Seq<char>,
    pub parent: Option<Seq<char>>,
    pub kind: NodeKind,
    pub visible: bool,
    /// Asset id and primitive index of the mesh.
    pub mesh: Option<(Seq<char>, u32)>,
    pub material: Option<Seq<char>>,
}

/// The view of an optional mesh reference.
pub open spec fn mesh_view(m: Option<MeshRef>) -> Option<(Seq<char>, u32)> {
    match m {
        Some(r) => Some((r.asset_id@, r.primitive_index)),
        None => None,
    }
}

/// The view of an optional borrowed mesh reference.
pub open spec fn mesh_ref_view(m: Option<&MeshRef>) -> Option<(Seq<char>, u32)> {
    match m {
        Some(r) => Some((r.asset_id@, r.primitive_index)),
        None => None,
    }
}

/// The view of an optional material id.
pub open spec fn material_view(m: Option<MaterialId>) -> Option<Seq<char>> {
    match m {
        Some(id) => Some(id@),
        None => None,
    }
}

impl View for NodeRecord {
    type V = NodeRecordView;

    open spec fn view(&self) -> NodeRecordView {
        NodeRecordView {
            id: self.node_id@,
            name: self.name@,
            parent: opt_view(self.parent_id),
            kind: self.kind,
            visible: self.visible,
            mesh: mesh_view(self.mesh),
            material: material_view(self.material_id),
        }
    }
}

/// The views of the records, in order.
pub open spec fn record_views(s: Seq<NodeRecord>) -> Seq<NodeRecordView> {
    s.map_values(|r: NodeRecord| r@)
}

/// The node ids, in order.
pub open spec fn view_ids(v: Seq<NodeRecordView>) -> Seq<Seq<char>> {
    v.map_values(|r: NodeRecordView| r.id)
}

/// The parent ids, in order.
pub open spec fn view_parents(v: Seq<NodeRecordView>) -> Seq<Option<Seq<char>>> {
    v.map_values(|r: NodeRecordView| r.parent)
}

/// The views of the asset ids, in order.
pub open spec fn asset_views(s: Seq<AssetId>) -> Seq<Seq<char>> {
    s.map_values(|a: AssetId| a@)
}

/// `r` with another visibility.
pub open spec fn with_visible(r: NodeRecordView, visible: bool) -> NodeRecordView {
    NodeRecordView {
        id: r.id,
        name: r.name,
        parent: r.parent,
        kind: r.kind,
        visible,
        mesh: r.mesh,
        material: r.material,
    }
}

/// `r` with another mesh.
pub open spec fn with_mesh(r: NodeRecordView, mesh: Option<(Seq<char>, u32)>) -> NodeRecordView {
    NodeRecordView {
        id: r.id,
        name: r.name,
        parent: r.parent,
        kind: r.kind,
        visible: r.visible,
        mesh,
        material: r.material,
    }
}

/// `r` with another parent.
pub open spec fn with_parent(r: NodeRecordView, parent: Option<Seq<char>>) -> NodeRecordView {
    NodeRecordView {
        id: r.id,
        name: r.name,
        parent,
        kind: r.kind,
        visible: r.visible,
        mesh: r.mesh,
        material: r.material,
    }
}

/// The hierarchy part of the records: their ids and parent ids.
pub fn node_links(nodes: &[NodeRecord]) -> (links: Vec<NodeLink>)
    ensures
        links.len() == nodes.len(),
        link_ids(links@) == view_ids(record_views(nodes@)),
        link_parents(links@) == view_parents(record_views(nodes@)),
{
    let mut links: Vec<NodeLink> = Vec::new();
    let mut i: usize = 0;
    while i < nodes.len()
        invariant
            i <= nodes.len(),
            links.len() == i,
            forall|k: int| 0 <= k < i ==> (#[trigger] links@[k]).node_id@ == nodes@[k].node_id@,
            forall|k: int| 0 <= k < i ==> opt_view((#[trigger] links@[k]).parent_id) == opt_view(nodes@[k].parent_id),
        decreases nodes.len() - i,
    {
        let parent_id = match &nodes[i].parent_id {
            Some(p) => Some(p.duplicate()),
            None => None,
        };
        links.push(NodeLink { node_id: nodes[i].node_id.duplicate(), parent_id });
        i += 1;
    }
    assert(link_ids(links@) =~= view_ids(record_views(nodes@)));
    assert(link_parents(links@) =~= view_parents(record_views(nodes@)));
    links
}

/// Position of the first record with the id.
pub fn first_record(nodes: &[NodeRecord], x: &NodeId) -> (r: Option<usize>)
    ensures
        match r {
            Some(i) => i < nodes.len() && first_index(view_ids(record_views(nodes@)), x@) == i,
            None => first_index(view_ids(record_views(nodes@)), x@) == -1,
        },
{
    let ghost ids = view_ids(record_views(nodes@));
    let mut i: usize = 0;
    while i < nodes.len()
        invariant
            i <= nodes.len() == ids.len(),
            ids == view_ids(record_views(nodes@)),
            forall|j: int| 0 <= j < i ==> ids[j] != x@,
        decreases nodes.len() - i,
    {
        if nodes[i].node_id.same_as(x) {
            proof {
                crate::hierarchy::lemma_first_index_scan(ids, x@, i as int);
            }
            return Some(i);
        }
        i += 1;
    }
    proof {
        crate::hierarchy::lemma_first_index_scan(ids, x@, i as int);
    }
    None
}

fn unknown_node_error(id: &NodeId) -> (e: CommandError)
    ensures
        e@ == unknown_node(id@),
{
    CommandError::UnknownTarget { kind: "scene node", target: id.duplicate().into_string() }
}

/// Position of the first record with the id, or `UnknownTarget`.
pub fn find_record(nodes: &[NodeRecord], node_id: &NodeId) -> (r: Result<usize, CommandError>)
    ensures
        r matches Ok(i) ==> i < nodes.len() && i == first_index(view_ids(record_views(nodes@)), node_id@),
        first_index(view_ids(record_views(nodes@)), node_id@) >= 0 ==> r == Ok::<usize, CommandError>(
            first_index(view_ids(record_views(nodes@)), node_id@) as usize,
        ),
        first_index(view_ids(record_views(nodes@)), node_id@) < 0 ==> (r matches Err(e) && e@ == unknown_node(
            node_id@,
        )),
{
    match first_record(nodes, node_id) {
        Some(i) => Ok(i),
        None => Err(unknown_node_error(node_id)),
    }
}

// ---------------------------------------------------------------------------
// Visibility
// ---------------------------------------------------------------------------

/// The word for a visibility.
pub open spec fn visibility_word(visible: bool) -> Seq<char> {
    if visible {
        "visible"@
    } else {
        "hidden"@
    }
}

/// The first problem with showing or hiding the node `id` (`None`: valid).
pub open spec fn visibility_problem(v: Seq<NodeRecordView>, id: Seq<char>, visible: bool) -> Option<
    CommandErrorView,
> {
    let f = first_index(view_ids(v), id);
    if f < 0 {
        Some(unknown_node(id))
    } else if v[f].visible == visible {
        Some(CommandErrorView::NoOp("node '"@ + id + "' is already "@ + visibility_word(visible)))
    } else {
        None
    }
}

/// Checks a visibility change: the node exists and its visibility changes.
pub fn check_node_visibility(nodes: &[NodeRecord], node_id: &NodeId, visible: bool) -> (r: Result<
    (),
    CommandError,
>)
    ensures
        match r {
            Ok(_) => visibility_problem(record_views(nodes@), node_id@, visible) is None,
            Err(e) => visibility_problem(record_views(nodes@), node_id@, visible) == Some(e@),
        },
{
    let index = match find_record(nodes, node_id) {
        Ok(i) => i,
        Err(e) => {
            return Err(e);
        },
    };
    assert(record_views(nodes@)[index as int] == nodes@[index as int]@);
    if nodes[index].visible == visible {
        let mut message = String::from_str("node '");
        message.append(node_id.as_str());
        message.append("' is already ");
        message.append(if visible { "visible" } else { "hidden" });
        return Err(CommandError::NoOp(message));
    }
    Ok(())
}

/// The records after setting the visibility of the first node `id`.
pub open spec fn visibility_set(v: Seq<NodeRecordView>, id: Seq<char>, visible: bool) -> Seq<NodeRecordView> {
    let f = first_index(view_ids(v), id);
    v.update(f, with_visible(v[f], visible))
}

/// Shows or hides the first node with the id.
pub fn set_node_visibility(nodes: &mut Vec<NodeRecord>, node_id: &NodeId, visible: bool) -> (r: Result<
    (),
    CommandError,
>)
    ensures
        first_index(view_ids(record_views(old(nodes)@)), node_id@) < 0 ==> (r matches Err(e) && e@ == unknown_node(
            node_id@,
        )) && final(nodes)@ == old(nodes)@,
        first_index(view_ids(record_views(old(nodes)@)), node_id@) >= 0 ==> r is Ok && record_views(final(nodes)@)
            == visibility_set(record_views(old(nodes)@), node_id@, visible),
{
    let index = match find_record(nodes.as_slice(), node_id) {
        Ok(i) => i,
        Err(e) => {
            return Err(e);
        },
    };
    let ghost before = record_views(nodes@);
    assert(before[index as int] == nodes@[index as int]@);
    nodes[index].visible = visible;
    assert(record_views(nodes@) =~= visibility_set(before, node_id@, visible));
    Ok(())
}

/// The visibility an undo restores: that of the first node with the id.
pub fn current_visibility(nodes: &[NodeRecord], node_id: &NodeId) -> (r: Result<bool, CommandError>)
    ensures
        first_index(view_ids(record_views(nodes@)), node_id@) < 0 ==> (r matches Err(e) && e@ == unknown_node(
            node_id@,
        )),
        first_index(view_ids(record_views(nodes@)), node_id@) >= 0 ==> r == Ok::<bool, CommandError>(
            record_views(nodes@)[first_index(view_ids(record_views(nodes@)), node_id@)].visible,
        ),
{
    match find_record(nodes, node_id) {
        Ok(i) => {
            assert(record_views(nodes@)[i as int] == nodes@[i as int]@);
            Ok(nodes[i].visible)
        },
        Err(e) => Err(e),
    }
}

// ---------------------------------------------------------------------------
// Mesh reference
// ---------------------------------------------------------------------------

/// The error naming an asset that is not registered in the project.
pub open spec fn unknown_asset(id: Seq<char>) -> CommandErrorView {
    CommandErrorView::UnknownTarget { kind: "asset"@, target: id }
}

/// `true` when the asset is registered.
pub fn asset_known(assets: &[AssetId], id: &AssetId) -> (b: bool)
    ensures
        b == asset_views(assets@).contains(id@),
{
    let mut i: usize = 0;
    while i < assets.len()
        invariant
            i <= assets.len(),
            forall|j: int| 0 <= j < i ==> asset_views(assets@)[j] != id@,
        decreases assets.len() - i,
    {
        if assets[i].same_as(id) {
            assert(asset_views(assets@)[i as int] == id@);
            return true;
        }
        i += 1;
    }
    false
}

/// The first problem with pointing the node `id` at `mesh` (`None`: valid).
pub open spec fn mesh_problem(
    v: Seq<NodeRecordView>,
    assets: Seq<Seq<char>>,
    id: Seq<char>,
    mesh: Option<(Seq<char>, u32)>,
) -> Option<CommandErrorView> {
    if first_index(view_ids(v), id) < 0 {
        Some(unknown_node(id))
    } else {
        match mesh {
            Some(m) => if assets.contains(m.0) {
                None
            } else {
                Some(unknown_asset(m.0))
            },
            None => None,
        }
    }
}

/// Checks a mesh change: the node exists and a new mesh names a registered
/// asset (a command references assets, it never registers one).
pub fn check_node_mesh(nodes: &[NodeRecord], assets: &[AssetId], node_id: &NodeId, mesh: Option<&MeshRef>) -> (r:
    Result<(), CommandError>)
    ensures
        match r {
            Ok(_) => mesh_problem(record_views(nodes@), asset_views(assets@), node_id@, mesh_ref_view(mesh)) is None,
            Err(e) => mesh_problem(record_views(nodes@), asset_views(assets@), node_id@, mesh_ref_view(mesh))
                == Some(e@),
        },
{
    if let Err(e) = find_record(nodes, node_id) {
        return Err(e);
    }
    if let Some(m) = mesh {
        if !asset_known(assets, &m.asset_id) {
            return Err(
                CommandError::UnknownTarget { kind: "asset", target: m.asset_id.duplicate().into_string() },
            );
        }
    }
    Ok(())
}

/// The records after pointing the first node `id` at `mesh`.
pub open spec fn mesh_set(v: Seq<NodeRecordView>, id: Seq<char>, mesh: Option<(Seq<char>, u32)>) -> Seq<
    NodeRecordView,
> {
    let f = first_index(view_ids(v), id);
    v.update(f, with_mesh(v[f], mesh))
}

/// A copy of a mesh reference.
pub fn copy_mesh_ref(m: &MeshRef) -> (c: MeshRef)
    ensures
        c.asset_id@ == m.asset_id@,
        c.primitive_index == m.primitive_index,
{
    MeshRef { asset_id: m.asset_id.duplicate(), primitive_index: m.primitive_index }
}

/// Points the first node with the id at another mesh (or at none).
pub fn set_node_mesh(nodes: &mut Vec<NodeRecord>, node_id: &NodeId, mesh: Option<MeshRef>) -> (r: Result<
    (),
    CommandError,
>)
    ensures
        first_index(view_ids(record_views(old(nodes)@)), node_id@) < 0 ==> (r matches Err(e) && e@ == unknown_node(
            node_id@,
        )) && final(nodes)@ == old(nodes)@,
        first_index(view_ids(record_views(old(nodes)@)), node_id@) >= 0 ==> r is Ok && record_views(final(nodes)@)
            == mesh_set(record_views(old(nodes)@), node_id@, mesh_view(mesh)),
{
    let index = match find_record(nodes.as_slice(), node_id) {
        Ok(i) => i,
        Err(e) => {
            return Err(e);
        },
    };
    let ghost before = record_views(nodes@);
    let ghost m = mesh_view(mesh);
    assert(before[index as int] == nodes@[index as int]@);
    nodes[index].mesh = mesh;
    assert(record_views(nodes@) =~= mesh_set(before, node_id@, m));
    Ok(())
}

/// The mesh an undo restores: that of the first node with the id.
pub fn current_mesh(nodes: &[NodeRecord], node_id: &NodeId) -> (r: Result<Option<MeshRef>, CommandError>)
    ensures
        first_index(view_ids(record_views(nodes@)), node_id@) < 0 ==> (r matches Err(e) && e@ == unknown_node(
            node_id@,
        )),
        first_index(view_ids(record_views(nodes@)), node_id@) >= 0 ==> (r matches Ok(m) && mesh_view(m)
            == record_views(nodes@)[first_index(view_ids(record_views(nodes@)), node_id@)].mesh),
{
    match find_record(nodes, node_id) {
        Ok(i) => {
            assert(record_views(nodes@)[i as int] == nodes@[i as int]@);
            match &nodes[i].mesh {
                Some(m) => Ok(Some(copy_mesh_ref(m))),
                None => Ok(None),
            }
        },
        Err(e) => Err(e),
    }
}

// ---------------------------------------------------------------------------
// Parent link
// ---------------------------------------------------------------------------

/// The records after giving the first node `id` another parent.
pub open spec fn parent_set(v: Seq<NodeRecordView>, id: Seq<char>, parent: Option<Seq<char>>) -> Seq<
    NodeRecordView,
> {
    let f = first_index(view_ids(v), id);
    v.update(f, with_parent(v[f], parent))
}

/// Gives the first node with the id another parent (the checks of
/// `validate_set_node_parent` come first).
pub fn set_node_parent(nodes: &mut Vec<NodeRecord>, node_id: &NodeId, parent_id: Option<NodeId>) -> (r: Result<
    (),
    CommandError,
>)
    ensures
        first_index(view_ids(record_views(old(nodes)@)), node_id@) < 0 ==> (r matches Err(e) && e@ == unknown_node(
            node_id@,
        )) && final(nodes)@ == old(nodes)@,
        first_index(view_ids(record_views(old(nodes)@)), node_id@) >= 0 ==> r is Ok && record_views(final(nodes)@)
            == parent_set(record_views(old(nodes)@), node_id@, opt_view(parent_id)),
{
    let index = match find_record(nodes.as_slice(), node_id) {
        Ok(i) => i,
        Err(e) => {
            return Err(e);
        },
    };
    let ghost before = record_views(nodes@);
    let ghost p = opt_view(parent_id);
    assert(before[index as int] == nodes@[index as int]@);
    nodes[index].parent_id = parent_id;
    assert(record_views(nodes@) =~= parent_set(before, node_id@, p));
    Ok(())
}

/// The parent an undo restores: that of the first node with the id.
pub fn current_parent(nodes: &[NodeRecord], node_id: &NodeId) -> (r: Result<Option<NodeId>, CommandError>)
    ensures
        first_index(view_ids(record_views(nodes@)), node_id@) < 0 ==> (r matches Err(e) && e@ == unknown_node(
            node_id@,
        )),
        first_index(view_ids(record_views(nodes@)), node_id@) >= 0 ==> (r matches Ok(p) && opt_view(p)
            == record_views(nodes@)[first_index(view_ids(record_views(nodes@)), node_id@)].parent),
{
    match find_record(nodes, node_id) {
        Ok(i) => {
            assert(record_views(nodes@)[i as int] == nodes@[i as int]@);
            match &nodes[i].parent_id {
                Some(p) => Ok(Some(p.duplicate())),
                None => Ok(None),
            }
        },
        Err(e) => Err(e),
    }
}

// ---------------------------------------------------------------------------
// Creation and removal
// ---------------------------------------------------------------------------

/// Where a node created at `index` lands: `index`, or the end of a shorter list.
pub open spec fn insert_position(index: u32, len: nat) -> int {
    if index < len {
        index as int
    } else {
        len as int
    }
}

/// The record a creation makes: visible, with the given fields.
pub open spec fn created_record(
    id: Seq<char>,
    name: Seq<char>,
    parent: Option<Seq<char>>,
    kind: NodeKind,
    mesh: Option<(Seq<char>, u32)>,
    material: Option<Seq<char>>,
) -> NodeRecordView {
    NodeRecordView { id, name, parent, kind, visible: true, mesh, material }
}

/// Creates a visible node at position `index` (at the end when the list is
/// shorter); the checks of `validate_add_node` come first.
pub fn add_node(
    nodes: &mut Vec<NodeRecord>,
    node_id: NodeId,
    name: String,
    parent_id: Option<NodeId>,
    kind: NodeKind,
    mesh: Option<MeshRef>,
    material_id: Option<MaterialId>,
    index: u32,
)
    ensures
        record_views(final(nodes)@) == record_views(old(nodes)@).insert(
            insert_position(index, old(nodes)@.len()),
            created_record(
                node_id@,
                name@,
                opt_view(parent_id),
                kind,
                mesh_view(mesh),
                material_view(material_id),
            ),
        ),
{
    let ghost before = record_views(nodes@);
    let ghost created = created_record(
        node_id@,
        name@,
        opt_view(parent_id),
        kind,
        mesh_view(mesh),
        material_view(material_id),
    );
    let position: usize = if (index as usize) < nodes.len() {
        index as usize
    } else {
        nodes.len()
    };
    let record = NodeRecord { node_id, name, parent_id, kind, visible: true, mesh, material_id };
    assert(record@ == created);
    nodes.insert(position, record);
    assert(record_views(nodes@) =~= before.insert(position as int, created));
}

/// The marks of a removal of the node named `id`: the node and its subtree.
pub open spec fn removal_marks(ids: Seq<Seq<char>>, par: Seq<Option<Seq<char>>>, id: Seq<char>) -> Seq<bool> {
    Seq::new(ids.len(), |j: int| removed_with(ids, par, id, ids[j]))
}

/// Removes a node together with its whole subtree, keeping the order of the
/// others.
pub fn remove_node(nodes: &mut Vec<NodeRecord>, node_id: &NodeId)
    requires
        subtree_finite(view_ids(record_views(old(nodes)@)), view_parents(record_views(old(nodes)@)), node_id@),
    ensures
        record_views(final(nodes)@) == kept_nodes(
            record_views(old(nodes)@),
            removal_marks(view_ids(record_views(old(nodes)@)), view_parents(record_views(old(nodes)@)), node_id@),
        ),
{
    let ghost s = record_views(nodes@);
    let ghost marks = removal_marks(view_ids(s), view_parents(s), node_id@);
    let ghost excl = Set::new(|j: int| 0 <= j < marks.len() && marks[j]);
    let links = node_links(nodes.as_slice());
    let mask = removal_mask(links.as_slice(), node_id);
    assert(mask@ =~= marks);
    let mut j: usize = nodes.len();
    assert(s.take(j as int) =~= s);
    while j > 0
        invariant
            j <= mask.len() == s.len() == marks.len(),
            mask@ == marks,
            excl == Set::new(|e: int| 0 <= e < marks.len() && marks[e]),
            record_views(nodes@) == s.take(j as int) + sub_from(s, excl, j as int),
        decreases j,
    {
        assert(record_views(nodes@).len() == nodes@.len());
        assert(s.take(j as int).len() == j);
        j -= 1;
        let ghost prev = record_views(nodes@);
        if mask[j] {
            nodes.remove(j);
            assert(sub_from(s, excl, j as int) == sub_from(s, excl, j as int + 1));
            assert(record_views(nodes@) =~= prev.remove(j as int));
            assert(prev.remove(j as int) =~= s.take(j as int) + sub_from(s, excl, j as int));
        } else {
            assert(sub_from(s, excl, j as int) == seq![s[j as int]] + sub_from(s, excl, j as int + 1));
            assert(s.take(j as int + 1) + sub_from(s, excl, j as int + 1) =~= s.take(j as int) + sub_from(
                s,
                excl,
                j as int,
            ));
        }
    }
    assert(s.take(0) + sub_from(s, excl, 0) =~= sub_from(s, excl, 0));
}

// ---------------------------------------------------------------------------
// The character mesh: base gender and presets
// ---------------------------------------------------------------------------

/// Id of the node that carries the character mesh.
pub open spec fn character_node_id() -> Seq<char> {
    canonical_id(NodeIdKind::spec_prefix(), "character_base"@)
}

/// `true` when the mesh is one of the canonical base meshes.
pub open spec fn is_base_mesh(m: Option<(Seq<char>, u32)>) -> bool {
    m matches Some(r) && (r.0 == asset_id_for(base_uri(BaseGender::Male)) || r.0 == asset_id_for(
        base_uri(BaseGender::Female),
    ))
}

/// The records after switching the base gender: a character node that shows
/// a canonical base mesh shows the base mesh of the new gender.
pub open spec fn gender_switched(v: Seq<NodeRecordView>, gender: BaseGender) -> Seq<NodeRecordView> {
    let f = first_index(view_ids(v), character_node_id());
    if f >= 0 && is_base_mesh(v[f].mesh) {
        v.update(f, with_mesh(v[f], Some((asset_id_for(base_uri(gender)), 0u32))))
    } else {
        v
    }
}

/// Keeps the character mesh in step with a new base gender: a canonical base
/// mesh is swapped for that of `gender`; any other mesh is left alone.
pub fn switch_base_mesh(nodes: &mut Vec<NodeRecord>, gender: BaseGender)
    ensures
        record_views(final(nodes)@) == gender_switched(record_views(old(nodes)@), gender),
{
    let ghost before = record_views(nodes@);
    let character = NodeId::canonical_character();
    if let Some(i) = first_record(nodes.as_slice(), &character) {
        assert(before[i as int] == nodes@[i as int]@);
        let is_base = match &nodes[i].mesh {
            Some(m) => m.asset_id.same_as(&base_mesh_asset_id(BaseGender::Male)) || m.asset_id.same_as(
                &base_mesh_asset_id(BaseGender::Female),
            ),
            None => false,
        };
        if is_base {
            nodes[i].mesh = Some(MeshRef { asset_id: base_mesh_asset_id(gender), primitive_index: 0 });
            assert(record_views(nodes@) =~= gender_switched(before, gender));
        }
    }
}

/// Asset URI of a mesh preset for a base gender.
pub open spec fn mesh_preset_uri(preset: MeshPreset, gender: BaseGender) -> Seq<char> {
    match preset {
        MeshPreset::Cube => URI_PRESET_CUBE@,
        MeshPreset::Sphere => URI_PRESET_SPHERE@,
        MeshPreset::Mannequin => base_uri(gender),
    }
}

/// The first problem with loading a preset (`None`: valid): its built-in
/// asset must be registered.
pub open spec fn preset_problem(assets: Seq<Seq<char>>, preset: MeshPreset, gender: BaseGender) -> Option<
    CommandErrorView,
> {
    let a = asset_id_for(mesh_preset_uri(preset, gender));
    if assets.contains(a) {
        None
    } else {
        Some(unknown_asset(a))
    }
}

/// Checks a preset load: the built-in asset of the preset is registered.
pub fn check_mesh_preset(assets: &[AssetId], preset: MeshPreset, gender: BaseGender) -> (r: Result<
    (),
    CommandError,
>)
    ensures
        match r {
            Ok(_) => preset_problem(asset_views(assets@), preset, gender) is None,
            Err(e) => preset_problem(asset_views(assets@), preset, gender) == Some(e@),
        },
{
    let asset = AssetId::for_uri(preset.uri(gender));
    if asset_known(assets, &asset) {
        Ok(())
    } else {
        Err(CommandError::UnknownTarget { kind: "asset", target: asset.into_string() })
    }
}

/// Points the character node at the mesh of a preset.
pub fn load_mesh_preset(nodes: &mut Vec<NodeRecord>, preset: MeshPreset, gender: BaseGender) -> (r: Result<
    (),
    CommandError,
>)
    ensures
        first_index(view_ids(record_views(old(nodes)@)), character_node_id()) < 0 ==> (r matches Err(e) && e@
            == unknown_node(character_node_id())) && final(nodes)@ == old(nodes)@,
        first_index(view_ids(record_views(old(nodes)@)), character_node_id()) >= 0 ==> r is Ok && record_views(
            final(nodes)@,
        ) == mesh_set(
            record_views(old(nodes)@),
            character_node_id(),
            Some((asset_id_for(mesh_preset_uri(preset, gender)), 0u32)),
        ),
{
    let character = NodeId::canonical_character();
    let mesh = MeshRef { asset_id: AssetId::for_uri(preset.uri(gender)), primitive_index: 0 };
    set_node_mesh(nodes, &character, Some(mesh))
}

// ---------------------------------------------------------------------------
// Undoing a removal
// ---------------------------------------------------------------------------

/// The record a removed node is created again as by the undo: as it was
/// recorded, but a root when its parent was removed too.
pub open spec fn restored_record(r: NodeRecordView, parent_inside: bool) -> NodeRecordView {
    with_parent(
        r,
        if parent_inside {
            None
        } else {
            r.parent
        },
    )
}

/// `list` after the creations of an undone removal: for each step in turn,
/// the record `recs[i]` of step `i` is created at the step's former
/// position.
pub open spec fn readd(list: Seq<NodeRecordView>, recs: Seq<NodeRecordView>, steps: Seq<RestoreStep>) -> Seq<
    NodeRecordView,
>
    decreases steps.len(),
{
    if steps.len() == 0 {
        list
    } else {
        let k = steps.len() - 1;
        let l = readd(list, recs, steps.drop_last());
        l.insert(
            insert_position(steps[k].position as u32, l.len()),
            restored_record(recs[k], steps[k].parent_inside),
        )
    }
}

/// `list` after the parent links of an undone removal: each recreated node
/// whose parent was removed too gets that parent back.
pub open spec fn relink(list: Seq<NodeRecordView>, recs: Seq<NodeRecordView>, steps: Seq<RestoreStep>) -> Seq<
    NodeRecordView,
>
    decreases steps.len(),
{
    if steps.len() == 0 {
        list
    } else {
        let k = steps.len() - 1;
        let l = relink(list, recs, steps.drop_last());
        if steps[k].parent_inside {
            parent_set(l, recs[k].id, recs[k].parent)
        } else {
            l
        }
    }
}

proof fn lemma_readd_keeps(list: Seq<NodeRecordView>, recs: Seq<NodeRecordView>, steps: Seq<RestoreStep>, x: Seq<char>)
    requires
        view_ids(list).contains(x),
    ensures
        view_ids(readd(list, recs, steps)).contains(x),
    decreases steps.len(),
{
    if steps.len() > 0 {
        let k = steps.len() - 1;
        let l = readd(list, recs, steps.drop_last());
        lemma_readd_keeps(list, recs, steps.drop_last(), x);
        let j = choose|j: int| 0 <= j < view_ids(l).len() && view_ids(l)[j] == x;
        let p = insert_position(steps[k].position as u32, l.len());
        let w = l.insert(p, restored_record(recs[k], steps[k].parent_inside));
        if j < p {
            assert(view_ids(w)[j] == x);
        } else {
            assert(view_ids(w)[j + 1] == x);
        }
    }
}

proof fn lemma_readd_holds(list: Seq<NodeRecordView>, recs: Seq<NodeRecordView>, steps: Seq<RestoreStep>, k: int)
    requires
        0 <= k < steps.len(),
    ensures
        view_ids(readd(list, recs, steps)).contains(recs[k].id),
    decreases steps.len(),
{
    let last = steps.len() - 1;
    let l = readd(list, recs, steps.drop_last());
    let p = insert_position(steps[last].position as u32, l.len());
    let w = l.insert(p, restored_record(recs[last], steps[last].parent_inside));
    if k == last {
        assert(view_ids(w)[p] == recs[k].id);
    } else {
        lemma_readd_holds(list, recs, steps.drop_last(), k);
        lemma_readd_keeps(l, recs, Seq::empty(), recs[k].id);
        let j = choose|j: int| 0 <= j < view_ids(l).len() && view_ids(l)[j] == recs[k].id;
        if j < p {
            assert(view_ids(w)[j] == recs[k].id);
        } else {
            assert(view_ids(w)[j + 1] == recs[k].id);
        }
    }
}

/// Applies the undo of a removal: creates again, in order, the node of each
/// step (`removed[i]` for `steps[i]`) at its former position, as it was
/// recorded (its visibility included) but as a root when its parent was
/// removed too, then gives those nodes their parents back.
pub fn restore_removed(nodes: &mut Vec<NodeRecord>, removed: Vec<NodeRecord>, steps: &[RestoreStep])
    requires
        removed.len() == steps.len(),
    ensures
        record_views(final(nodes)@) == relink(
            readd(record_views(old(nodes)@), record_views(removed@), steps@),
            record_views(removed@),
            steps@,
        ),
{
    let ghost start = record_views(nodes@);
    let ghost recs = record_views(removed@);
    let mut pending = removed;
    let mut links: Vec<(NodeId, Option<NodeId>)> = Vec::new();
    let mut i: usize = 0;
    while i < steps.len()
        invariant
            i <= steps.len() == recs.len(),
            record_views(pending@) == recs.subrange(i as int, recs.len() as int),
            record_views(nodes@) == readd(start, recs, steps@.take(i as int)),
            links.len() == i,
            forall|k: int| 0 <= k < i ==> (#[trigger] links@[k]).0@ == recs[k].id,
            forall|k: int| 0 <= k < i ==> opt_view((#[trigger] links@[k]).1) == recs[k].parent,
        decreases steps.len() - i,
    {
        let ghost old_pending = pending@;
        assert(record_views(old_pending).len() == old_pending.len());
        assert(record_views(old_pending)[0] == recs[i as int]);
        let record = pending.remove(0);
        assert(record_views(pending@) =~= record_views(old_pending).subrange(1, old_pending.len() as int));
        assert(record_views(pending@) =~= recs.subrange(i as int + 1, recs.len() as int));
        let NodeRecord { node_id, name, parent_id, kind, visible, mesh, material_id } = record;
        let keep_id = node_id.duplicate();
        let keep_parent = match &parent_id {
            Some(p) => Some(p.duplicate()),
            None => None,
        };
        let parent = if steps[i].parent_inside {
            None
        } else {
            parent_id
        };
        let index: u32 = #[verifier::truncate] (steps[i].position as u32);
        let position: usize = if (index as usize) < nodes.len() {
            index as usize
        } else {
            nodes.len()
        };
        let ghost before = record_views(nodes@);
        let restored = NodeRecord { node_id, name, parent_id: parent, kind, visible, mesh, material_id };
        assert(restored@ == restored_record(recs[i as int], steps@[i as int].parent_inside));
        nodes.insert(position, restored);
        assert(record_views(nodes@) =~= before.insert(insert_position(index, before.len()), restored@));
        links.push((keep_id, keep_parent));
        assert(steps@.take(i as int + 1).drop_last() =~= steps@.take(i as int));
        i += 1;
    }
    assert(steps@.take(steps.len() as int) =~= steps@);
    let ghost added = record_views(nodes@);
    let mut t: usize = 0;
    while t < steps.len()
        invariant
            t <= steps.len() == recs.len() == links.len(),
            added == readd(start, recs, steps@),
            record_views(nodes@) == relink(added, recs, steps@.take(t as int)),
            view_ids(record_views(nodes@)) == view_ids(added),
            forall|k: int| 0 <= k < links.len() ==> (#[trigger] links@[k]).0@ == recs[k].id,
            forall|k: int| 0 <= k < links.len() ==> opt_view((#[trigger] links@[k]).1) == recs[k].parent,
        decreases steps.len() - t,
    {
        assert(steps@.take(t as int + 1).drop_last() =~= steps@.take(t as int));
        if steps[t].parent_inside {
            proof {
                lemma_readd_holds(start, recs, steps@, t as int);
                lemma_first_index_facts(view_ids(added), recs[t as int].id);
            }
            let ghost before = record_views(nodes@);
            let parent = match &links[t].1 {
                Some(p) => Some(p.duplicate()),
                None => None,
            };
            let _ = set_node_parent(nodes, &links[t].0, parent);
            proof {
                let f = first_index(view_ids(before), recs[t as int].id);
                assert(view_ids(record_views(nodes@)) =~= view_ids(before));
            }
        }
        t += 1;
    }
    assert(steps@.take(steps.len() as int) =~= steps@);
}

/// The record of each step of a plan over `s`.
pub open spec fn step_records(s: Seq<NodeRecordView>, steps: Seq<RestoreStep>) -> Seq<NodeRecordView> {
    steps.map_values(|st: RestoreStep| s[st.position as int])
}

/// A copy of an optional material id.
fn copy_material(m: &Option<MaterialId>) -> (c: Option<MaterialId>)
    ensures
        material_view(c) == material_view(*m),
{
    match m {
        Some(id) => Some(id.duplicate()),
        None => None,
    }
}

/// A copy of a record.
pub fn copy_record(r: &NodeRecord) -> (c: NodeRecord)
    ensures
        c@ == r@,
{
    NodeRecord {
        node_id: r.node_id.duplicate(),
        name: r.name.clone(),
        parent_id: match &r.parent_id {
            Some(p) => Some(p.duplicate()),
            None => None,
        },
        kind: r.kind,
        visible: r.visible,
        mesh: match &r.mesh {
            Some(m) => Some(copy_mesh_ref(m)),
            None => None,
        },
        material_id: copy_material(&r.material_id),
    }
}

/// What the undo of removing `node_id` needs, taken before the removal: the
/// re-creation plan and a copy of the record of each of its steps.
pub fn removal_undo(nodes: &[NodeRecord], node_id: &NodeId) -> (r: Result<
    (Vec<NodeRecord>, Vec<RestoreStep>),
    CommandError,
>)
    requires
        first_index(view_ids(record_views(nodes@)), node_id@) >= 0 ==> subtree_finite(
            view_ids(record_views(nodes@)),
            view_parents(record_views(nodes@)),
            node_id@,
        ),
    ensures
        first_index(view_ids(record_views(nodes@)), node_id@) < 0 ==> (r matches Err(e) && e@ == unknown_node(
            node_id@,
        )),
        first_index(view_ids(record_views(nodes@)), node_id@) >= 0 ==> (r matches Ok(
            plan,
        ) && plan.1@ == restore_steps_upto(
            view_ids(record_views(nodes@)),
            view_parents(record_views(nodes@)),
            node_id@,
            nodes.len() as int,
        ) && record_views(plan.0@) == step_records(record_views(nodes@), plan.1@)),
{
    let links = node_links(nodes);
    let steps = match restore_plan(links.as_slice(), node_id) {
        Ok(steps) => steps,
        Err(e) => {
            return Err(e);
        },
    };
    let ghost v = record_views(nodes@);
    proof {
        law_restore_plan_positions(view_ids(v), view_parents(v), node_id@, nodes.len() as int);
        assert(step_positions(steps@).len() == steps@.len());
        assert forall|i: int| 0 <= i < steps@.len() implies (#[trigger] steps@[i]).position < nodes.len() by {
            assert(step_positions(steps@)[i] == steps@[i].position as int);
        }
    }
    let mut recs: Vec<NodeRecord> = Vec::new();
    let mut i: usize = 0;
    while i < steps.len()
        invariant
            i <= steps.len(),
            v == record_views(nodes@),
            forall|k: int| 0 <= k < steps@.len() ==> (#[trigger] steps@[k]).position < nodes.len(),
            record_views(recs@) == step_records(v, steps@.take(i as int)),
        decreases steps.len() - i,
    {
        let position = steps[i].position;
        assert(v[position as int] == nodes@[position as int]@);
        let ghost prev = recs@;
        let copy = copy_record(&nodes[position]);
        recs.push(copy);
        assert(record_views(recs@) =~= record_views(prev).push(v[position as int]));
        assert(steps@.take(i as int + 1) =~= steps@.take(i as int).push(steps@[i as int]));
        assert(step_records(v, steps@.take(i as int + 1)) =~= step_records(v, steps@.take(i as int)).push(
            v[position as int],
        ));
        i += 1;
    }
    assert(steps@.take(steps.len() as int) =~= steps@);
    Ok((recs, steps))
}

} // verus!
