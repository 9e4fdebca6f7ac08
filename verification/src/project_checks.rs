//! The structural checks of a project document, in the order the project
//! validation reports them: the scene has nodes; node by node, an unrepeated
//! id, a registered mesh asset, a registered material and a finite transform;
//! a valid tree; material and asset entries filed under their own ids, with
//! portable URIs; animation tracks on existing nodes; an existing active clip.
//!
//! The numeric checks of the document (ranges of the character values,
//! camera, lights, render) come before and after these; whether a transform
//! is finite is decided by the caller and handed in per node.
use vstd::prelude::*;

use crate::hierarchy::{
    acyclic, first_index, hierarchy_message, lemma_first_index_facts, parents_resolve, topology_outcome, unique_ids,
    HierarchyErrorView,
};
use crate::ids::{AnimationClipId, AssetId, MaterialId, NodeId};
use crate::project::{ProjectError, ProjectErrorView};
use crate::scene_edits::{first_record, node_links, record_views, view_ids, view_parents, NodeRecord, NodeRecordView};
use crate::scene_tree::validate_hierarchy;

verus! {

/// Whether each part of a node's local transform is finite.
#[derive(Debug, Clone, Copy, PartialEq, Eq, Structural)]
pub struct TransformFiniteness {
    pub translation: bool,
    pub scale: bool,
    pub rotation: bool,
}

/// A registered asset: the key it is filed under, the id it carries, and
/// whether its URI is an absolute machine path.
#[derive(Debug)]
pub struct AssetRecord {
    pub key: AssetId,
    pub asset_id: AssetId,
    pub uri_is_absolute: bool,
}

/// A material entry: the key it is filed under and the id it carries.
#[derive(Debug)]
pub struct MaterialRecord {
    pub key: MaterialId,
    pub material_id: MaterialId,
}

/// An animation clip: its key and the nodes its tracks animate, in order.
#[derive(Debug)]
pub struct ClipRecord {
    pub key: AnimationClipId,
    pub track_nodes: Vec<NodeId>,
}

/// The first `Some` among `f(0), ..., f(k - 1)`.
pub open spec fn first_problem(f: spec_fn(int) -> Option<ProjectErrorView>, k: int) -> Option<ProjectErrorView>
    decreases k,
{
    if k <= 0 {
        None
    } else {
        match first_problem(f, k - 1) {
            Some(e) => Some(e),
            None => f(k - 1),
        }
    }
}

/// The keys of the assets.
pub open spec fn asset_keys(s: Seq<AssetRecord>) -> Seq<Seq<char>> {
    s.map_values(|a: AssetRecord| a.key@)
}

/// The keys of the materials.
pub open spec fn material_keys(s: Seq<MaterialRecord>) -> Seq<Seq<char>> {
    s.map_values(|m: MaterialRecord| m.key@)
}

/// The keys of the clips.
pub open spec fn clip_keys(s: Seq<ClipRecord>) -> Seq<Seq<char>> {
    s.map_values(|c: ClipRecord| c.key@)
}

/// The error for a part of a transform that is not finite.
pub open spec fn not_finite(field: Seq<char>) -> ProjectErrorView {
    ProjectErrorView::InvalidValue { field, detail: "must be a finite number"@ }
}

/// What is wrong with node `i`, if anything.
pub open spec fn node_problem(
    v: Seq<NodeRecordView>,
    fin: Seq<TransformFiniteness>,
    assets: Seq<Seq<char>>,
    materials: Seq<Seq<char>>,
    i: int,
) -> Option<ProjectErrorView> {
    let ids = view_ids(v);
    if first_index(ids, ids[i]) < i {
        Some(ProjectErrorView::DuplicateId { kind: "scene node"@, id: ids[i] })
    } else if v[i].mesh matches Some(m) && !assets.contains(m.0) {
        Some(
            ProjectErrorView::DanglingReference {
                field: "scene.nodes[].mesh.asset_id"@,
                kind: "asset"@,
                target: (v[i].mesh->0).0,
            },
        )
    } else if v[i].material matches Some(m) && !materials.contains(m) {
        Some(
            ProjectErrorView::DanglingReference {
                field: "scene.nodes[].material_id"@,
                kind: "material"@,
                target: v[i].material->0,
            },
        )
    } else if !fin[i].translation {
        Some(not_finite("scene.nodes[].transform.translation"@))
    } else if !fin[i].scale {
        Some(not_finite("scene.nodes[].transform.scale"@))
    } else if !fin[i].rotation {
        Some(not_finite("scene.nodes[].transform.rotation"@))
    } else {
        None
    }
}

/// What is wrong with material entry `j`, if anything.
pub open spec fn material_entry_problem(s: Seq<MaterialRecord>, j: int) -> Option<ProjectErrorView> {
    if s[j].key@ != s[j].material_id@ {
        Some(
            ProjectErrorView::InvalidValue {
                field: "materials."@ + s[j].key@ + ".material_id"@,
                detail: "map key and embedded id must match"@,
            },
        )
    } else {
        None
    }
}

/// What is wrong with asset entry `j`, if anything.
pub open spec fn asset_entry_problem(s: Seq<AssetRecord>, j: int) -> Option<ProjectErrorView> {
    if s[j].key@ != s[j].asset_id@ {
        Some(
            ProjectErrorView::InvalidValue {
                field: "assets."@ + s[j].key@ + ".asset_id"@,
                detail: "map key and embedded id must match"@,
            },
        )
    } else if s[j].uri_is_absolute {
        Some(
            ProjectErrorView::InvalidValue {
                field: "assets."@ + s[j].key@ + ".uri"@,
                detail: "absolute machine paths are not portable project data"@,
            },
        )
    } else {
        None
    }
}

/// What is wrong with track `t` of a clip, if anything.
pub open spec fn track_problem(ids: Seq<Seq<char>>, tracks: Seq<NodeId>, t: int) -> Option<ProjectErrorView> {
    if ids.contains(tracks[t]@) {
        None
    } else {
        Some(
            ProjectErrorView::DanglingReference {
                field: "animation.clips[].tracks[].node_id"@,
                kind: "scene node"@,
                target: tracks[t]@,
            },
        )
    }
}

/// What is wrong with the tracks of clip `c`, if anything.
pub open spec fn clip_problem(ids: Seq<Seq<char>>, clips: Seq<ClipRecord>, c: int) -> Option<ProjectErrorView> {
    first_problem(track_checks(ids, clips[c].track_nodes@), clips[c].track_nodes@.len() as int)
}

/// The track checks of a clip, by position.
pub open spec fn track_checks(ids: Seq<Seq<char>>, tracks: Seq<NodeId>) -> spec_fn(int) -> Option<ProjectErrorView> {
    |t: int| track_problem(ids, tracks, t)
}

/// The node checks, by position.
pub open spec fn node_checks(
    v: Seq<NodeRecordView>,
    fin: Seq<TransformFiniteness>,
    assets: Seq<Seq<char>>,
    materials: Seq<Seq<char>>,
) -> spec_fn(int) -> Option<ProjectErrorView> {
    |i: int| node_problem(v, fin, assets, materials, i)
}

/// The material entry checks, by position.
pub open spec fn material_checks(s: Seq<MaterialRecord>) -> spec_fn(int) -> Option<ProjectErrorView> {
    |j: int| material_entry_problem(s, j)
}

/// The asset entry checks, by position.
pub open spec fn asset_checks(s: Seq<AssetRecord>) -> spec_fn(int) -> Option<ProjectErrorView> {
    |j: int| asset_entry_problem(s, j)
}

/// The clip checks, by position.
pub open spec fn clip_checks(ids: Seq<Seq<char>>, clips: Seq<ClipRecord>) -> spec_fn(int) -> Option<ProjectErrorView> {
    |c: int| clip_problem(ids, clips, c)
}

/// What is wrong with the active clip, if anything.
pub open spec fn active_clip_problem(clips: Seq<ClipRecord>, active: Option<Seq<char>>) -> Option<ProjectErrorView> {
    match active {
        Some(a) => if clip_keys(clips).contains(a) {
            None
        } else {
            Some(
                ProjectErrorView::DanglingReference {
                    field: "animation.active_clip"@,
                    kind: "animation clip"@,
                    target: a,
                },
            )
        },
        None => None,
    }
}

/// The first problem of the checks that follow the tree check.
pub open spec fn entries_problem(
    ids: Seq<Seq<char>>,
    materials: Seq<MaterialRecord>,
    assets: Seq<AssetRecord>,
    clips: Seq<ClipRecord>,
    active: Option<Seq<char>>,
) -> Option<ProjectErrorView> {
    match first_problem(material_checks(materials), materials.len() as int) {
        Some(e) => Some(e),
        None => match first_problem(asset_checks(assets), assets.len() as int) {
            Some(e) => Some(e),
            None => match first_problem(clip_checks(ids, clips), clips.len() as int) {
                Some(e) => Some(e),
                None => active_clip_problem(clips, active),
            },
        },
    }
}

/// What the structural checks answer: the first problem, or success.
pub open spec fn structure_outcome(
    v: Seq<NodeRecordView>,
    fin: Seq<TransformFiniteness>,
    assets: Seq<AssetRecord>,
    materials: Seq<MaterialRecord>,
    clips: Seq<ClipRecord>,
    active: Option<Seq<char>>,
    r: Result<(), ProjectErrorView>,
) -> bool {
    let ids = view_ids(v);
    let par = view_parents(v);
    let nodes = first_problem(node_checks(v, fin, asset_keys(assets), material_keys(materials)), v.len() as int);
    if v.len() == 0 {
        r == Err::<(), ProjectErrorView>(ProjectErrorView::EmptyScene)
    } else if nodes is Some {
        r == Err::<(), ProjectErrorView>(nodes->0)
    } else if !(parents_resolve(ids, par) && acyclic(ids, par)) {
        exists|e: HierarchyErrorView|
            topology_outcome(ids, par, Err(e)) && r == Err::<(), ProjectErrorView>(
                ProjectErrorView::InvalidHierarchy { detail: hierarchy_message(e) },
            )
    } else {
        match entries_problem(ids, materials, assets, clips, active) {
            Some(e) => r == Err::<(), ProjectErrorView>(e),
            None => r is Ok,
        }
    }
}

/// The view of a result of the checks.
pub open spec fn outcome_view(r: Result<(), ProjectError>) -> Result<(), ProjectErrorView> {
    match r {
        Ok(_) => Ok(()),
        Err(e) => Err(e@),
    }
}

/// The view of an optional borrowed clip id.
pub open spec fn opt_clip_view(o: Option<&AnimationClipId>) -> Option<Seq<char>> {
    match o {
        Some(id) => Some(id@),
        None => None,
    }
}

fn asset_key_known(assets: &[AssetRecord], id: &AssetId) -> (b: bool)
    ensures
        b == asset_keys(assets@).contains(id@),
{
    let mut i: usize = 0;
    while i < assets.len()
        invariant
            i <= assets.len(),
            forall|j: int| 0 <= j < i ==> asset_keys(assets@)[j] != id@,
        decreases assets.len() - i,
    {
        if assets[i].key.same_as(id) {
            assert(asset_keys(assets@)[i as int] == id@);
            return true;
        }
        i += 1;
    }
    false
}

fn material_key_known(materials: &[MaterialRecord], id: &MaterialId) -> (b: bool)
    ensures
        b == material_keys(materials@).contains(id@),
{
    let mut i: usize = 0;
    while i < materials.len()
        invariant
            i <= materials.len(),
            forall|j: int| 0 <= j < i ==> material_keys(materials@)[j] != id@,
        decreases materials.len() - i,
    {
        if materials[i].key.same_as(id) {
            assert(material_keys(materials@)[i as int] == id@);
            return true;
        }
        i += 1;
    }
    false
}

fn clip_key_known(clips: &[ClipRecord], id: &AnimationClipId) -> (b: bool)
    ensures
        b == clip_keys(clips@).contains(id@),
{
    let mut i: usize = 0;
    while i < clips.len()
        invariant
            i <= clips.len(),
            forall|j: int| 0 <= j < i ==> clip_keys(clips@)[j] != id@,
        decreases clips.len() - i,
    {
        if clips[i].key.same_as(id) {
            assert(clip_keys(clips@)[i as int] == id@);
            return true;
        }
        i += 1;
    }
    false
}

fn node_known(nodes: &[NodeRecord], id: &NodeId) -> (b: bool)
    ensures
        b == view_ids(record_views(nodes@)).contains(id@),
{
    let r = first_record(nodes, id);
    proof {
        lemma_first_index_facts(view_ids(record_views(nodes@)), id@);
    }
    r.is_some()
}

fn finite_error(field: &str) -> (e: ProjectError)
    ensures
        e@ == not_finite(field@),
{
    ProjectError::InvalidValue {
        field: String::from_str(field),
        detail: String::from_str("must be a finite number"),
    }
}

fn node_problem_at(
    nodes: &[NodeRecord],
    fin: &[TransformFiniteness],
    assets: &[AssetRecord],
    materials: &[MaterialRecord],
    i: usize,
) -> (p: Option<ProjectError>)
    requires
        i < nodes.len() == fin.len(),
    ensures
        match p {
            Some(e) => node_problem(record_views(nodes@), fin@, asset_keys(assets@), material_keys(materials@), i as int)
                == Some(e@),
            None => node_problem(record_views(nodes@), fin@, asset_keys(assets@), material_keys(materials@), i as int)
                is None,
        },
{
    let ghost v = record_views(nodes@);
    assert(v[i as int] == nodes@[i as int]@);
    assert(view_ids(v)[i as int] == nodes@[i as int].node_id@);
    proof {
        lemma_first_index_facts(view_ids(v), view_ids(v)[i as int]);
    }
    let first = first_record(nodes, &nodes[i].node_id);
    match first {
        Some(f) => {
            if f < i {
                return Some(
                    ProjectError::DuplicateId { kind: "scene node", id: nodes[i].node_id.duplicate().into_string() },
                );
            }
        },
        None => {},
    }
    if let Some(m) = &nodes[i].mesh {
        if !asset_key_known(assets, &m.asset_id) {
            return Some(
                ProjectError::DanglingReference {
                    field: "scene.nodes[].mesh.asset_id",
                    kind: "asset",
                    target: m.asset_id.duplicate().into_string(),
                },
            );
        }
    }
    if let Some(m) = &nodes[i].material_id {
        if !material_key_known(materials, m) {
            return Some(
                ProjectError::DanglingReference {
                    field: "scene.nodes[].material_id",
                    kind: "material",
                    target: m.duplicate().into_string(),
                },
            );
        }
    }
    if !fin[i].translation {
        return Some(finite_error("scene.nodes[].transform.translation"));
    }
    if !fin[i].scale {
        return Some(finite_error("scene.nodes[].transform.scale"));
    }
    if !fin[i].rotation {
        return Some(finite_error("scene.nodes[].transform.rotation"));
    }
    None
}

fn entry_field(head: &str, key: &str, tail: &str) -> (s: String)
    ensures
        s@ == head@ + key@ + tail@,
{
    let mut s = String::from_str(head);
    s.append(key);
    s.append(tail);
    s
}

fn entries_problem_at(
    nodes: &[NodeRecord],
    assets: &[AssetRecord],
    materials: &[MaterialRecord],
    clips: &[ClipRecord],
    active_clip: Option<&AnimationClipId>,
) -> (p: Option<ProjectError>)
    ensures
        match p {
            Some(e) => entries_problem(
                view_ids(record_views(nodes@)),
                materials@,
                assets@,
                clips@,
                opt_clip_view(active_clip),
            ) == Some(e@),
            None => entries_problem(
                view_ids(record_views(nodes@)),
                materials@,
                assets@,
                clips@,
                opt_clip_view(active_clip),
            ) is None,
        },
{
    let ghost ids = view_ids(record_views(nodes@));
    let mut j: usize = 0;
    while j < materials.len()
        invariant
            j <= materials.len(),
            first_problem(material_checks(materials@), j as int) is None,
        decreases materials.len() - j,
    {
        if !materials[j].key.same_as(&materials[j].material_id) {
            let field = entry_field("materials.", materials[j].key.as_str(), ".material_id");
            let e = ProjectError::InvalidValue {
                field,
                detail: String::from_str("map key and embedded id must match"),
            };
            assert(first_problem(material_checks(materials@), j as int + 1) == Some(e@));
            proof {
                lemma_first_problem_prefix(material_checks(materials@), j as int + 1, materials.len() as int);
            }
            return Some(e);
        }
        j += 1;
    }
    let mut j: usize = 0;
    while j < assets.len()
        invariant
            j <= assets.len(),
            first_problem(material_checks(materials@), materials.len() as int) is None,
            first_problem(asset_checks(assets@), j as int) is None,
        decreases assets.len() - j,
    {
        if !assets[j].key.same_as(&assets[j].asset_id) {
            let field = entry_field("assets.", assets[j].key.as_str(), ".asset_id");
            let e = ProjectError::InvalidValue {
                field,
                detail: String::from_str("map key and embedded id must match"),
            };
            assert(first_problem(asset_checks(assets@), j as int + 1) == Some(e@));
            proof {
                lemma_first_problem_prefix(asset_checks(assets@), j as int + 1, assets.len() as int);
            }
            return Some(e);
        }
        if assets[j].uri_is_absolute {
            let field = entry_field("assets.", assets[j].key.as_str(), ".uri");
            let e = ProjectError::InvalidValue {
                field,
                detail: String::from_str("absolute machine paths are not portable project data"),
            };
            assert(first_problem(asset_checks(assets@), j as int + 1) == Some(e@));
            proof {
                lemma_first_problem_prefix(asset_checks(assets@), j as int + 1, assets.len() as int);
            }
            return Some(e);
        }
        j += 1;
    }
    let mut c: usize = 0;
    while c < clips.len()
        invariant
            c <= clips.len(),
            ids == view_ids(record_views(nodes@)),
            first_problem(material_checks(materials@), materials.len() as int) is None,
            first_problem(asset_checks(assets@), assets.len() as int) is None,
            first_problem(clip_checks(ids, clips@), c as int) is None,
        decreases clips.len() - c,
    {
        let tracks = &clips[c].track_nodes;
        let ghost tv = tracks@;
        let mut t: usize = 0;
        while t < tracks.len()
            invariant
                t <= tracks.len(),
                c < clips.len(),
                tv == tracks@,
                tv == clips@[c as int].track_nodes@,
                first_problem(material_checks(materials@), materials.len() as int) is None,
                first_problem(asset_checks(assets@), assets.len() as int) is None,
                first_problem(clip_checks(ids, clips@), c as int) is None,
                ids == view_ids(record_views(nodes@)),
                first_problem(track_checks(ids, tv), t as int) is None,
            decreases tracks.len() - t,
        {
            if !node_known(nodes, &tracks[t]) {
                let e = ProjectError::DanglingReference {
                    field: "animation.clips[].tracks[].node_id",
                    kind: "scene node",
                    target: tracks[t].duplicate().into_string(),
                };
                assert(first_problem(track_checks(ids, tv), t as int + 1) == Some(e@));
                proof {
                    lemma_first_problem_prefix(track_checks(ids, tv), t as int + 1, tv.len() as int);
                }
                assert(clips@[c as int].track_nodes@ == tv);
                assert(clip_problem(ids, clips@, c as int) == Some(e@));
                assert(first_problem(clip_checks(ids, clips@), c as int + 1) == Some(e@));
                proof {
                    lemma_first_problem_prefix(clip_checks(ids, clips@), c as int + 1, clips.len() as int);
                }
                return Some(e);
            }
            t += 1;
        }
        assert(clips@[c as int].track_nodes@ == tv);
        assert(first_problem(clip_checks(ids, clips@), c as int + 1) is None);
        c += 1;
    }
    if let Some(a) = active_clip {
        if !clip_key_known(clips, a) {
            return Some(
                ProjectError::DanglingReference {
                    field: "animation.active_clip",
                    kind: "animation clip",
                    target: a.duplicate().into_string(),
                },
            );
        }
    }
    None
}

/// Once some check fails, the first failure stays the same further on.
proof fn lemma_first_problem_prefix(f: spec_fn(int) -> Option<ProjectErrorView>, k: int, n: int)
    requires
        0 <= k <= n,
        first_problem(f, k) is Some,
    ensures
        first_problem(f, n) == first_problem(f, k),
    decreases n - k,
{
    if k < n {
        lemma_first_problem_prefix(f, k, n - 1);
    }
}

/// The structural checks of a project document, in the order the project
/// validation runs them (see the module documentation); `fin[i]` says
/// whether the transform of node `i` is finite. The assets, materials and
/// clips are the entries of the document's maps, in the maps' order, so each
/// key is filed once.
pub fn check_structure(
    nodes: &[NodeRecord],
    fin: &[TransformFiniteness],
    assets: &[AssetRecord],
    materials: &[MaterialRecord],
    clips: &[ClipRecord],
    active_clip: Option<&AnimationClipId>,
) -> (r: Result<(), ProjectError>)
    requires
        fin.len() == nodes.len(),
        unique_ids(asset_keys(assets@)),
        unique_ids(material_keys(materials@)),
        unique_ids(clip_keys(clips@)),
    ensures
        structure_outcome(
            record_views(nodes@),
            fin@,
            assets@,
            materials@,
            clips@,
            opt_clip_view(active_clip),
            outcome_view(r),
        ),
{
    let ghost v = record_views(nodes@);
    let ghost checks = node_checks(v, fin@, asset_keys(assets@), material_keys(materials@));
    if nodes.len() == 0 {
        return Err(ProjectError::EmptyScene);
    }
    let mut i: usize = 0;
    while i < nodes.len()
        invariant
            i <= nodes.len() == fin.len(),
            v == record_views(nodes@),
            checks == node_checks(v, fin@, asset_keys(assets@), material_keys(materials@)),
            first_problem(checks, i as int) is None,
        decreases nodes.len() - i,
    {
        if let Some(e) = node_problem_at(nodes, fin, assets, materials, i) {
            assert(first_problem(checks, i as int + 1) == Some(e@));
            proof {
                lemma_first_problem_prefix(checks, i as int + 1, nodes.len() as int);
            }
            return Err(e);
        }
        i += 1;
    }
    let links = node_links(nodes);
    if let Err(e) = validate_hierarchy(links.as_slice()) {
        let ghost ev = e@;
        let detail = e.message();
        let out = ProjectError::InvalidHierarchy { detail };
        proof {
            let ids = view_ids(v);
            let par = view_parents(v);
            assert(topology_outcome(ids, par, Err(ev)));
            if parents_resolve(ids, par) && acyclic(ids, par) {
                assert(unique_ids(ids)) by {
                    lemma_no_repeat_unique(v, fin@, asset_keys(assets@), material_keys(materials@));
                }
            }
        }
        return Err(out);
    }
    proof {
        let ids = view_ids(v);
        let par = view_parents(v);
        lemma_no_repeat_unique(v, fin@, asset_keys(assets@), material_keys(materials@));
    }
    match entries_problem_at(nodes, assets, materials, clips, active_clip) {
        Some(e) => Err(e),
        None => Ok(()),
    }
}

/// When no node check fails, the node ids are distinct.
proof fn lemma_no_repeat_unique(
    v: Seq<NodeRecordView>,
    fin: Seq<TransformFiniteness>,
    assets: Seq<Seq<char>>,
    materials: Seq<Seq<char>>,
)
    requires
        first_problem(node_checks(v, fin, assets, materials), v.len() as int) is None,
    ensures
        unique_ids(view_ids(v)),
{
    let ids = view_ids(v);
    let f = node_checks(v, fin, assets, materials);
    assert forall|k: int| 0 <= k <= v.len() implies #[trigger] first_problem(f, k) is None by {
        lemma_none_before(f, k, v.len() as int);
    }
    assert forall|a: int, b: int| 0 <= a < b < ids.len() implies ids[a] != ids[b] by {
        assert(first_problem(f, b + 1) is None);
        assert(node_problem(v, fin, assets, materials, b) is None);
        lemma_first_index_facts(ids, ids[b]);
    }
}

proof fn lemma_none_before(f: spec_fn(int) -> Option<ProjectErrorView>, k: int, n: int)
    requires
        0 <= k <= n,
        first_problem(f, n) is None,
    ensures
        first_problem(f, k) is None,
    decreases n - k,
{
    if k < n {
        lemma_none_before(f, k + 1, n);
    }
}

} // verus!
