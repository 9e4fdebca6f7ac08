//! The structural repairs applied to a project document loaded from
//! untrusted data: dangling mesh references fall back to the canonical base
//! mesh of the character's gender, dangling material references to the
//! default material, animation tracks on unknown nodes are dropped, an
//! unknown active clip is cleared, and the integer settings are clamped into
//! their domains.
use vstd::prelude::*;

use crate::hierarchy::{lemma_first_index_facts, unique_ids};
use crate::ids::{asset_id_for, canonical_id, AnimationClipId, AssetId, IdKind, MaterialId, MaterialKind, NodeId};
use crate::project::{base_mesh_asset_id, base_uri, BaseGender, MeshRef};
use crate::project_checks::{clip_keys, ClipRecord};
use crate::project_edits::id_views;
use crate::scene_edits::{first_record, record_views, view_ids, NodeRecord, NodeRecordView};

verus! {

/// Id of the default material.
pub open spec fn default_material_id() -> Seq<char> {
    canonical_id(MaterialKind::spec_prefix(), "default_anime"@)
}

/// A record with its dangling references repaired: a mesh on an unknown
/// asset becomes the base mesh of `gender`, an unknown material the default
/// material.
pub open spec fn repaired(r: NodeRecordView, assets: Seq<Seq<char>>, materials: Seq<Seq<char>>, gender: BaseGender) -> NodeRecordView {
    NodeRecordView {
        id: r.id,
        name: r.name,
        parent: r.parent,
        kind: r.kind,
        visible: r.visible,
        mesh: match r.mesh {
            Some(m) => if assets.contains(m.0) {
                Some(m)
            } else {
                Some((asset_id_for(base_uri(gender)), 0u32))
            },
            None => None,
        },
        material: match r.material {
            Some(m) => if materials.contains(m) {
                Some(m)
            } else {
                Some(default_material_id())
            },
            None => None,
        },
    }
}

/// Every record repaired.
pub open spec fn repaired_all(
    v: Seq<NodeRecordView>,
    assets: Seq<Seq<char>>,
    materials: Seq<Seq<char>>,
    gender: BaseGender,
) -> Seq<NodeRecordView> {
    v.map_values(|r: NodeRecordView| repaired(r, assets, materials, gender))
}

pub(crate) fn id_listed<K: IdKind>(list: &[crate::ids::TypedId<K>], x: &crate::ids::TypedId<K>) -> (b: bool)
    ensures
        b == id_views(list@).contains(x@),
{
    let mut i: usize = 0;
    while i < list.len()
        invariant
            i <= list.len(),
            forall|j: int| 0 <= j < i ==> id_views(list@)[j] != x@,
        decreases list.len() - i,
    {
        if list[i].same_as(x) {
            assert(id_views(list@)[i as int] == x@);
            return true;
        }
        i += 1;
    }
    false
}

/// Repairs the dangling references of every node (see `repaired`); the
/// assets and materials are the keys of the document's registries, each
/// filed once.
pub fn repair_references(nodes: &mut Vec<NodeRecord>, assets: &[AssetId], materials: &[MaterialId], gender: BaseGender)
    requires
        unique_ids(id_views(assets@)),
        unique_ids(id_views(materials@)),
    ensures
        record_views(final(nodes)@) == repaired_all(
            record_views(old(nodes)@),
            id_views(assets@),
            id_views(materials@),
            gender,
        ),
{
    let ghost before = record_views(nodes@);
    let ghost av = id_views(assets@);
    let ghost mv = id_views(materials@);
    let mut i: usize = 0;
    while i < nodes.len()
        invariant
            i <= nodes.len() == before.len(),
            av == id_views(assets@),
            mv == id_views(materials@),
            forall|k: int| 0 <= k < i ==> #[trigger] record_views(nodes@)[k] == repaired(before[k], av, mv, gender),
            forall|k: int| i <= k < nodes.len() ==> #[trigger] record_views(nodes@)[k] == before[k],
        decreases nodes.len() - i,
    {
        let ghost prev = record_views(nodes@);
        assert(prev[i as int] == nodes@[i as int]@);
        let dangling_mesh = match &nodes[i].mesh {
            Some(m) => !id_listed(assets, &m.asset_id),
            None => false,
        };
        if dangling_mesh {
            nodes[i].mesh = Some(MeshRef { asset_id: base_mesh_asset_id(gender), primitive_index: 0 });
        }
        let dangling_material = match &nodes[i].material_id {
            Some(m) => !id_listed(materials, m),
            None => false,
        };
        if dangling_material {
            nodes[i].material_id = Some(MaterialId::canonical_default());
        }
        proof {
            assert forall|k: int| 0 <= k < nodes.len() && k != i implies #[trigger] record_views(nodes@)[k] == prev[k] by {
                assert(record_views(nodes@)[k] == nodes@[k]@);
            }
            assert(record_views(nodes@)[i as int] == nodes@[i as int]@);
        }
        i += 1;
    }
    assert(record_views(nodes@) =~= repaired_all(before, av, mv, gender));
}

/// After the repair, every mesh names a registered asset or the base mesh
/// of the gender, and every material a registered material or the default
/// one.
pub proof fn law_repair_resolves_references(
    v: Seq<NodeRecordView>,
    assets: Seq<Seq<char>>,
    materials: Seq<Seq<char>>,
    gender: BaseGender,
)
    ensures
        repaired_all(v, assets, materials, gender).len() == v.len(),
        forall|i: int|
            0 <= i < v.len() ==> {
                let r = #[trigger] repaired_all(v, assets, materials, gender)[i];
                &&& r.mesh matches Some(m) ==> (assets.contains(m.0) || m.0 == asset_id_for(base_uri(gender)))
                &&& r.material matches Some(m) ==> (materials.contains(m) || m == default_material_id())
                &&& r.id == v[i].id && r.parent == v[i].parent && r.visible == v[i].visible
            },
{
}

/// The tracks of a clip that animate existing nodes, in order.
pub open spec fn known_tracks(ids: Seq<Seq<char>>, tracks: Seq<Seq<char>>) -> Seq<Seq<char>>
    decreases tracks.len(),
{
    if tracks.len() == 0 {
        tracks
    } else if ids.contains(tracks.last()) {
        known_tracks(ids, tracks.drop_last()).push(tracks.last())
    } else {
        known_tracks(ids, tracks.drop_last())
    }
}

/// Drops the tracks of a clip whose node does not exist.
pub fn retain_known_tracks(tracks: &mut Vec<NodeId>, nodes: &[NodeRecord])
    ensures
        crate::scene_tree::id_seq(final(tracks)@) == known_tracks(
            view_ids(record_views(nodes@)),
            crate::scene_tree::id_seq(old(tracks)@),
        ),
{
    let ghost ids = view_ids(record_views(nodes@));
    let ghost start = crate::scene_tree::id_seq(tracks@);
    let mut kept: Vec<NodeId> = Vec::new();
    let mut i: usize = 0;
    while i < tracks.len()
        invariant
            i <= tracks.len(),
            ids == view_ids(record_views(nodes@)),
            start == crate::scene_tree::id_seq(tracks@),
            crate::scene_tree::id_seq(kept@) == known_tracks(ids, start.take(i as int)),
        decreases tracks.len() - i,
    {
        let found = first_record(nodes, &tracks[i]);
        proof {
            lemma_first_index_facts(ids, tracks@[i as int]@);
            assert(start.take(i as int + 1).drop_last() =~= start.take(i as int));
            assert(start.take(i as int + 1).last() == tracks@[i as int]@);
        }
        if found.is_some() {
            kept.push(tracks[i].duplicate());
            proof {
                assert(crate::scene_tree::id_seq(kept@) =~= known_tracks(ids, start.take(i as int)).push(
                    tracks@[i as int]@,
                ));
            }
        }
        i += 1;
    }
    assert(start.take(tracks.len() as int) =~= start);
    *tracks = kept;
}

/// The active clip after the repair: kept when it names a clip.
pub open spec fn repaired_active(clips: Seq<ClipRecord>, active: Option<Seq<char>>) -> Option<Seq<char>> {
    match active {
        Some(a) => if clip_keys(clips).contains(a) {
            Some(a)
        } else {
            None
        },
        None => None,
    }
}

/// The view of an optional clip id.
pub open spec fn opt_clip(o: Option<AnimationClipId>) -> Option<Seq<char>> {
    match o {
        Some(id) => Some(id@),
        None => None,
    }
}

/// Clears an active clip that names no clip.
pub fn repair_active_clip(clips: &[ClipRecord], active: Option<AnimationClipId>) -> (r: Option<AnimationClipId>)
    ensures
        match r {
            Some(a) => repaired_active(clips@, opt_clip(active)) == Some(a@),
            None => repaired_active(clips@, opt_clip(active)) is None,
        },
{
    match active {
        Some(a) => {
            let mut i: usize = 0;
            while i < clips.len()
                invariant
                    i <= clips.len(),
                    opt_clip(active) == Some(a@),
                    forall|j: int| 0 <= j < i ==> clip_keys(clips@)[j] != a@,
                decreases clips.len() - i,
            {
                if clips[i].key.same_as(&a) {
                    assert(clip_keys(clips@)[i as int] == a@);
                    assert(clip_keys(clips@).contains(a@));
                    assert(opt_clip(active) == Some(a@));
                    return Some(a);
                }
                i += 1;
            }
            None
        },
        None => None,
    }
}

/// `v` clamped into `lo ..= hi`.
pub open spec fn clamp_spec(v: int, lo: int, hi: int) -> int {
    if v < lo {
        lo
    } else if v > hi {
        hi
    } else {
        v
    }
}

/// The MSAA sample count clamped into `1 ..= 16`.
pub fn clamp_msaa_samples(samples: u32) -> (r: u32)
    ensures
        r == clamp_spec(samples as int, 1, 16),
{
    if samples < 1 {
        1
    } else if samples > 16 {
        16
    } else {
        samples
    }
}

/// The autosave interval clamped into `1 ..= 240` minutes.
pub fn clamp_autosave_minutes(minutes: u32) -> (r: u32)
    ensures
        r == clamp_spec(minutes as int, 1, 240),
{
    if minutes < 1 {
        1
    } else if minutes > 240 {
        240
    } else {
        minutes
    }
}

/// The history limit clamped into `1 ..= 1000`.
pub fn clamp_history_limit(limit: u32) -> (r: u32)
    ensures
        r == clamp_spec(limit as int, 1, 1000),
{
    if limit < 1 {
        1
    } else if limit > 1000 {
        1000
    } else {
        limit
    }
}

} // verus!
