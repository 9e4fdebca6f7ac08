use anigo_core::hierarchy::NodeKind;
use anigo_core::ids::{AnimationClipId, AssetId, MaterialId, NodeId};
use anigo_core::project::{base_mesh_asset_id, BaseGender, MeshRef};
use anigo_core::project_checks::ClipRecord;
use anigo_core::project_repairs::{
    clamp_autosave_minutes, clamp_history_limit, clamp_msaa_samples, repair_active_clip, repair_references,
    retain_known_tracks,
};
use anigo_core::scene_edits::NodeRecord;

fn record(id: &str) -> NodeRecord {
    NodeRecord {
        node_id: NodeId::from_slug(id),
        name: id.to_string(),
        parent_id: None,
        kind: NodeKind::Mesh,
        visible: true,
        mesh: None,
        material_id: None,
    }
}

#[test]
fn dangling_references_fall_back_to_canonical_entries() {
    let known = AssetId::from_slug("prop");
    let mut a = record("a");
    a.mesh = Some(MeshRef { asset_id: AssetId::from_slug("lost"), primitive_index: 3 });
    a.material_id = Some(MaterialId::from_slug("lost"));
    let mut b = record("b");
    b.mesh = Some(MeshRef { asset_id: known.clone(), primitive_index: 2 });
    b.material_id = Some(MaterialId::from_slug("skin"));
    let c = record("c");
    let mut nodes = vec![a, b, c];
    repair_references(&mut nodes, &[known.clone()], &[MaterialId::from_slug("skin")], BaseGender::Female);
    assert_eq!(
        nodes[0].mesh,
        Some(MeshRef { asset_id: base_mesh_asset_id(BaseGender::Female), primitive_index: 0 })
    );
    assert_eq!(nodes[0].material_id, Some(MaterialId::canonical_default()));
    assert_eq!(nodes[1].mesh, Some(MeshRef { asset_id: known, primitive_index: 2 }));
    assert_eq!(nodes[1].material_id, Some(MaterialId::from_slug("skin")));
    assert_eq!(nodes[2].mesh, None);
    assert_eq!(nodes[2].material_id, None);
}

#[test]
fn tracks_on_unknown_nodes_and_unknown_active_clips_are_dropped() {
    let nodes = vec![record("a"), record("b")];
    let mut tracks = vec![NodeId::from_slug("b"), NodeId::from_slug("ghost"), NodeId::from_slug("a")];
    retain_known_tracks(&mut tracks, &nodes);
    assert_eq!(tracks, vec![NodeId::from_slug("b"), NodeId::from_slug("a")]);

    let clips = vec![ClipRecord { key: AnimationClipId::from_slug("wave"), track_nodes: tracks }];
    assert_eq!(
        repair_active_clip(&clips, Some(AnimationClipId::from_slug("wave"))),
        Some(AnimationClipId::from_slug("wave"))
    );
    assert_eq!(repair_active_clip(&clips, Some(AnimationClipId::from_slug("jump"))), None);
    assert_eq!(repair_active_clip(&clips, None), None);
}

#[test]
fn integer_settings_are_clamped_into_their_domains() {
    assert_eq!(clamp_msaa_samples(0), 1);
    assert_eq!(clamp_msaa_samples(4), 4);
    assert_eq!(clamp_msaa_samples(64), 16);
    assert_eq!(clamp_autosave_minutes(0), 1);
    assert_eq!(clamp_autosave_minutes(500), 240);
    assert_eq!(clamp_history_limit(0), 1);
    assert_eq!(clamp_history_limit(60), 60);
    assert_eq!(clamp_history_limit(5000), 1000);
}
