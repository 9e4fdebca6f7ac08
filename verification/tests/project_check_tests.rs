use anigo_core::hierarchy::NodeKind;
use anigo_core::ids::{AnimationClipId, AssetId, MaterialId, NodeId};
use anigo_core::project::{base_mesh_asset_id, BaseGender, MeshRef, ProjectError};
use anigo_core::project_checks::{check_structure, AssetRecord, ClipRecord, MaterialRecord, TransformFiniteness};
use anigo_core::scene_edits::{node_links, NodeRecord};
use anigo_core::scene_tree::{children_of, depth_of};

fn record(id: &str, parent: Option<&str>) -> NodeRecord {
    NodeRecord {
        node_id: NodeId::from_slug(id),
        name: id.to_string(),
        parent_id: parent.map(NodeId::from_slug),
        kind: NodeKind::Mesh,
        visible: true,
        mesh: None,
        material_id: None,
    }
}

const FINITE: TransformFiniteness = TransformFiniteness { translation: true, scale: true, rotation: true };

struct Doc {
    nodes: Vec<NodeRecord>,
    fin: Vec<TransformFiniteness>,
    assets: Vec<AssetRecord>,
    materials: Vec<MaterialRecord>,
    clips: Vec<ClipRecord>,
    active: Option<AnimationClipId>,
}

impl Doc {
    fn valid() -> Doc {
        let base = base_mesh_asset_id(BaseGender::Male);
        let mut character = record("character_base", None);
        character.mesh = Some(MeshRef { asset_id: base.clone(), primitive_index: 0 });
        character.material_id = Some(MaterialId::canonical_default());
        let nodes = vec![character, record("hat", Some("character_base"))];
        Doc {
            fin: vec![FINITE; nodes.len()],
            nodes,
            assets: vec![AssetRecord { key: base.clone(), asset_id: base, uri_is_absolute: false }],
            materials: vec![MaterialRecord {
                key: MaterialId::canonical_default(),
                material_id: MaterialId::canonical_default(),
            }],
            clips: vec![ClipRecord { key: AnimationClipId::from_slug("wave"), track_nodes: vec![NodeId::from_slug("hat")] }],
            active: Some(AnimationClipId::from_slug("wave")),
        }
    }

    fn check(&self) -> Result<(), ProjectError> {
        check_structure(&self.nodes, &self.fin, &self.assets, &self.materials, &self.clips, self.active.as_ref())
    }
}

#[test]
fn a_consistent_document_passes() {
    assert_eq!(Doc::valid().check(), Ok(()));
}

#[test]
fn an_empty_scene_is_refused() {
    let mut doc = Doc::valid();
    doc.nodes.clear();
    doc.fin.clear();
    assert_eq!(doc.check(), Err(ProjectError::EmptyScene));
}

#[test]
fn node_problems_are_reported_in_node_order() {
    let mut doc = Doc::valid();
    doc.nodes.push(record("hat", None));
    doc.fin.push(FINITE);
    assert_eq!(doc.check(), Err(ProjectError::DuplicateId { kind: "scene node", id: "nod_hat".to_string() }));

    let mut doc = Doc::valid();
    doc.nodes[1].mesh = Some(MeshRef { asset_id: AssetId::from_slug("lost"), primitive_index: 0 });
    doc.nodes[1].material_id = Some(MaterialId::from_slug("lost"));
    assert_eq!(
        doc.check(),
        Err(ProjectError::DanglingReference {
            field: "scene.nodes[].mesh.asset_id",
            kind: "asset",
            target: "ast_lost".to_string()
        })
    );
    doc.nodes[1].mesh = None;
    assert_eq!(
        doc.check(),
        Err(ProjectError::DanglingReference {
            field: "scene.nodes[].material_id",
            kind: "material",
            target: "mat_lost".to_string()
        })
    );

    let mut doc = Doc::valid();
    doc.fin[0] = TransformFiniteness { translation: true, scale: false, rotation: false };
    assert_eq!(
        doc.check(),
        Err(ProjectError::InvalidValue {
            field: "scene.nodes[].transform.scale".to_string(),
            detail: "must be a finite number".to_string()
        })
    );
}

#[test]
fn an_invalid_tree_is_reported_with_the_hierarchy_message() {
    let mut doc = Doc::valid();
    doc.nodes[1].parent_id = Some(NodeId::from_slug("ghost"));
    assert_eq!(
        doc.check(),
        Err(ProjectError::InvalidHierarchy {
            detail: "node 'nod_hat' references unknown parent 'nod_ghost'".to_string()
        })
    );
    let mut doc = Doc::valid();
    doc.nodes[0].parent_id = Some(NodeId::from_slug("hat"));
    match doc.check() {
        Err(ProjectError::InvalidHierarchy { detail }) => assert!(detail.starts_with("cyclic scene hierarchy: ")),
        other => panic!("expected a cycle, got {other:?}"),
    }
}

#[test]
fn entries_must_be_filed_under_their_own_ids_with_portable_uris() {
    let mut doc = Doc::valid();
    doc.materials[0].material_id = MaterialId::from_slug("other");
    assert_eq!(
        doc.check(),
        Err(ProjectError::InvalidValue {
            field: "materials.mat_default_anime.material_id".to_string(),
            detail: "map key and embedded id must match".to_string()
        })
    );
    let mut doc = Doc::valid();
    doc.assets[0].uri_is_absolute = true;
    let key = doc.assets[0].key.as_str().to_string();
    assert_eq!(
        doc.check(),
        Err(ProjectError::InvalidValue {
            field: format!("assets.{key}.uri"),
            detail: "absolute machine paths are not portable project data".to_string()
        })
    );
}

#[test]
fn animation_references_must_exist() {
    let mut doc = Doc::valid();
    doc.clips[0].track_nodes.push(NodeId::from_slug("ghost"));
    assert_eq!(
        doc.check(),
        Err(ProjectError::DanglingReference {
            field: "animation.clips[].tracks[].node_id",
            kind: "scene node",
            target: "nod_ghost".to_string()
        })
    );
    let mut doc = Doc::valid();
    doc.active = Some(AnimationClipId::from_slug("jump"));
    assert_eq!(
        doc.check(),
        Err(ProjectError::DanglingReference {
            field: "animation.active_clip",
            kind: "animation clip",
            target: "ani_jump".to_string()
        })
    );
}

#[test]
fn hierarchy_validation_rejects_cycles_and_dangling_parents() {
    let mut doc = Doc::valid();
    doc.nodes.truncate(1);
    doc.fin.truncate(1);
    doc.clips.clear();
    doc.active = None;
    let root = doc.nodes[0].node_id.clone();
    let mut jacket = record("jacket", Some("character_base"));
    jacket.kind = NodeKind::Clothing;
    let mut hood = record("hood", Some("jacket"));
    hood.kind = NodeKind::Hair;
    doc.nodes.push(jacket);
    doc.nodes.push(hood);
    doc.fin = vec![FINITE; 3];
    assert_eq!(doc.check(), Ok(()));
    let links = node_links(&doc.nodes);
    assert_eq!(children_of(&links, Some(&root)).len(), 1);
    assert_eq!(depth_of(&links, &NodeId::from_slug("hood")), 2);

    doc.nodes[1].parent_id = Some(NodeId::from_slug("missing"));
    assert!(matches!(doc.check(), Err(ProjectError::InvalidHierarchy { .. })));
    doc.nodes[1].parent_id = Some(root.clone());

    doc.nodes[0].parent_id = Some(NodeId::from_slug("hood"));
    assert!(matches!(doc.check(), Err(ProjectError::InvalidHierarchy { .. })));
    doc.nodes[0].parent_id = None;

    doc.nodes[2].parent_id = Some(NodeId::from_slug("hood"));
    assert!(matches!(doc.check(), Err(ProjectError::InvalidHierarchy { .. })));
}

#[test]
fn validate_rejects_dangling_material_reference() {
    let mut doc = Doc::valid();
    doc.materials.clear();
    let err = doc.check().unwrap_err();
    assert!(matches!(err, ProjectError::DanglingReference { .. }), "got {err:?}");
}

#[test]
fn validate_rejects_duplicate_node_ids() {
    let mut doc = Doc::valid();
    let duplicate = NodeRecord {
        node_id: doc.nodes[0].node_id.clone(),
        name: doc.nodes[0].name.clone(),
        parent_id: doc.nodes[0].parent_id.clone(),
        kind: doc.nodes[0].kind,
        visible: doc.nodes[0].visible,
        mesh: doc.nodes[0].mesh.clone(),
        material_id: doc.nodes[0].material_id.clone(),
    };
    doc.nodes.push(duplicate);
    doc.fin.push(FINITE);
    let err = doc.check().unwrap_err();
    assert!(matches!(err, ProjectError::DuplicateId { .. }), "got {err:?}");
}
