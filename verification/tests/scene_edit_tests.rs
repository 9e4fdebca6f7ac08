use anigo_core::scene_tree::{ancestors_of, descendants_of};
use anigo_core::hierarchy::{HierarchyError, NodeKind};
use anigo_core::ids::{AssetId, MaterialId, NodeId};
use anigo_core::node_commands::CommandError;
use anigo_core::project::{base_mesh_asset_id, BaseGender, MeshPreset, MeshRef, URI_PRESET_CUBE};
use anigo_core::scene_edits::{
    add_node, check_mesh_preset, check_node_mesh, check_node_visibility, current_mesh, current_parent,
    current_visibility, load_mesh_preset, node_links, remove_node, removal_undo, restore_removed, set_node_mesh,
    set_node_parent, set_node_visibility, switch_base_mesh, NodeRecord,
};
use anigo_core::scene_tree::{children_of, hierarchy_order, rebuild_children, validate_hierarchy, NodeLink};

fn link(id: &str, parent: Option<&str>) -> NodeLink {
    NodeLink { node_id: NodeId::from_slug(id), parent_id: parent.map(NodeId::from_slug) }
}

fn record(id: &str, parent: Option<&str>) -> NodeRecord {
    NodeRecord {
        node_id: NodeId::from_slug(id),
        name: id.to_uppercase(),
        parent_id: parent.map(NodeId::from_slug),
        kind: NodeKind::Mesh,
        visible: true,
        mesh: None,
        material_id: None,
    }
}

fn names(list: &[NodeId]) -> Vec<String> {
    list.iter().map(|id| id.as_str().to_string()).collect()
}

fn record_ids(nodes: &[NodeRecord]) -> Vec<String> {
    nodes.iter().map(|n| n.node_id.as_str().to_string()).collect()
}

fn scene() -> Vec<NodeRecord> {
    let mut character = record("character_base", None);
    character.kind = NodeKind::CharacterRoot;
    character.mesh = Some(MeshRef { asset_id: base_mesh_asset_id(BaseGender::Male), primitive_index: 0 });
    vec![
        character,
        record("jacket", Some("character_base")),
        record("lamp", None),
        record("hood", Some("jacket")),
        record("pin", Some("hood")),
    ]
}

fn snapshot(nodes: &[NodeRecord]) -> Vec<NodeRecord> {
    nodes
        .iter()
        .map(|n| NodeRecord {
            node_id: n.node_id.clone(),
            name: n.name.clone(),
            parent_id: n.parent_id.clone(),
            kind: n.kind,
            visible: n.visible,
            mesh: n.mesh.clone(),
            material_id: n.material_id.clone(),
        })
        .collect()
}

#[test]
fn rebuild_children_is_derived_and_deterministic() {
    let nodes = vec![
        link("a", None),
        link("b", None),
        link("c", Some("a")),
        link("d", Some("a")),
        link("e", Some("d")),
    ];
    let children = rebuild_children(&nodes);
    assert_eq!(names(&children[0]), vec!["nod_c".to_string(), "nod_d".to_string()]);
    assert_eq!(names(&children[3]), vec!["nod_e".to_string()]);
    assert!(children[4].is_empty());
    assert_eq!(children_of(&nodes, None).len(), 2);

    let nodes = vec![link("child", Some("parent")), link("parent", None)];
    assert!(validate_hierarchy(&nodes).is_ok());
    assert_eq!(hierarchy_order(&nodes).expect("ordem topológica"), vec![1, 0]);
}

#[test]
fn cyclic_scene_is_rejected() {
    let nodes = vec![link("a", Some("b")), link("b", Some("a"))];
    assert!(matches!(validate_hierarchy(&nodes), Err(HierarchyError::Cycle { .. })));
    assert!(hierarchy_order(&nodes).is_err());
}

#[test]
fn child_lists_skip_unknown_parents_and_use_the_last_duplicate() {
    let nodes = vec![link("a", None), link("x", Some("ghost")), link("a", None), link("y", Some("a"))];
    let children = rebuild_children(&nodes);
    assert!(children[0].is_empty());
    assert!(children[1].is_empty());
    assert_eq!(names(&children[2]), vec!["nod_y".to_string()]);
}

#[test]
fn visibility_is_checked_applied_and_undone() {
    let mut nodes = scene();
    let before = snapshot(&nodes);
    let lamp = NodeId::from_slug("lamp");
    assert_eq!(
        check_node_visibility(&nodes, &lamp, true),
        Err(CommandError::NoOp("node 'nod_lamp' is already visible".to_string()))
    );
    assert_eq!(check_node_visibility(&nodes, &lamp, false), Ok(()));
    let ghost = NodeId::from_slug("ghost");
    assert_eq!(
        check_node_visibility(&nodes, &ghost, false),
        Err(CommandError::UnknownTarget { kind: "scene node", target: "nod_ghost".to_string() })
    );
    let undo = current_visibility(&nodes, &lamp).expect("lamp exists");
    assert_eq!(set_node_visibility(&mut nodes, &lamp, false), Ok(()));
    assert!(!nodes[2].visible);
    assert_eq!(
        check_node_visibility(&nodes, &lamp, false),
        Err(CommandError::NoOp("node 'nod_lamp' is already hidden".to_string()))
    );
    set_node_visibility(&mut nodes, &lamp, undo).expect("undo");
    assert_eq!(nodes, before);
    assert!(set_node_visibility(&mut nodes, &ghost, true).is_err());
    assert_eq!(nodes, before);
}

#[test]
fn mesh_changes_reference_registered_assets_only() {
    let mut nodes = scene();
    let before = snapshot(&nodes);
    let assets = vec![base_mesh_asset_id(BaseGender::Male), AssetId::for_uri(URI_PRESET_CUBE)];
    let lamp = NodeId::from_slug("lamp");
    let stray = MeshRef { asset_id: AssetId::from_slug("stray"), primitive_index: 0 };
    assert_eq!(
        check_node_mesh(&nodes, &assets, &lamp, Some(&stray)),
        Err(CommandError::UnknownTarget { kind: "asset", target: "ast_stray".to_string() })
    );
    let cube = MeshRef { asset_id: AssetId::for_uri(URI_PRESET_CUBE), primitive_index: 0 };
    assert_eq!(check_node_mesh(&nodes, &assets, &lamp, Some(&cube)), Ok(()));
    assert_eq!(check_node_mesh(&nodes, &assets, &lamp, None), Ok(()));
    let undo = current_mesh(&nodes, &lamp).expect("lamp exists");
    set_node_mesh(&mut nodes, &lamp, Some(cube.clone())).expect("apply");
    assert_eq!(nodes[2].mesh, Some(cube));
    set_node_mesh(&mut nodes, &lamp, undo).expect("undo");
    assert_eq!(nodes, before);
}

#[test]
fn reparenting_is_undone_by_the_previous_parent() {
    let mut nodes = scene();
    let before = snapshot(&nodes);
    let pin = NodeId::from_slug("pin");
    let undo = current_parent(&nodes, &pin).expect("pin exists");
    assert_eq!(undo, Some(NodeId::from_slug("hood")));
    set_node_parent(&mut nodes, &pin, Some(NodeId::from_slug("lamp"))).expect("apply");
    assert_eq!(nodes[4].parent_id, Some(NodeId::from_slug("lamp")));
    set_node_parent(&mut nodes, &pin, undo).expect("undo");
    assert_eq!(nodes, before);
}

#[test]
fn an_added_node_is_removed_by_its_undo() {
    let mut nodes = scene();
    let before = snapshot(&nodes);
    let bow = NodeId::from_slug("bow");
    add_node(
        &mut nodes,
        bow.clone(),
        "Bow".to_string(),
        Some(NodeId::from_slug("hood")),
        NodeKind::Accessory,
        None,
        Some(MaterialId::canonical_default()),
        2,
    );
    assert_eq!(record_ids(&nodes)[2], "nod_bow");
    assert!(nodes[2].visible);
    remove_node(&mut nodes, &bow);
    assert_eq!(nodes, before);

    // An index past the end appends.
    add_node(&mut nodes, bow.clone(), "Bow".to_string(), None, NodeKind::Group, None, None, 99);
    assert_eq!(record_ids(&nodes).last().map(String::as_str), Some("nod_bow"));
}

#[test]
fn removing_a_node_takes_its_subtree_and_the_undo_rebuilds_it() {
    let mut nodes = scene();
    let before = snapshot(&nodes);
    let jacket = NodeId::from_slug("jacket");
    let (removed, steps) = removal_undo(&nodes, &jacket).expect("jacket exists");
    assert_eq!(record_ids(&removed), vec!["nod_jacket", "nod_hood", "nod_pin"]);
    assert_eq!(steps.iter().map(|s| s.position).collect::<Vec<_>>(), vec![1, 3, 4]);
    assert_eq!(steps.iter().map(|s| s.parent_inside).collect::<Vec<_>>(), vec![false, true, true]);
    remove_node(&mut nodes, &jacket);
    assert_eq!(record_ids(&nodes), vec!["nod_character_base", "nod_lamp"]);
    restore_removed(&mut nodes, removed, &steps);
    assert_eq!(nodes, before);
    let links = node_links(&nodes);
    assert!(validate_hierarchy(&links).is_ok());
}

#[test]
fn the_undo_of_a_removal_keeps_hidden_nodes_hidden() {
    let mut nodes = scene();
    nodes[3].visible = false;
    let before = snapshot(&nodes);
    let hood = NodeId::from_slug("hood");
    let (removed, steps) = removal_undo(&nodes, &hood).expect("hood exists");
    remove_node(&mut nodes, &hood);
    restore_removed(&mut nodes, removed, &steps);
    assert!(!nodes[3].visible);
    assert_eq!(nodes, before);
}

#[test]
fn removal_undo_of_an_unknown_node_fails() {
    let nodes = scene();
    assert_eq!(
        removal_undo(&nodes, &NodeId::from_slug("ghost")).map(|_| ()),
        Err(CommandError::UnknownTarget { kind: "scene node", target: "nod_ghost".to_string() })
    );
}

#[test]
fn base_gender_switch_follows_the_canonical_base_only() {
    let mut nodes = scene();
    let before = snapshot(&nodes);
    switch_base_mesh(&mut nodes, BaseGender::Female);
    assert_eq!(
        nodes[0].mesh,
        Some(MeshRef { asset_id: base_mesh_asset_id(BaseGender::Female), primitive_index: 0 })
    );
    switch_base_mesh(&mut nodes, BaseGender::Male);
    assert_eq!(nodes, before);

    let cube = MeshRef { asset_id: AssetId::for_uri(URI_PRESET_CUBE), primitive_index: 0 };
    nodes[0].mesh = Some(cube.clone());
    switch_base_mesh(&mut nodes, BaseGender::Female);
    assert_eq!(nodes[0].mesh, Some(cube));
}

#[test]
fn presets_load_into_the_character_node_and_are_undone() {
    let mut nodes = scene();
    let before = snapshot(&nodes);
    let assets = vec![base_mesh_asset_id(BaseGender::Male), base_mesh_asset_id(BaseGender::Female)];
    let cube_id = AssetId::for_uri(URI_PRESET_CUBE);
    assert_eq!(
        check_mesh_preset(&assets, MeshPreset::Cube, BaseGender::Male),
        Err(CommandError::UnknownTarget { kind: "asset", target: cube_id.as_str().to_string() })
    );
    assert_eq!(check_mesh_preset(&assets, MeshPreset::Mannequin, BaseGender::Female), Ok(()));
    let character = NodeId::canonical_character();
    let undo = current_mesh(&nodes, &character).expect("character node");
    load_mesh_preset(&mut nodes, MeshPreset::Cube, BaseGender::Male).expect("apply");
    assert_eq!(nodes[0].mesh, Some(MeshRef { asset_id: cube_id, primitive_index: 0 }));
    switch_base_mesh(&mut nodes, BaseGender::Male);
    set_node_mesh(&mut nodes, &character, undo).expect("undo");
    assert_eq!(nodes, before);

    let mut empty: Vec<NodeRecord> = Vec::new();
    assert_eq!(
        load_mesh_preset(&mut empty, MeshPreset::Sphere, BaseGender::Male),
        Err(CommandError::UnknownTarget { kind: "scene node", target: "nod_character_base".to_string() })
    );
}

#[test]
fn descendants_are_the_reverse_of_ancestors() {
    let nodes = vec![
        link("root", None),
        link("body", Some("root")),
        link("hat", Some("head")),
        link("head", Some("body")),
        link("lamp", None),
    ];
    for a in &nodes {
        for y in &nodes {
            let below = descendants_of(&nodes, &a.node_id).contains(&y.node_id);
            let above = ancestors_of(&nodes, &y.node_id).contains(&a.node_id);
            assert_eq!(below, above, "{} / {}", a.node_id.as_str(), y.node_id.as_str());
        }
    }
}
