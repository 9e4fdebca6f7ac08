use anigo_core::glb::implicit_indices;
use anigo_core::ids::NodeId;
use anigo_core::node_commands::{
    find_node, removal_mask, restore_plan, validate_add_node, validate_set_node_parent, CommandError,
    RestoreStep,
};
use anigo_core::scene_tree::NodeLink;

fn slot(id: &str, parent: Option<&str>) -> NodeLink {
    NodeLink { node_id: NodeId::from_slug(id), parent_id: parent.map(NodeId::from_slug) }
}

fn tree() -> Vec<NodeLink> {
    vec![
        slot("root", None),
        slot("body", Some("root")),
        slot("hat", Some("head")),
        slot("head", Some("body")),
        slot("lamp", None),
    ]
}

#[test]
fn add_node_rejects_duplicates_blank_names_and_bad_parents() {
    let nodes = tree();
    let hat = NodeId::from_slug("hat");
    let bow = NodeId::from_slug("bow");
    let ghost = NodeId::from_slug("ghost");
    let head = NodeId::from_slug("head");
    assert_eq!(
        validate_add_node(&nodes, &hat, "Hat", None),
        Err(CommandError::InvalidValue {
            field: "node_id".to_string(),
            detail: "node 'nod_hat' already exists".to_string()
        })
    );
    assert_eq!(
        validate_add_node(&nodes, &bow, "  \t", None),
        Err(CommandError::InvalidValue {
            field: "name".to_string(),
            detail: "node name must not be empty".to_string()
        })
    );
    assert_eq!(
        validate_add_node(&nodes, &bow, "Bow", Some(&bow)),
        Err(CommandError::InvalidValue {
            field: "parent_id".to_string(),
            detail: "a node cannot be its own parent".to_string()
        })
    );
    assert_eq!(
        validate_add_node(&nodes, &bow, "Bow", Some(&ghost)),
        Err(CommandError::UnknownTarget { kind: "scene node", target: "nod_ghost".to_string() })
    );
    assert_eq!(validate_add_node(&nodes, &bow, "Bow", Some(&head)), Ok(()));
}

#[test]
fn set_parent_refuses_cycles_and_no_ops() {
    let nodes = tree();
    let body = NodeId::from_slug("body");
    let hat = NodeId::from_slug("hat");
    let lamp = NodeId::from_slug("lamp");
    let root = NodeId::from_slug("root");
    assert_eq!(
        validate_set_node_parent(&nodes, &body, Some(&hat)),
        Err(CommandError::InvalidValue {
            field: "parent_id".to_string(),
            detail: "'nod_hat' is a descendant of 'nod_body' (would create a cycle)".to_string()
        })
    );
    assert_eq!(
        validate_set_node_parent(&nodes, &body, Some(&root)),
        Err(CommandError::NoOp("node 'nod_body' is already parented to 'nod_root'".to_string()))
    );
    assert_eq!(
        validate_set_node_parent(&nodes, &lamp, None),
        Err(CommandError::NoOp("node 'nod_lamp' is already parented to the scene root".to_string()))
    );
    assert_eq!(validate_set_node_parent(&nodes, &hat, Some(&lamp)), Ok(()));
    assert_eq!(find_node(&nodes, &hat), Ok(2));
    assert_eq!(
        find_node(&nodes, &NodeId::from_slug("ghost")),
        Err(CommandError::UnknownTarget { kind: "scene node", target: "nod_ghost".to_string() })
    );
}

#[test]
fn removal_takes_the_whole_subtree_and_the_plan_recreates_it() {
    let nodes = tree();
    let body = NodeId::from_slug("body");
    assert_eq!(removal_mask(&nodes, &body), vec![false, true, true, true, false]);
    let plan = restore_plan(&nodes, &body).expect("body exists");
    assert_eq!(
        plan,
        vec![
            RestoreStep { position: 1, parent_inside: false },
            RestoreStep { position: 2, parent_inside: true },
            RestoreStep { position: 3, parent_inside: true },
        ]
    );

    // Removing, then re-inserting at their former positions, then relinking
    // gives the starting list back.
    let mask = removal_mask(&nodes, &body);
    let mut kept: Vec<NodeLink> =
        nodes.iter().zip(&mask).filter(|(_, gone)| !**gone).map(|(n, _)| n.clone()).collect();
    for step in &plan {
        let mut node = nodes[step.position].clone();
        if step.parent_inside {
            node.parent_id = None;
        }
        let at = step.position.min(kept.len());
        kept.insert(at, node);
    }
    for step in plan.iter().filter(|s| s.parent_inside) {
        kept[step.position].parent_id = nodes[step.position].parent_id.clone();
    }
    assert_eq!(kept, nodes);
}

#[test]
fn non_indexed_primitives_count_their_vertices() {
    assert_eq!(implicit_indices(3), vec![0, 1, 2]);
    assert!(implicit_indices(0).is_empty());
}
