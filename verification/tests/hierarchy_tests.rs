use anigo_core::hierarchy::{resolve_indexed, HierarchyError, NodeKind};
use anigo_core::ids::NodeId;
use anigo_core::scene_tree::{
    ancestors_of, children_of, depth_of, rebuild_children, descendants_of, hierarchy_order, is_root, reparent_checked, roots,
    validate_hierarchy, NodeLink,
};
use glam::{Mat4, Quat, Vec3};

fn slot(id: &str, parent: Option<&str>) -> NodeLink {
    NodeLink {
        node_id: NodeId::from_slug(id),
        parent_id: parent.map(NodeId::from_slug),
    }
}

fn names(ids: Vec<NodeId>) -> Vec<String> {
    ids.into_iter().map(|id| id.as_str().to_string()).collect()
}

/// World matrices composed in the evaluation order: `W(child) = W(parent) x T(local)`.
fn world_matrices(nodes: &[NodeLink], locals: &[Mat4]) -> Vec<Mat4> {
    let ids: Vec<String> = nodes.iter().map(|n| n.node_id.as_str().to_string()).collect();
    let parents: Vec<Option<String>> = nodes
        .iter()
        .map(|n| n.parent_id.as_ref().map(|p| p.as_str().to_string()))
        .collect();
    let topology = resolve_indexed(&ids, &parents, locals.len()).expect("valid tree");
    let mut world = vec![Mat4::IDENTITY; nodes.len()];
    for index in topology.order {
        let parent = topology.parent_index[index].map(|p| world[p]).unwrap_or(Mat4::IDENTITY);
        world[index] = parent * locals[index];
    }
    world
}

#[test]
fn declaration_order_does_not_matter_for_resolution() {
    let nodes = vec![slot("child", Some("parent")), slot("parent", None)];
    let locals = vec![
        Mat4::from_translation(Vec3::new(0.0, 1.0, 0.0)),
        Mat4::from_translation(Vec3::new(2.0, 0.0, 0.0)),
    ];
    let world = world_matrices(&nodes, &locals);
    let child = world[0].transform_point3(Vec3::ZERO);
    assert!((child - Vec3::new(2.0, 1.0, 0.0)).length() < 1e-5);
    let order = hierarchy_order(&nodes).expect("ordem topológica");
    assert_eq!(order, vec![1, 0]);
}

#[test]
fn cycles_are_rejected_with_a_named_path() {
    let nodes = vec![slot("a", Some("c")), slot("b", Some("a")), slot("c", Some("b"))];
    let error = validate_hierarchy(&nodes).expect_err("ciclo deve falhar");
    match error {
        HierarchyError::Cycle { path } => {
            assert!(path.contains("nod_a") && path.contains("nod_b") && path.contains("nod_c"));
        }
        other => panic!("esperava Cycle, veio {other:?}"),
    }
}

#[test]
fn self_parent_and_unknown_parent_are_rejected() {
    let nodes = vec![slot("a", Some("a"))];
    assert_eq!(
        validate_hierarchy(&nodes),
        Err(HierarchyError::SelfParent {
            node: "nod_a".to_string()
        })
    );

    let nodes = vec![slot("a", Some("missing"))];
    assert_eq!(
        validate_hierarchy(&nodes),
        Err(HierarchyError::UnknownParent {
            node: "nod_a".to_string(),
            parent: "nod_missing".to_string()
        })
    );
}

#[test]
fn duplicated_ids_are_rejected() {
    let nodes = vec![slot("a", None), slot("a", None)];
    assert_eq!(
        validate_hierarchy(&nodes),
        Err(HierarchyError::DuplicateNodeId("nod_a".to_string()))
    );
}

#[test]
fn descendants_and_ancestors_walk_the_tree_in_order() {
    let nodes = vec![
        slot("root", None),
        slot("a", Some("root")),
        slot("b", Some("root")),
        slot("a1", Some("a")),
    ];
    let root = NodeId::from_slug("root");
    assert_eq!(names(descendants_of(&nodes, &root)), vec!["nod_a", "nod_b", "nod_a1"]);

    let leaf = NodeId::from_slug("a1");
    assert_eq!(names(ancestors_of(&nodes, &leaf)), vec!["nod_a", "nod_root"]);
}

#[test]
fn reparent_rejects_cycles_and_reports_the_previous_parent() {
    let mut nodes = vec![slot("root", None), slot("child", Some("root")), slot("grand", Some("child"))];
    let child = NodeId::from_slug("child");
    let grand = NodeId::from_slug("grand");
    let root = NodeId::from_slug("root");

    let error = reparent_checked(&mut nodes, &child, Some(&grand)).expect_err("ciclo");
    assert!(matches!(error, HierarchyError::Cycle { .. }));
    assert_eq!(nodes[1].parent_id.as_ref(), Some(&root));

    let previous = reparent_checked(&mut nodes, &grand, Some(&root)).expect("reparent válido");
    assert_eq!(previous, Some(child));
    assert_eq!(nodes[2].parent_id.as_ref(), Some(&root));

    let previous = reparent_checked(&mut nodes, &grand, None).expect("reparent para raiz");
    assert_eq!(previous, Some(root));
    assert!(nodes[2].parent_id.is_none());
}

#[test]
fn evaluation_order_puts_every_parent_first() {
    let nodes = vec![
        slot("e", Some("d")),
        slot("a", None),
        slot("d", Some("a")),
        slot("b", None),
        slot("c", Some("a")),
    ];
    let order = hierarchy_order(&nodes).expect("valid tree");
    assert_eq!(order, vec![1, 3, 2, 4, 0]);
    let mut sorted = order.clone();
    sorted.sort();
    assert_eq!(sorted, vec![0, 1, 2, 3, 4]);
    for (position, &index) in order.iter().enumerate() {
        if let Some(parent) = &nodes[index].parent_id {
            let parent_index = nodes.iter().position(|n| &n.node_id == parent).unwrap();
            let parent_position = order.iter().position(|&i| i == parent_index).unwrap();
            assert!(parent_position < position);
        }
    }
}

#[test]
fn accepted_reparent_keeps_the_tree_valid() {
    let mut nodes = vec![slot("root", None), slot("a", Some("root")), slot("b", Some("root")), slot("a1", Some("a"))];
    let a = NodeId::from_slug("a");
    let b = NodeId::from_slug("b");
    let previous = reparent_checked(&mut nodes, &a, Some(&b)).expect("b is outside the subtree of a");
    assert_eq!(previous.map(|p| p.as_str().to_string()), Some("nod_root".to_string()));
    assert!(validate_hierarchy(&nodes).is_ok());
    assert_eq!(depth_of(&nodes, &NodeId::from_slug("a1")), 3);
}

#[test]
fn reparent_errors_name_the_node_and_leave_nodes_untouched() {
    let mut nodes = vec![slot("root", None), slot("a", Some("root"))];
    let before = nodes.clone();
    let a = NodeId::from_slug("a");
    let ghost = NodeId::from_slug("ghost");
    assert_eq!(
        reparent_checked(&mut nodes, &ghost, None),
        Err(HierarchyError::UnknownNode { node: "nod_ghost".to_string() })
    );
    assert_eq!(
        reparent_checked(&mut nodes, &a, Some(&a)),
        Err(HierarchyError::SelfParent { node: "nod_a".to_string() })
    );
    assert_eq!(
        reparent_checked(&mut nodes, &a, Some(&ghost)),
        Err(HierarchyError::UnknownParent { node: "nod_a".to_string(), parent: "nod_ghost".to_string() })
    );
    let root = NodeId::from_slug("root");
    assert_eq!(
        reparent_checked(&mut nodes, &root, Some(&a)),
        Err(HierarchyError::Cycle { path: "nod_root -> ... -> nod_a -> nod_root".to_string() })
    );
    assert_eq!(nodes, before);
}

#[test]
fn walks_up_a_cycle_stop_before_repeating() {
    let nodes = vec![slot("a", Some("b")), slot("b", Some("a"))];
    assert_eq!(names(ancestors_of(&nodes, &NodeId::from_slug("a"))), vec!["nod_b", "nod_a"]);
    assert_eq!(depth_of(&nodes, &NodeId::from_slug("a")), 2);
    assert_eq!(depth_of(&nodes, &NodeId::from_slug("unknown")), 0);
}

#[test]
fn cycle_path_names_the_chain_from_the_first_unreached_node() {
    let nodes = vec![slot("root", None), slot("x", Some("y")), slot("y", Some("x"))];
    assert_eq!(
        validate_hierarchy(&nodes),
        Err(HierarchyError::Cycle { path: "nod_x -> nod_y -> nod_x".to_string() })
    );
}

#[test]
fn mismatched_lengths_are_reported_with_the_counts() {
    let ids = vec!["nod_a".to_string()];
    let parents: Vec<Option<String>> = vec![];
    match resolve_indexed(&ids, &parents, 3) {
        Err(HierarchyError::DuplicateNodeId(message)) => {
            assert_eq!(message, "resolve_indexed: 1 ids, 0 parents, 3 transforms");
        }
        _ => panic!("length mismatch must be reported"),
    }
}

#[test]
fn children_and_roots_follow_declaration_order() {
    let nodes = vec![
        slot("a", None),
        slot("b", None),
        slot("c", Some("a")),
        slot("d", Some("a")),
        slot("e", Some("d")),
    ];
    let a = NodeId::from_slug("a");
    assert_eq!(children_of(&nodes, Some(&a)), vec![2, 3]);
    assert_eq!(roots(&nodes), vec![0, 1]);
    assert!(is_root(&nodes[0]) && !is_root(&nodes[2]));
    assert!(nodes[3].is_parent_of(&nodes[4]));
    assert!(!nodes[4].is_parent_of(&nodes[3]));
}

#[test]
fn node_kinds_parse_leniently_and_name_themselves() {
    for kind in NodeKind::ALL {
        assert_eq!(NodeKind::parse(kind.as_str()), Some(kind));
    }
    assert_eq!(NodeKind::parse("  Character-Root "), Some(NodeKind::CharacterRoot));
    assert_eq!(NodeKind::parse("humanoid bone"), Some(NodeKind::HumanoidBone));
    assert_eq!(NodeKind::parse("robot"), None);
    assert!(NodeKind::Hair.is_attachment());
    assert!(!NodeKind::Light.carries_geometry());
    assert_eq!(NodeKind::default(), NodeKind::Mesh);
}

#[test]
fn reparenting_back_to_the_reported_parent_undoes_the_reparent() {
    let before = vec![slot("root", None), slot("a", Some("root")), slot("b", Some("root")), slot("a1", Some("a"))];
    let mut nodes = before.clone();
    let a1 = NodeId::from_slug("a1");
    let b = NodeId::from_slug("b");
    let previous = reparent_checked(&mut nodes, &a1, Some(&b)).expect("accepted");
    let undone = reparent_checked(&mut nodes, &a1, previous.as_ref()).expect("undo is accepted");
    assert_eq!(undone, Some(b));
    assert_eq!(nodes, before);
}

#[test]
fn parents_propagate_into_children() {
    let nodes = vec![slot("root", None), slot("child", Some("root"))];
    let locals = vec![
        Mat4::from_translation(Vec3::new(1.0, 0.0, 0.0)),
        Mat4::from_translation(Vec3::new(0.0, 2.0, 0.0)),
    ];
    let world = world_matrices(&nodes, &locals);
    let child = world[1].transform_point3(Vec3::ZERO);
    assert!((child - Vec3::new(1.0, 2.0, 0.0)).length() < 1e-5);
}

#[test]
fn five_level_hierarchy_matches_glam_expectation() {
    let nodes = vec![
        slot("level0", None),
        slot("level1", Some("level0")),
        slot("level2", Some("level1")),
        slot("level3", Some("level2")),
        slot("level4", Some("level3")),
    ];
    let locals = vec![
        Mat4::from_translation(Vec3::new(0.5, 0.0, 0.0)),
        Mat4::from_translation(Vec3::new(0.0, 0.5, 0.0)),
        Mat4::from_quat(Quat::from_rotation_z(std::f32::consts::FRAC_PI_2)),
        Mat4::from_translation(Vec3::new(1.0, 0.0, 0.0)),
        Mat4::from_translation(Vec3::new(0.0, 0.0, 0.25)),
    ];
    let expected = Mat4::from_translation(Vec3::new(0.5, 0.0, 0.0))
        * Mat4::from_translation(Vec3::new(0.0, 0.5, 0.0))
        * Mat4::from_rotation_z(std::f32::consts::FRAC_PI_2)
        * Mat4::from_translation(Vec3::new(1.0, 0.0, 0.0))
        * Mat4::from_translation(Vec3::new(0.0, 0.0, 0.25));
    let world = world_matrices(&nodes, &locals);
    let difference: Vec<f32> = (world[4] - expected).to_cols_array().iter().map(|value| value.abs()).collect();
    assert!(difference.iter().all(|value| *value < 1e-5), "{difference:?}");
    assert_eq!(depth_of(&nodes, &NodeId::from_slug("level4")), 4);
}

#[test]
fn child_world_matrix_follows_the_parent_transform() {
    let nodes = vec![slot("root", None), slot("hat", Some("root"))];
    let children = rebuild_children(&nodes);
    assert_eq!(names(children[0].clone()), vec!["nod_hat".to_string()]);

    let hat_local = Mat4::IDENTITY;
    let before = world_matrices(&nodes, &[Mat4::from_translation(Vec3::new(1.0, 0.0, 0.0)), hat_local]);
    assert!((before[1].transform_point3(Vec3::ZERO).x - 1.0).abs() < 1e-5);

    // Moving the parent moves the child without touching the child.
    let after = world_matrices(&nodes, &[Mat4::from_translation(Vec3::new(3.5, 0.0, 0.0)), hat_local]);
    assert!((after[1].transform_point3(Vec3::ZERO).x - 3.5).abs() < 1e-5);
    assert_eq!(nodes[1].parent_id, Some(NodeId::from_slug("root")));
    assert_eq!(depth_of(&nodes, &NodeId::from_slug("hat")), 1);
}

#[test]
fn evaluation_order_and_validation_report_the_same_outcome() {
    let scenes = vec![
        vec![slot("child", Some("parent")), slot("parent", None)],
        vec![slot("a", Some("b")), slot("b", Some("a"))],
        vec![slot("a", None), slot("a", None)],
        vec![slot("a", Some("ghost"))],
        vec![slot("a", Some("a"))],
    ];
    for nodes in &scenes {
        assert_eq!(hierarchy_order(nodes).err(), validate_hierarchy(nodes).err());
        assert_eq!(hierarchy_order(nodes).is_ok(), validate_hierarchy(nodes).is_ok());
    }
}

#[test]
fn roots_lead_the_evaluation_order_in_declaration_order() {
    let nodes = vec![slot("x", Some("r2")), slot("r1", None), slot("y", Some("r1")), slot("r2", None)];
    let order = hierarchy_order(&nodes).expect("valid tree");
    assert_eq!(&order[..2], &[1, 3]);
    assert_eq!(order.len(), 4);
}
