use anigo_core::geometry::{DeformationError, ProjectionError};
use anigo_core::glb::GltfMeshError;
use anigo_core::hierarchy::HierarchyError;
use anigo_core::ids::{IdError, NodeId};
use anigo_core::node_commands::CommandError;
use anigo_core::project::ProjectError;

#[test]
fn id_errors_read_as_documented() {
    assert_eq!(IdError::Empty { expected: "scene node" }.message(), "empty identifier for scene node");
    let long = "é".repeat(65);
    assert_eq!(
        IdError::TooLong { found: long.clone() }.message(),
        format!("identifier '{long}' is too long: 130 bytes (max 128)")
    );
    assert_eq!(
        IdError::MissingSeparator { expected: "nod", found: "abc".to_string() }.message(),
        "identifier 'abc' is missing the '<prefix>_<slug>' separator (expected prefix 'nod')"
    );
    assert_eq!(
        IdError::WrongPrefix { expected: "nod", actual: "mat".to_string(), found: "mat_x".to_string() }.message(),
        "identifier 'mat_x' has prefix 'mat', expected 'nod'"
    );
    assert_eq!(
        IdError::InvalidSlug { found: "nod_A".to_string() }.message(),
        "identifier 'nod_A' has an invalid slug: must match [a-z0-9_]+ and be non-empty"
    );
    let parsed = NodeId::parse("nod_").expect_err("empty slug");
    assert_eq!(parsed.message(), "identifier 'nod_' has an invalid slug: must match [a-z0-9_]+ and be non-empty");
}

#[test]
fn hierarchy_errors_read_as_documented() {
    assert_eq!(HierarchyError::DuplicateNodeId("nod_a".to_string()).message(), "duplicated scene node id 'nod_a'");
    assert_eq!(HierarchyError::UnknownNode { node: "nod_x".to_string() }.message(), "unknown scene node 'nod_x'");
    assert_eq!(
        HierarchyError::SelfParent { node: "nod_a".to_string() }.message(),
        "node 'nod_a' cannot be its own parent"
    );
    assert_eq!(
        HierarchyError::UnknownParent { node: "nod_a".to_string(), parent: "nod_b".to_string() }.message(),
        "node 'nod_a' references unknown parent 'nod_b'"
    );
    assert_eq!(
        HierarchyError::Cycle { path: "nod_a -> nod_b -> nod_a".to_string() }.message(),
        "cyclic scene hierarchy: nod_a -> nod_b -> nod_a"
    );
}

#[test]
fn command_errors_read_as_documented() {
    assert_eq!(
        CommandError::UnknownTarget { kind: "scene node", target: "nod_x".to_string() }.message(),
        "unknown scene node 'nod_x'"
    );
    assert_eq!(
        CommandError::InvalidValue { field: "name".to_string(), detail: "must not be empty".to_string() }.message(),
        "invalid value for 'name': must not be empty"
    );
    assert_eq!(
        CommandError::NoOp("empty batch".to_string()).message(),
        "command has no effect: empty batch"
    );
}

#[test]
fn project_errors_read_as_documented() {
    assert_eq!(
        ProjectError::UnsupportedSchemaVersion { found: 7, supported: 1 }.message(),
        "project schema_version 7 is newer than the supported version 1"
    );
    assert_eq!(
        ProjectError::MissingSchemaVersion.message(),
        "project is missing the required 'schema_version' field"
    );
    assert_eq!(
        ProjectError::InvalidId { field: "project_id", source: IdError::Empty { expected: "project" } }.message(),
        "invalid id in field 'project_id': empty identifier for project"
    );
    assert_eq!(
        ProjectError::DuplicateId { kind: "scene node", id: "nod_a".to_string() }.message(),
        "duplicated scene node id 'nod_a'"
    );
    assert_eq!(
        ProjectError::DanglingReference { field: "scene.nodes[].material_id", kind: "material", target: "mat_x".to_string() }
            .message(),
        "field 'scene.nodes[].material_id' references unknown material 'mat_x'"
    );
    assert_eq!(ProjectError::UnknownMorph("wings".to_string()).message(), "unknown morph slider 'wings'");
    assert_eq!(ProjectError::EmptyScene.message(), "project must contain at least one scene node");
    assert_eq!(
        ProjectError::InvalidHierarchy {
            detail: HierarchyError::SelfParent { node: "nod_a".to_string() }.message()
        }
        .message(),
        "invalid scene hierarchy: node 'nod_a' cannot be its own parent"
    );
    assert_eq!(ProjectError::Json("eof".to_string()).message(), "project JSON is malformed: eof");
    assert_eq!(
        ProjectError::NotAnObject { found: "array".to_string() }.message(),
        "project root must be a JSON object, found array"
    );
    assert_eq!(
        ProjectError::InvalidValue { field: "name".to_string(), detail: "blank".to_string() }.message(),
        "invalid value for 'name': blank"
    );
}

#[test]
fn glb_errors_read_as_documented() {
    assert_eq!(
        GltfMeshError::InvalidMagic(0x1234abcd).message(),
        "Invalid glTF magic number: expected 0x46546C67 (glTF), found 0x1234abcd"
    );
    assert_eq!(
        GltfMeshError::InvalidMagic(0).message(),
        "Invalid glTF magic number: expected 0x46546C67 (glTF), found 0x0"
    );
    assert_eq!(GltfMeshError::UnsupportedVersion(1).message(), "Unsupported glTF version: 1 (expected 2)");
    assert_eq!(GltfMeshError::UnexpectedEof.message(), "Corrupted GLB chunk or unexpected EOF");
    assert_eq!(GltfMeshError::MissingJsonChunk.message(), "JSON chunk not found in GLB container");
    assert_eq!(GltfMeshError::MissingBinaryChunk.message(), "Binary chunk not found in GLB container");
    assert_eq!(
        GltfMeshError::InvalidAccessor("Accessor 3 missing".to_string()).message(),
        "Accessor out of bounds or invalid: Accessor 3 missing"
    );
    assert_eq!(
        GltfMeshError::InvalidBufferView("view 1".to_string()).message(),
        "BufferView out of bounds: view 1"
    );
    assert_eq!(GltfMeshError::MissingPosition.message(), "Mesh does not contain POSITION attribute");
}

#[test]
fn projection_and_deformation_errors_read_as_documented() {
    assert_eq!(
        ProjectionError::InvalidPerspective.message(),
        "perspective projection needs fov_y in (0, pi) and a positive aspect"
    );
    assert_eq!(
        ProjectionError::InvalidOrthographic.message(),
        "orthographic projection needs left < right and bottom < top"
    );
    assert_eq!(
        DeformationError::NotIsomorphic("vertex count".to_string()).message(),
        "canonical bases are not isomorphic: vertex count"
    );
    assert_eq!(
        DeformationError::NonFinite("positions").message(),
        "deformation produced non-finite geometry in positions"
    );
}
