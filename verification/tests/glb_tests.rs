use anigo_core::glb::check_topology_match;
use anigo_core::glb::{
    accessor_data, assemble_glb, attribute_entry, check_channel, choose_primitive, MeshDesc, PrimitiveDesc, check_position_accessor, decode_indices, decode_joints, encode_indices,
    encode_joints, get_component_byte_size, get_type_component_count, parse_glb_container, AccessorDesc,
    AccessorSlice, BufferViewDesc, GlbBinBuilder, GltfMeshError,
};

fn accessor(buffer_view: u64, count: u64, component_type: u64, elem_type: &str) -> AccessorDesc {
    AccessorDesc {
        buffer_view: Some(buffer_view),
        byte_offset: None,
        count: Some(count),
        component_type: Some(component_type),
        elem_type: Some(elem_type.to_string()),
    }
}

fn view(byte_offset: u64, byte_length: u64) -> BufferViewDesc {
    BufferViewDesc { byte_offset: Some(byte_offset), byte_length: Some(byte_length) }
}

#[test]
fn written_containers_parse_back_to_their_padded_chunks() {
    let json = br#"{"asset":{"version":"2.0"}}"#;
    let bin = [1u8, 2, 3, 4, 5];
    let glb = assemble_glb(json, &bin);
    assert_eq!(&glb[0..4], b"glTF");
    assert_eq!(u32::from_le_bytes([glb[8], glb[9], glb[10], glb[11]]) as usize, glb.len());
    let chunks = parse_glb_container(&glb).expect("well-formed container");
    assert_eq!(chunks.json.len() % 4, 0);
    assert_eq!(&chunks.json[..json.len()], &json[..]);
    assert!(chunks.json[json.len()..].iter().all(|b| *b == b' '));
    assert_eq!(chunks.bin, vec![1, 2, 3, 4, 5, 0, 0, 0]);
}

#[test]
fn malformed_containers_are_reported() {
    assert_eq!(parse_glb_container(&[0u8; 8]).err(), Some(GltfMeshError::UnexpectedEof));
    let mut glb = assemble_glb(b"{}", &[0u8; 4]);
    glb[0] = b'x';
    assert!(matches!(parse_glb_container(&glb), Err(GltfMeshError::InvalidMagic(_))));
    let mut glb = assemble_glb(b"{}", &[0u8; 4]);
    glb[4] = 1;
    assert_eq!(parse_glb_container(&glb).err(), Some(GltfMeshError::UnsupportedVersion(1)));
    let mut glb = assemble_glb(b"{}", &[0u8; 4]);
    glb.truncate(glb.len() - 2);
    assert_eq!(parse_glb_container(&glb).err(), Some(GltfMeshError::UnexpectedEof));
    let glb = assemble_glb(b"{}", &[0u8; 4]);
    let mut without_bin = glb[..20 + 4].to_vec();
    without_bin[8..12].copy_from_slice(&(24u32).to_le_bytes());
    assert_eq!(parse_glb_container(&without_bin).err(), Some(GltfMeshError::MissingBinaryChunk));
}

#[test]
fn component_layouts_follow_the_gltf_tables() {
    assert_eq!(get_component_byte_size(5121).unwrap(), 1);
    assert_eq!(get_component_byte_size(5123).unwrap(), 2);
    assert_eq!(get_component_byte_size(5126).unwrap(), 4);
    assert_eq!(
        get_component_byte_size(5130),
        Err(GltfMeshError::InvalidAccessor("Unsupported glTF componentType: 5130".to_string()))
    );
    assert_eq!(get_type_component_count("VEC3").unwrap(), 3);
    assert_eq!(get_type_component_count("MAT4").unwrap(), 16);
    assert_eq!(
        get_type_component_count("VEC5"),
        Err(GltfMeshError::InvalidAccessor("Unsupported glTF type: VEC5".to_string()))
    );
}

#[test]
fn accessors_resolve_to_byte_ranges_or_explain_why_not() {
    let accessors = vec![accessor(0, 3, 5126, "VEC3"), accessor(1, 3, 5125, "SCALAR"), accessor(7, 1, 5121, "SCALAR")];
    let views = vec![view(0, 36), view(36, 12)];
    let a = accessor_data(&accessors, &views, 0, 48).unwrap();
    assert_eq!((a.start, a.end, a.count, a.component_type), (0, 36, 3, 5126));
    assert!(check_position_accessor(&a).is_ok());
    let b = accessor_data(&accessors, &views, 1, 48).unwrap();
    assert_eq!((b.start, b.end), (36, 48));
    assert_eq!(
        check_position_accessor(&b),
        Err(GltfMeshError::InvalidAccessor("POSITION accessor must be FLOAT VEC3, got 5125 SCALAR".to_string()))
    );
    assert_eq!(
        accessor_data(&accessors, &views, 2, 48),
        Err(GltfMeshError::InvalidBufferView("BufferView 7 missing".to_string()))
    );
    assert_eq!(
        accessor_data(&accessors, &views, 5, 48),
        Err(GltfMeshError::InvalidAccessor("Accessor 5 missing".to_string()))
    );
    assert_eq!(
        accessor_data(&accessors, &views, 1, 40),
        Err(GltfMeshError::InvalidAccessor(
            "Accessor 1 data slice out of bounds: range 36..48 exceeds bufferView len 12 or bin len 40".to_string()
        ))
    );
}

#[test]
fn indices_and_joints_round_trip_through_their_bytes() {
    let indices = vec![0u32, 1, 2, 70000];
    let bytes = encode_indices(&indices);
    assert_eq!(bytes.len(), 16);
    let slice = AccessorSlice { start: 0, end: 16, count: 4, component_type: 5125, elem_type: "SCALAR".to_string() };
    assert_eq!(decode_indices(&bytes, &slice), indices);
    let shorts = AccessorSlice { start: 0, end: 4, count: 2, component_type: 5123, elem_type: "SCALAR".to_string() };
    assert_eq!(decode_indices(&[1, 0, 2, 1], &shorts), vec![1, 258]);

    let joints = vec![[1u16, 2, 3, 4], [500, 0, 7, 65535]];
    let bytes = encode_joints(&joints);
    let slice = AccessorSlice { start: 0, end: 16, count: 2, component_type: 5123, elem_type: "VEC4".to_string() };
    assert_eq!(decode_joints(&bytes, &slice, 3), vec![[1, 2, 3, 4], [500, 0, 7, 65535], [0, 0, 0, 0]]);
}

#[test]
fn buffer_views_are_four_byte_aligned() {
    let mut builder = GlbBinBuilder::new();
    assert_eq!(builder.push_buffer_view(&[1, 2, 3], Some(34962)), 0);
    assert_eq!(builder.push_buffer_view(&[9; 8], None), 1);
    assert_eq!(builder.views[0].byte_offset, 0);
    assert_eq!(builder.views[1].byte_offset, 4);
    assert_eq!(builder.views[1].byte_length, 8);
    let bin = builder.finish();
    assert_eq!(bin, vec![1, 2, 3, 0, 9, 9, 9, 9, 9, 9, 9, 9]);
}

#[test]
fn topology_mismatches_are_reported_first_by_counts_then_by_entry() {
    assert_eq!(check_topology_match(3, 3, &[0, 1, 2], &[0, 1, 2]), Ok(()));
    assert_eq!(
        check_topology_match(3, 4, &[0, 1, 2], &[0, 1, 2]),
        Err(GltfMeshError::IsomorphismMismatch(
            "Vertex count mismatch: self has 3 vertices, other has 4".to_string()
        ))
    );
    assert_eq!(
        check_topology_match(3, 3, &[0, 1, 2], &[0, 1]),
        Err(GltfMeshError::IsomorphismMismatch("Index count mismatch: self has 3 indices, other has 2".to_string()))
    );
    let e = check_topology_match(4, 4, &[0, 1, 2, 2, 3, 0], &[0, 1, 2, 2, 0, 3]).expect_err("differs");
    assert_eq!(e, GltfMeshError::IsomorphismMismatch("Triangle index mismatch at entry 4: 3 vs 0".to_string()));
    assert_eq!(e.message(), "Topology isomorphism mismatch: Triangle index mismatch at entry 4: 3 vs 0");
}

#[test]
fn channels_that_read_past_their_accessor_are_refused() {
    let joints = AccessorSlice { start: 4, end: 24, count: 3, component_type: 5123, elem_type: "VEC4".to_string() };
    assert_eq!(
        check_channel(&joints, 4, 3),
        Err(GltfMeshError::InvalidAccessor("accessor data is shorter than its vertex channel".to_string()))
    );
    assert_eq!(check_channel(&joints, 4, 2), Ok(2));
    let uvs = AccessorSlice { start: 0, end: 8, count: 5, component_type: 5126, elem_type: "VEC2".to_string() };
    assert_eq!(check_channel(&uvs, 2, 1), Ok(1));
    assert!(check_channel(&uvs, 2, 2).is_err());
    let unknown = AccessorSlice { start: 0, end: 0, count: 7, component_type: 9999, elem_type: "VEC4".to_string() };
    assert_eq!(check_channel(&unknown, 4, 5), Ok(5));
}

fn primitive(attributes: Option<Vec<(&str, Option<u64>)>>, indices: Option<u64>) -> PrimitiveDesc {
    PrimitiveDesc {
        attributes: attributes.map(|list| list.into_iter().map(|(n, v)| (n.to_string(), v)).collect()),
        indices,
    }
}

#[test]
fn the_first_primitive_of_the_first_mesh_is_chosen() {
    let meshes = vec![MeshDesc {
        name: None,
        primitives: vec![primitive(Some(vec![("NORMAL", Some(1)), ("POSITION", Some(0))]), Some(2))],
    }];
    let choice = choose_primitive(&meshes).expect("a position is there");
    assert_eq!(choice.mesh_name, "UnnamedMesh");
    assert_eq!(choice.position, 0);
    assert_eq!(choice.indices, Some(2));
    assert_eq!(attribute_entry(&choice.attributes, "NORMAL"), Some(Some(1)));
    assert_eq!(attribute_entry(&choice.attributes, "COLOR_0"), None);
}

#[test]
fn missing_parts_of_the_document_are_named() {
    let no_meshes: Vec<MeshDesc> = Vec::new();
    assert_eq!(
        choose_primitive(&no_meshes).err(),
        Some(GltfMeshError::InvalidAccessor("No meshes in glTF".to_string()))
    );
    let no_prims = vec![MeshDesc { name: Some("m".to_string()), primitives: Vec::new() }];
    assert_eq!(
        choose_primitive(&no_prims).err(),
        Some(GltfMeshError::InvalidAccessor("No primitives in mesh".to_string()))
    );
    let no_attrs = vec![MeshDesc { name: None, primitives: vec![primitive(None, None)] }];
    assert_eq!(
        choose_primitive(&no_attrs).err(),
        Some(GltfMeshError::InvalidAccessor("Primitive missing attributes".to_string()))
    );
    let bad_position = vec![MeshDesc { name: None, primitives: vec![primitive(Some(vec![("POSITION", None)]), None)] }];
    assert_eq!(choose_primitive(&bad_position).err(), Some(GltfMeshError::MissingPosition));
}
