use anigo_core::export::{buffer_checksum, check_export_meshes, export_geometry_info, ExportError, VERTEX_STRIDE_BYTES};
use anigo_core::ids::AssetId;
use anigo_core::ids::fnv1a64;

#[test]
fn checksum_is_the_fnv_1a_64_of_the_bytes() {
    assert_eq!(buffer_checksum(b""), "cbf29ce484222325");
    assert_eq!(buffer_checksum(b"anigo"), "badef0cd4c0ad193");
    assert_eq!(buffer_checksum(&[0x00, 0x01, 0x02, 0xff]), buffer_checksum(&[0x00, 0x01, 0x02, 0xff]));
}

#[test]
fn checksum_agrees_with_the_id_hash_on_utf8_text() {
    let text = "anigo://base/anigo_base_male.glb";
    assert_eq!(buffer_checksum(text.as_bytes()), format!("{:016x}", fnv1a64(text)));
    assert_eq!(buffer_checksum(&[0x61]).len(), 16);
}

#[test]
fn empty_or_mismatched_meshes_are_not_exported() {
    assert_eq!(check_export_meshes(8, 36, 8), Ok(()));
    let empty = check_export_meshes(0, 36, 0).unwrap_err();
    assert_eq!(empty, ExportError::EmptyMesh { vertices: 0, indices: 36 });
    assert_eq!(empty.message(), "malha vazia: nada a exportar (0 vértices, 36 índices)");
    let mismatch = check_export_meshes(8, 36, 7).unwrap_err();
    assert_eq!(mismatch, ExportError::VertexCountMismatch { deformed: 7, base: 8 });
    assert_eq!(
        mismatch.message(),
        "malha deformada com 7 vértices, mas a base tem 8 — exportar isto geraria um artefato inválido"
    );
}

#[test]
fn geometry_records_count_triangles_and_name_the_mesh_asset() {
    let g = export_geometry_info(
        8,
        36,
        "t".to_string(),
        "v".to_string(),
        "i".to_string(),
        "c".to_string(),
        "anigo://preset/cube",
    );
    assert_eq!((g.vertex_count, g.index_count, g.triangle_count), (8, 36, 12));
    assert_eq!(g.vertex_stride_bytes, VERTEX_STRIDE_BYTES);
    assert_eq!(g.mesh_asset_id, AssetId::for_uri("anigo://preset/cube").as_str());
    assert_eq!(g.mesh_uri, "anigo://preset/cube");
}
