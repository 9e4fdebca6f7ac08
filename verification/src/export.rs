//! Identity of an exported artifact: byte checksums and the geometry, skin
//! and project records of the export manifest.
use vstd::prelude::*;

use crate::glb::{gltf_error_message, GltfErrorView, GltfMeshError};
use crate::ids::{asset_id_for, AssetId, CharacterId, ProjectId};
use crate::project::BaseGender;
use crate::text::{decimal, decimal_string, fnv1a64_bytes, fnv1a64_of, hex16, hex16_string};

verus! {

/// Version of the export document.
pub const EXPORT_FORMAT_VERSION: u32 = 1;

/// Who produced the file.
pub const EXPORT_GENERATOR: &'static str = "anigo-core/export";

/// FNV-1a-64 of the bytes, as 16 lower-case hexadecimal digits.
pub fn buffer_checksum(bytes: &[u8]) -> (s: String)
    ensures
        s@ == hex16(fnv1a64_of(bytes@)),
{
    let hash = fnv1a64_bytes(bytes);
    hex16_string(hash)
}

/// Identity of the base geometry of the artifact.
#[derive(Debug, Clone, PartialEq, Eq)]
pub struct ExportGeometryInfo {
    pub vertex_count: u32,
    pub index_count: u32,
    pub triangle_count: u32,
    pub vertex_stride_bytes: u32,
    pub topology_hash: String,
    /// Checksum of the packed base vertices (before morphs).
    pub base_vertex_checksum: String,
    /// Checksum of the packed indices.
    pub base_index_checksum: String,
    pub catalog_fingerprint: String,
    pub mesh_uri: String,
    pub mesh_asset_id: String,
}

/// Skinning state of the artifact.
#[derive(Debug, Clone, PartialEq, Eq)]
pub struct ExportSkinInfo {
    pub bone_count: u32,
    pub bind_pose: String,
    pub palette_is_identity: bool,
    pub palette_checksum: String,
    /// Vertices whose weights sum to one.
    pub skinned_vertices: u32,
    /// Vertices without influence.
    pub unskinned_vertices: u32,
}

/// Identity of the exported project.
#[derive(Debug, Clone, PartialEq, Eq)]
pub struct ExportProjectInfo {
    pub project_id: ProjectId,
    pub project_name: String,
    pub character_id: CharacterId,
    pub base_gender: BaseGender,
    pub static_revision: u64,
    pub dynamic_revision: u64,
    pub snapshot_version: u32,
}


/// Bytes per packed vertex (position, normal, uv, colour, joints, weights).
pub const VERTEX_STRIDE_BYTES: u32 = 72;

/// Why an export was refused.
#[derive(Debug, Clone, PartialEq, Eq)]
pub enum ExportError {
    /// The base mesh has no vertex or no index.
    EmptyMesh { vertices: usize, indices: usize },
    /// The deformed mesh does not have the base mesh's vertex count.
    VertexCountMismatch { deformed: usize, base: usize },
    /// Writing the GLB failed.
    Glb(GltfMeshError),
}

/// Mathematical view of an `ExportError`.
pub enum ExportErrorView {
    EmptyMesh { vertices: nat, indices: nat },
    VertexCountMismatch { deformed: nat, base: nat },
    Glb(GltfErrorView),
}

impl View for ExportError {
    type V = ExportErrorView;

    open spec fn view(&self) -> ExportErrorView {
        match self {
            ExportError::EmptyMesh { vertices, indices } => ExportErrorView::EmptyMesh {
                vertices: *vertices as nat,
                indices: *indices as nat,
            },
            ExportError::VertexCountMismatch { deformed, base } => ExportErrorView::VertexCountMismatch {
                deformed: *deformed as nat,
                base: *base as nat,
            },
            ExportError::Glb(e) => ExportErrorView::Glb(e@),
        }
    }
}

/// The text of an export error.
pub open spec fn export_error_message(e: ExportErrorView) -> Seq<char> {
    match e {
        ExportErrorView::EmptyMesh { vertices, indices } => "malha vazia: nada a exportar ("@ + decimal(vertices)
            + " vértices, "@ + decimal(indices) + " índices)"@,
        ExportErrorView::VertexCountMismatch { deformed, base } => "malha deformada com "@ + decimal(deformed)
            + " vértices, mas a base tem "@ + decimal(base) + " — exportar isto geraria um artefato inválido"@,
        ExportErrorView::Glb(g) => "falha ao serializar o GLB: "@ + gltf_error_message(g),
    }
}

impl ExportError {
    /// The text of the error.
    pub fn message(&self) -> (m: String)
        ensures
            m@ == export_error_message(self@),
    {
        match self {
            ExportError::EmptyMesh { vertices, indices } => {
                let mut m = String::from_str("malha vazia: nada a exportar (");
                m.append(decimal_string(*vertices as u64).as_str());
                m.append(" vértices, ");
                m.append(decimal_string(*indices as u64).as_str());
                m.append(" índices)");
                m
            },
            ExportError::VertexCountMismatch { deformed, base } => {
                let mut m = String::from_str("malha deformada com ");
                m.append(decimal_string(*deformed as u64).as_str());
                m.append(" vértices, mas a base tem ");
                m.append(decimal_string(*base as u64).as_str());
                m.append(" — exportar isto geraria um artefato inválido");
                m
            },
            ExportError::Glb(g) => {
                let mut m = String::from_str("falha ao serializar o GLB: ");
                m.append(g.message().as_str());
                m
            },
        }
    }
}

/// The mesh problem that refuses an export, if any: an empty base mesh, then
/// a deformed mesh whose vertex count differs from the base's.
pub open spec fn export_mesh_problem(base_vertices: nat, base_indices: nat, deformed_vertices: nat) -> Option<
    ExportErrorView,
> {
    if base_vertices == 0 || base_indices == 0 {
        Some(ExportErrorView::EmptyMesh { vertices: base_vertices, indices: base_indices })
    } else if deformed_vertices != base_vertices {
        Some(ExportErrorView::VertexCountMismatch { deformed: deformed_vertices, base: base_vertices })
    } else {
        None
    }
}

/// Checks that a base mesh and its deformed copy can be exported.
pub fn check_export_meshes(base_vertices: usize, base_indices: usize, deformed_vertices: usize) -> (r: Result<
    (),
    ExportError,
>)
    ensures
        match r {
            Ok(_) => export_mesh_problem(base_vertices as nat, base_indices as nat, deformed_vertices as nat) is None,
            Err(e) => export_mesh_problem(base_vertices as nat, base_indices as nat, deformed_vertices as nat)
                == Some(e@),
        },
{
    if base_vertices == 0 || base_indices == 0 {
        return Err(ExportError::EmptyMesh { vertices: base_vertices, indices: base_indices });
    }
    if deformed_vertices != base_vertices {
        return Err(ExportError::VertexCountMismatch { deformed: deformed_vertices, base: base_vertices });
    }
    Ok(())
}

/// The geometry record of an export: the base mesh's counts (as `u32`), its
/// triangle count, the packed vertex stride, the checksums and fingerprints
/// computed by the caller, and the mesh URI with its content-addressed id.
pub fn export_geometry_info(
    vertex_count: usize,
    index_count: usize,
    topology_hash: String,
    base_vertex_checksum: String,
    base_index_checksum: String,
    catalog_fingerprint: String,
    mesh_uri: &str,
) -> (g: ExportGeometryInfo)
    ensures
        g.vertex_count == vertex_count as u32,
        g.index_count == index_count as u32,
        g.triangle_count == (index_count / 3) as u32,
        g.vertex_stride_bytes == VERTEX_STRIDE_BYTES,
        g.topology_hash@ == topology_hash@,
        g.base_vertex_checksum@ == base_vertex_checksum@,
        g.base_index_checksum@ == base_index_checksum@,
        g.catalog_fingerprint@ == catalog_fingerprint@,
        g.mesh_uri@ == mesh_uri@,
        g.mesh_asset_id@ == asset_id_for(mesh_uri@),
{
    ExportGeometryInfo {
        vertex_count: #[verifier::truncate] (vertex_count as u32),
        index_count: #[verifier::truncate] (index_count as u32),
        triangle_count: #[verifier::truncate] ((index_count / 3) as u32),
        vertex_stride_bytes: VERTEX_STRIDE_BYTES,
        topology_hash,
        base_vertex_checksum,
        base_index_checksum,
        catalog_fingerprint,
        mesh_uri: String::from_str(mesh_uri),
        mesh_asset_id: AssetId::for_uri(mesh_uri).into_string(),
    }
}

} // verus!
