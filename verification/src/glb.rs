//! The glTF 2.0 binary container (GLB): header and chunk layout, accessor
//! ranges inside the binary chunk, and the integer channels (indices and
//! joints) stored there.
//!
//! A GLB file is a 12-byte header (magic, version, total length) followed by
//! chunks, each an 8-byte header (length, type) and a body padded to four
//! bytes. All integers are little endian.
use vstd::prelude::*;

use crate::text::{decimal, decimal_string, hex_lower, hex_lower_string, str_eq};

verus! {

/// `glTF` in little endian.
pub const GLB_MAGIC: u32 = 0x46546C67;

/// Type of the JSON chunk (`JSON`).
pub const GLB_CHUNK_JSON: u32 = 0x4E4F534A;

/// Type of the binary chunk (`BIN\0`).
pub const GLB_CHUNK_BIN: u32 = 0x004E4942;

/// Errors of GLB container and accessor parsing.
#[derive(Debug, Clone, PartialEq, Eq)]
pub enum GltfMeshError {
    /// The file does not start with the glTF magic number.
    InvalidMagic(u32),
    /// The container version is not 2.
    UnsupportedVersion(u32),
    /// A chunk runs past the end of the data.
    UnexpectedEof,
    /// No JSON chunk in the container.
    MissingJsonChunk,
    /// No binary chunk in the container.
    MissingBinaryChunk,
    /// An accessor is missing, malformed or out of bounds.
    InvalidAccessor(String),
    /// A buffer view is missing, malformed or out of bounds.
    InvalidBufferView(String),
    /// The primitive has no `POSITION` attribute.
    MissingPosition,
    /// Two meshes that should share a topology do not.
    IsomorphismMismatch(String),
}

/// Mathematical view of a `GltfMeshError`.
pub enum GltfErrorView {
    InvalidMagic(u32),
    UnsupportedVersion(u32),
    UnexpectedEof,
    MissingJsonChunk,
    MissingBinaryChunk,
    InvalidAccessor(Seq<char>),
    InvalidBufferView(Seq<char>),
    MissingPosition,
    IsomorphismMismatch(Seq<char>),
}

impl View for GltfMeshError {
    type V = GltfErrorView;

    open spec fn view(&self) -> GltfErrorView {
        match self {
            GltfMeshError::InvalidMagic(m) => GltfErrorView::InvalidMagic(*m),
            GltfMeshError::UnsupportedVersion(v) => GltfErrorView::UnsupportedVersion(*v),
            GltfMeshError::UnexpectedEof => GltfErrorView::UnexpectedEof,
            GltfMeshError::MissingJsonChunk => GltfErrorView::MissingJsonChunk,
            GltfMeshError::MissingBinaryChunk => GltfErrorView::MissingBinaryChunk,
            GltfMeshError::InvalidAccessor(s) => GltfErrorView::InvalidAccessor(s@),
            GltfMeshError::InvalidBufferView(s) => GltfErrorView::InvalidBufferView(s@),
            GltfMeshError::MissingPosition => GltfErrorView::MissingPosition,
            GltfMeshError::IsomorphismMismatch(s) => GltfErrorView::IsomorphismMismatch(s@),
        }
    }
}

/// The text of a GLB error.
pub open spec fn gltf_error_message(e: GltfErrorView) -> Seq<char> {
    match e {
        GltfErrorView::InvalidMagic(m) => "Invalid glTF magic number: expected 0x46546C67 (glTF), found 0x"@
            + hex_lower(m as nat),
        GltfErrorView::UnsupportedVersion(v) => "Unsupported glTF version: "@ + decimal(v as nat) + " (expected 2)"@,
        GltfErrorView::UnexpectedEof => "Corrupted GLB chunk or unexpected EOF"@,
        GltfErrorView::MissingJsonChunk => "JSON chunk not found in GLB container"@,
        GltfErrorView::MissingBinaryChunk => "Binary chunk not found in GLB container"@,
        GltfErrorView::InvalidAccessor(s) => "Accessor out of bounds or invalid: "@ + s,
        GltfErrorView::InvalidBufferView(s) => "BufferView out of bounds: "@ + s,
        GltfErrorView::MissingPosition => "Mesh does not contain POSITION attribute"@,
        GltfErrorView::IsomorphismMismatch(s) => "Topology isomorphism mismatch: "@ + s,
    }
}

impl GltfMeshError {
    /// The text of the error.
    pub fn message(&self) -> (m: String)
        ensures
            m@ == gltf_error_message(self@),
    {
        match self {
            GltfMeshError::InvalidMagic(magic) => {
                let mut m = String::from_str("Invalid glTF magic number: expected 0x46546C67 (glTF), found 0x");
                let digits = hex_lower_string(*magic as u64);
                m.append(digits.as_str());
                m
            },
            GltfMeshError::UnsupportedVersion(version) => {
                let mut m = String::from_str("Unsupported glTF version: ");
                let digits = decimal_string(*version as u64);
                m.append(digits.as_str());
                m.append(" (expected 2)");
                m
            },
            GltfMeshError::UnexpectedEof => String::from_str("Corrupted GLB chunk or unexpected EOF"),
            GltfMeshError::MissingJsonChunk => String::from_str("JSON chunk not found in GLB container"),
            GltfMeshError::MissingBinaryChunk => String::from_str("Binary chunk not found in GLB container"),
            GltfMeshError::InvalidAccessor(detail) => {
                let mut m = String::from_str("Accessor out of bounds or invalid: ");
                m.append(detail.as_str());
                m
            },
            GltfMeshError::InvalidBufferView(detail) => {
                let mut m = String::from_str("BufferView out of bounds: ");
                m.append(detail.as_str());
                m
            },
            GltfMeshError::MissingPosition => String::from_str("Mesh does not contain POSITION attribute"),
            GltfMeshError::IsomorphismMismatch(detail) => {
                let mut m = String::from_str("Topology isomorphism mismatch: ");
                m.append(detail.as_str());
                m
            },
        }
    }
}

// ---------------------------------------------------------------------------
// Little-endian integers
// ---------------------------------------------------------------------------

/// The little-endian `u32` at `at`.
pub open spec fn le_u32(b: Seq<u8>, at: int) -> u32 {
    (b[at] as int + 256 * b[at + 1] as int + 65536 * b[at + 2] as int + 16777216 * b[at + 3] as int) as u32
}

/// The little-endian `u16` at `at`.
pub open spec fn le_u16(b: Seq<u8>, at: int) -> u16 {
    (b[at] as int + 256 * b[at + 1] as int) as u16
}

/// The little-endian `u32` at `at` (`u32::from_le_bytes`).
pub fn read_u32_le(b: &[u8], at: usize) -> (v: u32)
    requires
        at + 4 <= b.len(),
    ensures
        v == le_u32(b@, at as int),
        v as int == b@[at as int] as int + 256 * b@[at + 1] as int + 65536 * b@[at + 2] as int + 16777216
            * b@[at + 3] as int,
{
    (b[at] as u32) + (b[at + 1] as u32) * 256 + (b[at + 2] as u32) * 65536 + (b[at + 3] as u32) * 16777216
}

/// The little-endian `u16` at `at` (`u16::from_le_bytes`).
pub fn read_u16_le(b: &[u8], at: usize) -> (v: u16)
    requires
        at + 2 <= b.len(),
    ensures
        v == le_u16(b@, at as int),
        v as int == b@[at as int] as int + 256 * b@[at + 1] as int,
{
    (b[at] as u16) + (b[at + 1] as u16) * 256
}

// ---------------------------------------------------------------------------
// Component sizes
// ---------------------------------------------------------------------------

/// Byte size of a glTF component type, if supported.
pub open spec fn component_size(comp_type: u32) -> Option<nat> {
    if comp_type == 5120 || comp_type == 5121 {
        Some(1)
    } else if comp_type == 5122 || comp_type == 5123 {
        Some(2)
    } else if comp_type == 5125 || comp_type == 5126 {
        Some(4)
    } else {
        None
    }
}

/// Message refusing a component type.
pub open spec fn component_type_message(comp_type: u32) -> Seq<char> {
    "Unsupported glTF componentType: "@ + decimal(comp_type as nat)
}

/// Byte size of a glTF component type (`BYTE` .. `FLOAT`).
pub fn get_component_byte_size(comp_type: u32) -> (r: Result<usize, GltfMeshError>)
    ensures
        match component_size(comp_type) {
            Some(n) => r == Ok::<usize, GltfMeshError>(n as usize),
            None => r matches Err(e) && e@ == GltfErrorView::InvalidAccessor(component_type_message(comp_type)),
        },
{
    if comp_type == 5120 || comp_type == 5121 {
        Ok(1)
    } else if comp_type == 5122 || comp_type == 5123 {
        Ok(2)
    } else if comp_type == 5125 || comp_type == 5126 {
        Ok(4)
    } else {
        let mut m = String::from_str("Unsupported glTF componentType: ");
        let d = decimal_string(comp_type as u64);
        m.append(d.as_str());
        assert(m@ =~= component_type_message(comp_type));
        Err(GltfMeshError::InvalidAccessor(m))
    }
}

/// Number of components of a glTF element type, if supported.
pub open spec fn type_components(elem_type: Seq<char>) -> Option<nat> {
    if elem_type == "SCALAR"@ {
        Some(1)
    } else if elem_type == "VEC2"@ {
        Some(2)
    } else if elem_type == "VEC3"@ {
        Some(3)
    } else if elem_type == "VEC4"@ || elem_type == "MAT2"@ {
        Some(4)
    } else if elem_type == "MAT3"@ {
        Some(9)
    } else if elem_type == "MAT4"@ {
        Some(16)
    } else {
        None
    }
}

/// Message refusing an element type.
pub open spec fn type_message(elem_type: Seq<char>) -> Seq<char> {
    "Unsupported glTF type: "@ + elem_type
}

/// Number of components of a glTF element type (`SCALAR` .. `MAT4`).
pub fn get_type_component_count(type_str: &str) -> (r: Result<usize, GltfMeshError>)
    ensures
        match type_components(type_str@) {
            Some(n) => r == Ok::<usize, GltfMeshError>(n as usize),
            None => r matches Err(e) && e@ == GltfErrorView::InvalidAccessor(type_message(type_str@)),
        },
{
    if str_eq(type_str, "SCALAR") {
        Ok(1)
    } else if str_eq(type_str, "VEC2") {
        Ok(2)
    } else if str_eq(type_str, "VEC3") {
        Ok(3)
    } else if str_eq(type_str, "VEC4") {
        Ok(4)
    } else if str_eq(type_str, "MAT2") {
        Ok(4)
    } else if str_eq(type_str, "MAT3") {
        Ok(9)
    } else if str_eq(type_str, "MAT4") {
        Ok(16)
    } else {
        let mut m = String::from_str("Unsupported glTF type: ");
        m.append(type_str);
        Err(GltfMeshError::InvalidAccessor(m))
    }
}

// ---------------------------------------------------------------------------
// Container
// ---------------------------------------------------------------------------

/// `n` rounded up to a multiple of four.
pub open spec fn pad4(n: int) -> int {
    ((n + 3) / 4) * 4
}

/// How far `offset` is from `file_len` (zero past it).
pub open spec fn remaining(file_len: int, offset: int) -> nat {
    if offset <= file_len {
        (file_len - offset) as nat
    } else {
        0
    }
}

/// The chunk walk from `offset`: each chunk header gives the body length
/// and type; the last JSON and the last binary chunk seen win; the walk
/// stops when no full chunk header fits before `file_len`. Chunks are given
/// as (start, length).
pub open spec fn walk_chunks(
    b: Seq<u8>,
    file_len: int,
    offset: int,
    json: Option<(int, int)>,
    bin: Option<(int, int)>,
) -> Result<(Option<(int, int)>, Option<(int, int)>), GltfErrorView>
    decreases remaining(file_len, offset),
{
    if 0 <= offset && offset + 8 <= file_len && file_len <= b.len() {
        let len = le_u32(b, offset) as int;
        let ty = le_u32(b, offset + 4);
        let start = offset + 8;
        if start + len > b.len() {
            Err(GltfErrorView::UnexpectedEof)
        } else {
            let json2 = if ty == GLB_CHUNK_JSON {
                Some((start, len))
            } else {
                json
            };
            let bin2 = if ty == GLB_CHUNK_BIN {
                Some((start, len))
            } else {
                bin
            };
            walk_chunks(b, file_len, start + pad4(len), json2, bin2)
        }
    } else {
        Ok((json, bin))
    }
}

/// What parsing a GLB container gives: the JSON chunk body and the binary
/// chunk body, or the first problem found.
pub open spec fn glb_parse(b: Seq<u8>) -> Result<(Seq<u8>, Seq<u8>), GltfErrorView> {
    if b.len() < 12 {
        Err(GltfErrorView::UnexpectedEof)
    } else if le_u32(b, 0) != GLB_MAGIC {
        Err(GltfErrorView::InvalidMagic(le_u32(b, 0)))
    } else if le_u32(b, 4) != 2 {
        Err(GltfErrorView::UnsupportedVersion(le_u32(b, 4)))
    } else if b.len() < le_u32(b, 8) {
        Err(GltfErrorView::UnexpectedEof)
    } else {
        match walk_chunks(b, le_u32(b, 8) as int, 12, None, None) {
            Err(e) => Err(e),
            Ok((json, bin)) => match json {
                None => Err(GltfErrorView::MissingJsonChunk),
                Some((js, jl)) => match bin {
                    None => Err(GltfErrorView::MissingBinaryChunk),
                    Some((bs, bl)) => Ok((b.subrange(js, js + jl), b.subrange(bs, bs + bl))),
                },
            },
        }
    }
}

/// A recorded chunk as integers.
pub open spec fn chunk_view(c: Option<(usize, usize)>) -> Option<(int, int)> {
    match c {
        Some((s, l)) => Some((s as int, l as int)),
        None => None,
    }
}

/// The two chunk bodies of a GLB container.
pub struct GlbChunks {
    /// Body of the JSON chunk.
    pub json: Vec<u8>,
    /// Body of the binary chunk.
    pub bin: Vec<u8>,
}

/// `n` rounded up to a multiple of four.
fn padded4(n: usize) -> (r: usize)
    requires
        n + 3 <= usize::MAX,
    ensures
        r == pad4(n as int),
{
    let rem = n % 4;
    if rem == 0 {
        n
    } else {
        n - rem + 4
    }
}

/// One step of the chunk walk.
proof fn lemma_walk_step(b: Seq<u8>, file_len: int, offset: int, json: Option<(int, int)>, bin: Option<(int, int)>)
    requires
        0 <= offset,
        offset + 8 <= file_len <= b.len(),
    ensures
        ({
            let len = le_u32(b, offset) as int;
            let ty = le_u32(b, offset + 4);
            let start = offset + 8;
            walk_chunks(b, file_len, offset, json, bin) == if start + len > b.len() {
                Err(GltfErrorView::UnexpectedEof)
            } else {
                walk_chunks(
                    b,
                    file_len,
                    start + pad4(len),
                    if ty == GLB_CHUNK_JSON {
                        Some((start, len))
                    } else {
                        json
                    },
                    if ty == GLB_CHUNK_BIN {
                        Some((start, len))
                    } else {
                        bin
                    },
                )
            }
        }),
{
}

/// A copy of `b[start .. start + len]`.
fn copy_range(b: &[u8], start: usize, len: usize) -> (out: Vec<u8>)
    requires
        start + len <= b.len(),
    ensures
        out@ == b@.subrange(start as int, start + len),
{
    let mut out: Vec<u8> = Vec::new();
    let mut k: usize = 0;
    while k < len
        invariant
            k <= len,
            start + len <= b.len(),
            out@ == b@.subrange(start as int, start + k),
        decreases len - k,
    {
        out.push(b[start + k]);
        assert(b@.subrange(start as int, start + k + 1) =~= b@.subrange(start as int, start + k).push(
            b@[start + k],
        ));
        k += 1;
    }
    out
}

/// Parses a GLB container into its JSON and binary chunk bodies.
pub fn parse_glb_container(bytes: &[u8]) -> (r: Result<GlbChunks, GltfMeshError>)
    ensures
        match r {
            Ok(c) => glb_parse(bytes@) == Ok::<(Seq<u8>, Seq<u8>), GltfErrorView>((c.json@, c.bin@)),
            Err(e) => glb_parse(bytes@) == Err::<(Seq<u8>, Seq<u8>), GltfErrorView>(e@),
        },
{
    let ghost b = bytes@;
    if bytes.len() < 12 {
        return Err(GltfMeshError::UnexpectedEof);
    }
    let magic = read_u32_le(bytes, 0);
    if magic != GLB_MAGIC {
        return Err(GltfMeshError::InvalidMagic(magic));
    }
    let version = read_u32_le(bytes, 4);
    if version != 2 {
        return Err(GltfMeshError::UnsupportedVersion(version));
    }
    let file_length = read_u32_le(bytes, 8) as usize;
    if bytes.len() < file_length {
        return Err(GltfMeshError::UnexpectedEof);
    }
    let ghost fl = file_length as int;
    let mut offset: usize = 12;
    let mut json: Option<(usize, usize)> = None;
    let mut bin: Option<(usize, usize)> = None;
    let mut done = file_length < 20;
    while !done
        invariant
            b == bytes@,
            fl == file_length as int,
            file_length <= bytes.len(),
            12 <= offset,
            b.len() >= 12,
            le_u32(b, 0) == GLB_MAGIC,
            le_u32(b, 4) == 2,
            fl == le_u32(b, 8) as int,
            json matches Some((s, l)) ==> s + l <= bytes.len(),
            bin matches Some((s, l)) ==> s + l <= bytes.len(),
            !done ==> offset + 8 <= file_length && walk_chunks(b, fl, 12, None, None) == walk_chunks(
                b,
                fl,
                offset as int,
                chunk_view(json),
                chunk_view(bin),
            ),
            done ==> walk_chunks(b, fl, 12, None, None) == Ok::<
                (Option<(int, int)>, Option<(int, int)>),
                GltfErrorView,
            >((chunk_view(json), chunk_view(bin))),
        decreases file_length - offset + (if done {
            0int
        } else {
            1int
        }),
    {
        let chunk_len = read_u32_le(bytes, offset) as usize;
        let chunk_type = read_u32_le(bytes, offset + 4);
        let start = offset + 8;
        let ghost old_json = chunk_view(json);
        let ghost old_bin = chunk_view(bin);
        if chunk_len > bytes.len() - start {
            proof {
                lemma_walk_step(b, fl, offset as int, old_json, old_bin);
            }
            return Err(GltfMeshError::UnexpectedEof);
        }
        if chunk_type == GLB_CHUNK_JSON {
            json = Some((start, chunk_len));
        }
        if chunk_type == GLB_CHUNK_BIN {
            bin = Some((start, chunk_len));
        }
        let advance = padded4(chunk_len);
        proof {
            lemma_walk_step(b, fl, offset as int, old_json, old_bin);
        }
        if advance > file_length - start {
            done = true;
        } else {
            offset = start + advance;
            if file_length - offset < 8 {
                done = true;
            }
        }
    }
    let (js, jl) = match json {
        Some(j) => j,
        None => {
            return Err(GltfMeshError::MissingJsonChunk);
        },
    };
    let (bs, bl) = match bin {
        Some(x) => x,
        None => {
            return Err(GltfMeshError::MissingBinaryChunk);
        },
    };
    Ok(GlbChunks { json: copy_range(bytes, js, jl), bin: copy_range(bytes, bs, bl) })
}

// ---------------------------------------------------------------------------
// Accessors
// ---------------------------------------------------------------------------

/// What the glTF JSON says of an accessor: each field as read from the
/// document (`None` when absent or not of the expected JSON type).
#[derive(Debug, Clone, PartialEq, Eq)]
pub struct AccessorDesc {
    /// `bufferView`, as an unsigned integer.
    pub buffer_view: Option<u64>,
    /// `byteOffset`, as an unsigned integer.
    pub byte_offset: Option<u64>,
    /// `count`, as an unsigned integer.
    pub count: Option<u64>,
    /// `componentType`, as an unsigned integer.
    pub component_type: Option<u64>,
    /// `type`, as a string.
    pub elem_type: Option<String>,
}

/// What the glTF JSON says of a buffer view.
#[derive(Debug, Clone, PartialEq, Eq)]
pub struct BufferViewDesc {
    /// `byteOffset`, as an unsigned integer.
    pub byte_offset: Option<u64>,
    /// `byteLength`, as an unsigned integer.
    pub byte_length: Option<u64>,
}

/// A resolved accessor: its byte range in the binary chunk and its layout.
#[derive(Debug, Clone, PartialEq, Eq)]
pub struct AccessorSlice {
    /// First byte in the binary chunk.
    pub start: usize,
    /// One past the last byte.
    pub end: usize,
    /// Number of elements.
    pub count: usize,
    /// glTF component type.
    pub component_type: u32,
    /// glTF element type (`SCALAR`, `VEC3`, ...).
    pub elem_type: String,
}

/// `"Accessor <idx><suffix>"`.
pub open spec fn accessor_message(idx: nat, suffix: Seq<char>) -> Seq<char> {
    "Accessor "@ + decimal(idx) + suffix
}

/// `"BufferView <idx><suffix>"`.
pub open spec fn buffer_view_message(idx: nat, suffix: Seq<char>) -> Seq<char> {
    "BufferView "@ + decimal(idx) + suffix
}

/// The message of an accessor whose range does not fit.
pub open spec fn out_of_bounds_message(idx: nat, start: nat, end: nat, view_len: nat, bin_len: nat) -> Seq<char> {
    "Accessor "@ + decimal(idx) + " data slice out of bounds: range "@ + decimal(start) + ".."@ + decimal(end)
        + " exceeds bufferView len "@ + decimal(view_len) + " or bin len "@ + decimal(bin_len)
}

/// An optional unsigned value, zero when absent.
pub open spec fn or_zero(o: Option<u64>) -> u64 {
    match o {
        Some(v) => v,
        None => 0,
    }
}

/// The element type of an accessor (`SCALAR` when absent).
pub open spec fn elem_type_of(acc: AccessorDesc) -> Seq<char> {
    match acc.elem_type {
        Some(t) => t@,
        None => "SCALAR"@,
    }
}

/// Resolution of accessor `idx` against the buffer views and a binary chunk
/// of `bin_len` bytes: (start, end, count, component type, element type),
/// or the first problem found.
pub open spec fn accessor_spec(accs: Seq<AccessorDesc>, views: Seq<BufferViewDesc>, idx: nat, bin_len: nat) -> Result<
    (nat, nat, nat, u32, Seq<char>),
    GltfErrorView,
> {
    if idx >= accs.len() {
        Err(GltfErrorView::InvalidAccessor(accessor_message(idx, " missing"@)))
    } else {
        let acc = accs[idx as int];
        match acc.buffer_view {
            None => Err(GltfErrorView::InvalidAccessor(accessor_message(idx, " missing bufferView"@))),
            Some(bv_raw) => {
                let bv_idx = bv_raw as usize;
                if bv_idx >= views.len() {
                    Err(GltfErrorView::InvalidBufferView(buffer_view_message(bv_idx as nat, " missing"@)))
                } else {
                    let bv = views[bv_idx as int];
                    let bv_offset = or_zero(bv.byte_offset) as usize;
                    match bv.byte_length {
                        None => Err(
                            GltfErrorView::InvalidBufferView(buffer_view_message(bv_idx as nat, " missing byteLength"@)),
                        ),
                        Some(bl) => {
                            let bv_len = bl as usize;
                            let acc_offset = or_zero(acc.byte_offset) as usize;
                            match acc.count {
                                None => Err(GltfErrorView::InvalidAccessor(accessor_message(idx, " missing count"@))),
                                Some(c) => {
                                    let count = c as usize;
                                    match acc.component_type {
                                        None => Err(
                                            GltfErrorView::InvalidAccessor(
                                                accessor_message(idx, " missing componentType"@),
                                            ),
                                        ),
                                        Some(ct) => {
                                            let comp = ct as u32;
                                            let ty = elem_type_of(acc);
                                            match component_size(comp) {
                                                None => Err(GltfErrorView::InvalidAccessor(component_type_message(comp))),
                                                Some(cs) => match type_components(ty) {
                                                    None => Err(GltfErrorView::InvalidAccessor(type_message(ty))),
                                                    Some(nc) => {
                                                        let total = count * (cs * nc);
                                                        let start = bv_offset + acc_offset;
                                                        if total > usize::MAX {
                                                            Err(
                                                                GltfErrorView::InvalidAccessor(
                                                                    accessor_message(idx, " size overflow"@),
                                                                ),
                                                            )
                                                        } else if start > usize::MAX {
                                                            Err(
                                                                GltfErrorView::InvalidBufferView(
                                                                    "BufferView offset overflow"@,
                                                                ),
                                                            )
                                                        } else if start + total > usize::MAX {
                                                            Err(GltfErrorView::InvalidBufferView("Accessor range overflow"@))
                                                        } else if start + total > bin_len || acc_offset + total
                                                            > bv_len {
                                                            Err(
                                                                GltfErrorView::InvalidAccessor(
                                                                    out_of_bounds_message(
                                                                        idx,
                                                                        start as nat,
                                                                        (start + total) as nat,
                                                                        bv_len as nat,
                                                                        bin_len,
                                                                    ),
                                                                ),
                                                            )
                                                        } else {
                                                            Ok(
                                                                (
                                                                    start as nat,
                                                                    (start + total) as nat,
                                                                    count as nat,
                                                                    comp,
                                                                    ty,
                                                                ),
                                                            )
                                                        }
                                                    },
                                                },
                                            }
                                        },
                                    }
                                },
                            }
                        },
                    }
                }
            },
        }
    }
}

/// What a resolved accessor is, said directly: accessor `idx` names an
/// existing buffer view; its range starts at the buffer view's `byteOffset`
/// plus its own `byteOffset` (each `0` when absent) and spans `count`
/// elements of `componentSize * componentCount` bytes; the range lies inside
/// both the binary chunk and the buffer view.
pub open spec fn resolved_range(
    accs: Seq<AccessorDesc>,
    views: Seq<BufferViewDesc>,
    idx: nat,
    bin_len: nat,
    start: nat,
    end: nat,
    count: nat,
    comp: u32,
    ty: Seq<char>,
) -> bool {
    &&& idx < accs.len()
    &&& accs[idx as int].buffer_view is Some
    &&& (accs[idx as int].buffer_view->0 as usize) < views.len()
    &&& {
        let acc = accs[idx as int];
        let bv = views[(acc.buffer_view->0 as usize) as int];
        &&& start == (or_zero(bv.byte_offset) as usize) + (or_zero(acc.byte_offset) as usize)
        &&& acc.count is Some && count == (acc.count->0 as usize)
        &&& acc.component_type is Some && comp == (acc.component_type->0 as u32)
        &&& ty == elem_type_of(acc)
        &&& component_size(comp) matches Some(cs) && type_components(ty) matches Some(nc) && end == start + count * (
        cs * nc)
        &&& end <= bin_len
        &&& bv.byte_length is Some && (or_zero(acc.byte_offset) as usize) + (end - start) <= (
        bv.byte_length->0 as usize)
    }
}

/// A resolved accessor is exactly the range of `count` elements that
/// starts at its buffer view's offset plus its own offset, inside the chunk
/// and the buffer view.
pub proof fn law_accessor_range(accs: Seq<AccessorDesc>, views: Seq<BufferViewDesc>, idx: nat, bin_len: nat)
    ensures
        accessor_spec(accs, views, idx, bin_len) matches Ok(t) ==> resolved_range(
            accs,
            views,
            idx,
            bin_len,
            t.0,
            t.1,
            t.2,
            t.3,
            t.4,
        ),
{
}

/// `"<prefix><n><suffix>"`.
fn numbered(prefix: &str, n: u64, suffix: &str) -> (m: String)
    ensures
        m@ == prefix@ + decimal(n as nat) + suffix@,
{
    let mut m = String::from_str(prefix);
    let d = decimal_string(n);
    m.append(d.as_str());
    m.append(suffix);
    m
}

/// Appends the decimal rendering of `n`.
fn append_decimal(m: &mut String, n: u64)
    ensures
        final(m)@ == old(m)@ + decimal(n as nat),
{
    let d = decimal_string(n);
    m.append(d.as_str());
}

/// Resolves accessor `acc_idx`: checks its fields, its buffer view and its
/// component layout, and that its byte range fits both the buffer view and
/// a binary chunk of `bin_len` bytes.
pub fn accessor_data(accessors: &[AccessorDesc], views: &[BufferViewDesc], acc_idx: usize, bin_len: usize) -> (r:
    Result<AccessorSlice, GltfMeshError>)
    ensures
        match r {
            Ok(a) => accessor_spec(accessors@, views@, acc_idx as nat, bin_len as nat) == Ok::<
                (nat, nat, nat, u32, Seq<char>),
                GltfErrorView,
            >((a.start as nat, a.end as nat, a.count as nat, a.component_type, a.elem_type@)),
            Err(e) => accessor_spec(accessors@, views@, acc_idx as nat, bin_len as nat) == Err::<
                (nat, nat, nat, u32, Seq<char>),
                GltfErrorView,
            >(e@),
        },
        r matches Ok(a) ==> a.start <= a.end <= bin_len,
        r matches Ok(a) ==> (component_size(a.component_type) matches Some(cs) && a.count * cs <= a.end - a.start),
        r matches Ok(a) ==> resolved_range(accessors@, views@, acc_idx as nat, bin_len as nat, a.start as nat, a.end as nat, a.count as nat, a.component_type, a.elem_type@),
{
    if acc_idx >= accessors.len() {
        return Err(GltfMeshError::InvalidAccessor(numbered("Accessor ", acc_idx as u64, " missing")));
    }
    let acc = &accessors[acc_idx];
    let bv_idx = match acc.buffer_view {
        Some(v) => v as usize,
        None => {
            return Err(GltfMeshError::InvalidAccessor(numbered("Accessor ", acc_idx as u64, " missing bufferView")));
        },
    };
    if bv_idx >= views.len() {
        return Err(GltfMeshError::InvalidBufferView(numbered("BufferView ", bv_idx as u64, " missing")));
    }
    let bv = &views[bv_idx];
    let bv_offset = match bv.byte_offset {
        Some(v) => v as usize,
        None => 0,
    };
    let bv_len = match bv.byte_length {
        Some(v) => v as usize,
        None => {
            return Err(
                GltfMeshError::InvalidBufferView(numbered("BufferView ", bv_idx as u64, " missing byteLength")),
            );
        },
    };
    let acc_offset = match acc.byte_offset {
        Some(v) => v as usize,
        None => 0,
    };
    let count = match acc.count {
        Some(v) => v as usize,
        None => {
            return Err(GltfMeshError::InvalidAccessor(numbered("Accessor ", acc_idx as u64, " missing count")));
        },
    };
    let comp_type = match acc.component_type {
        Some(v) => v as u32,
        None => {
            return Err(
                GltfMeshError::InvalidAccessor(numbered("Accessor ", acc_idx as u64, " missing componentType")),
            );
        },
    };
    let type_str: &str = match &acc.elem_type {
        Some(t) => t.as_str(),
        None => "SCALAR",
    };
    let comp_size = match get_component_byte_size(comp_type) {
        Ok(n) => n,
        Err(e) => {
            return Err(e);
        },
    };
    let num_comps = match get_type_component_count(type_str) {
        Ok(n) => n,
        Err(e) => {
            return Err(e);
        },
    };
    let elem_size = comp_size * num_comps;
    assert(count as int * (comp_size as int) <= count as int * (elem_size as int)) by (nonlinear_arith)
        requires
            elem_size == comp_size * num_comps,
            num_comps >= 1,
            comp_size >= 1,
    ;
    let total_bytes = match count.checked_mul(elem_size) {
        Some(t) => t,
        None => {
            return Err(GltfMeshError::InvalidAccessor(numbered("Accessor ", acc_idx as u64, " size overflow")));
        },
    };
    let start = match bv_offset.checked_add(acc_offset) {
        Some(s) => s,
        None => {
            return Err(GltfMeshError::InvalidBufferView(String::from_str("BufferView offset overflow")));
        },
    };
    let end = match start.checked_add(total_bytes) {
        Some(e) => e,
        None => {
            return Err(GltfMeshError::InvalidBufferView(String::from_str("Accessor range overflow")));
        },
    };
    if end > bin_len || acc_offset + total_bytes > bv_len {
        let mut m = numbered("Accessor ", acc_idx as u64, " data slice out of bounds: range ");
        append_decimal(&mut m, start as u64);
        m.append("..");
        append_decimal(&mut m, end as u64);
        m.append(" exceeds bufferView len ");
        append_decimal(&mut m, bv_len as u64);
        m.append(" or bin len ");
        append_decimal(&mut m, bin_len as u64);
        assert(m@ =~= out_of_bounds_message(acc_idx as nat, start as nat, end as nat, bv_len as nat, bin_len as nat));
        return Err(GltfMeshError::InvalidAccessor(m));
    }
    let elem_type = match &acc.elem_type {
        Some(t) => t.clone(),
        None => String::from_str("SCALAR"),
    };
    Ok(AccessorSlice { start, end, count, component_type: comp_type, elem_type })
}

/// Message refusing a `POSITION` accessor that is not `FLOAT VEC3`.
pub open spec fn position_message(comp_type: u32, elem_type: Seq<char>) -> Seq<char> {
    "POSITION accessor must be FLOAT VEC3, got "@ + decimal(comp_type as nat) + " "@ + elem_type
}

/// Positions must be `FLOAT` (5126) `VEC3`.
pub fn check_position_accessor(acc: &AccessorSlice) -> (r: Result<(), GltfMeshError>)
    ensures
        (acc.component_type == 5126 && acc.elem_type@ == "VEC3"@) ==> r is Ok,
        !(acc.component_type == 5126 && acc.elem_type@ == "VEC3"@) ==> (r matches Err(e) && e@
            == GltfErrorView::InvalidAccessor(position_message(acc.component_type, acc.elem_type@))),
{
    if acc.component_type != 5126 || !str_eq(acc.elem_type.as_str(), "VEC3") {
        let mut m = String::from_str("POSITION accessor must be FLOAT VEC3, got ");
        append_decimal(&mut m, acc.component_type as u64);
        m.append(" ");
        m.append(acc.elem_type.as_str());
        return Err(GltfMeshError::InvalidAccessor(m));
    }
    Ok(())
}

// ---------------------------------------------------------------------------
// Integer channels
// ---------------------------------------------------------------------------

/// Index values decoded from `count` elements at `start`: `UNSIGNED_INT`,
/// `UNSIGNED_SHORT` or `UNSIGNED_BYTE`; any other component type gives none.
pub open spec fn indices_spec(b: Seq<u8>, start: int, count: nat, comp: u32) -> Seq<u32> {
    if comp == 5125 {
        Seq::new(count, |i: int| le_u32(b, start + 4 * i))
    } else if comp == 5123 {
        Seq::new(count, |i: int| le_u16(b, start + 2 * i) as u32)
    } else if comp == 5121 {
        Seq::new(count, |i: int| b[start + i] as u32)
    } else {
        Seq::empty()
    }
}

/// What each decoded index is, as a number: the little-endian value of the
/// `4`, `2` or `1` bytes of element `i` for `UNSIGNED_INT`, `UNSIGNED_SHORT`
/// and `UNSIGNED_BYTE`; another component type decodes to nothing.
pub proof fn law_indices_layout(b: Seq<u8>, start: int, count: nat, comp: u32)
    ensures
        (comp == 5125 || comp == 5123 || comp == 5121) ==> indices_spec(b, start, count, comp).len() == count,
        !(comp == 5125 || comp == 5123 || comp == 5121) ==> indices_spec(b, start, count, comp).len() == 0,
        forall|i: int|
            0 <= i < count ==> {
                let v = #[trigger] indices_spec(b, start, count, comp)[i] as int;
                &&& comp == 5125 ==> v == b[start + 4 * i] as int + 256 * b[start + 4 * i + 1] as int + 65536 * b[start
                    + 4 * i + 2] as int + 16777216 * b[start + 4 * i + 3] as int
                &&& comp == 5123 ==> v == b[start + 2 * i] as int + 256 * b[start + 2 * i + 1] as int
                &&& comp == 5121 ==> v == b[start + i] as int
            },
{
}

/// Decodes the indices of a resolved accessor.
pub fn decode_indices(bin: &[u8], acc: &AccessorSlice) -> (out: Vec<u32>)
    requires
        acc.start <= acc.end <= bin.len(),
        component_size(acc.component_type) matches Some(cs) && acc.count * cs <= acc.end - acc.start,
    ensures
        out@ == indices_spec(bin@, acc.start as int, acc.count as nat, acc.component_type),
{
    let mut out: Vec<u32> = Vec::new();
    let comp = acc.component_type;
    if comp != 5125 && comp != 5123 && comp != 5121 {
        assert(out@ =~= indices_spec(bin@, acc.start as int, acc.count as nat, comp));
        return out;
    }
    let width: usize = if comp == 5125 {
        4
    } else if comp == 5123 {
        2
    } else {
        1
    };
    let mut i: usize = 0;
    while i < acc.count
        invariant
            i <= acc.count,
            comp == acc.component_type,
            comp == 5125 || comp == 5123 || comp == 5121,
            width == component_size(comp)->0,
            acc.start <= acc.end <= bin.len(),
            acc.count * width <= acc.end - acc.start,
            out@ == indices_spec(bin@, acc.start as int, acc.count as nat, comp).take(i as int),
        decreases acc.count - i,
    {
        assert((i + 1) * width <= acc.count * width) by (nonlinear_arith)
            requires
                i < acc.count,
        ;
        let at = acc.start + i * width;
        let v: u32 = if comp == 5125 {
            read_u32_le(bin, at)
        } else if comp == 5123 {
            read_u16_le(bin, at) as u32
        } else {
            bin[at] as u32
        };
        out.push(v);
        assert(out@ =~= indices_spec(bin@, acc.start as int, acc.count as nat, comp).take(i + 1));
        i += 1;
    }
    out
}

/// Indices of a primitive without an index accessor: `0, 1, 2, ...`, one per
/// vertex (the count taken as a `u32`).
pub fn implicit_indices(vertex_count: usize) -> (out: Vec<u32>)
    ensures
        out@.len() == (vertex_count as u32) as nat,
        forall|i: int| 0 <= i < out@.len() ==> out@[i] == i as u32,
{
    let n = vertex_count as u32;
    let mut out: Vec<u32> = Vec::new();
    let mut i: u32 = 0;
    while i < n
        invariant
            i <= n,
            out@.len() == i as nat,
            forall|k: int| 0 <= k < i ==> out@[k] == k as u32,
        decreases n - i,
    {
        out.push(i);
        i += 1;
    }
    out
}

/// Joint indices of `vertex_count` vertices: the first `n` (the smaller of
/// the element count and the vertex count) decoded from `UNSIGNED_SHORT` or
/// `UNSIGNED_BYTE` quadruples at `start`, the others `[0, 0, 0, 0]`.
pub open spec fn joints_spec(b: Seq<u8>, start: int, count: nat, comp: u32, vertex_count: nat) -> Seq<[u16; 4]> {
    let n = if count < vertex_count {
        count
    } else {
        vertex_count
    };
    Seq::new(
        vertex_count,
        |i: int|
            if i < n && comp == 5123 {
                [
                    le_u16(b, start + 8 * i),
                    le_u16(b, start + 8 * i + 2),
                    le_u16(b, start + 8 * i + 4),
                    le_u16(b, start + 8 * i + 6),
                ]
            } else if i < n && comp == 5121 {
                [
                    b[start + 4 * i] as u16,
                    b[start + 4 * i + 1] as u16,
                    b[start + 4 * i + 2] as u16,
                    b[start + 4 * i + 3] as u16,
                ]
            } else {
                [0u16, 0u16, 0u16, 0u16]
            },
    )
}

/// Where each decoded joint comes from: for element `i` among the first
/// `min(count, vertex_count)`, component `c` is the byte at
/// `start + 4 i + c` (`UNSIGNED_BYTE`) or the little-endian `u16` at
/// `start + 8 i + 2 c` (`UNSIGNED_SHORT`), in component order; every other
/// element, and every element of another component type, is `[0, 0, 0, 0]`.
pub proof fn law_joints_layout(b: Seq<u8>, start: int, count: nat, comp: u32, vertex_count: nat)
    ensures
        joints_spec(b, start, count, comp, vertex_count).len() == vertex_count,
        forall|i: int, c: int|
            0 <= i < vertex_count && 0 <= c < 4 ==> {
                let n = if count < vertex_count {
                    count as int
                } else {
                    vertex_count as int
                };
                let v = #[trigger] joints_spec(b, start, count, comp, vertex_count)[i]@[c];
                &&& (i < n && comp == 5121) ==> v == b[start + 4 * i + c] as u16
                &&& (i < n && comp == 5123) ==> v == le_u16(b, start + 8 * i + 2 * c)
                &&& !(i < n && (comp == 5121 || comp == 5123)) ==> v == 0
            },
{
    assert forall|i: int, c: int| 0 <= i < vertex_count && 0 <= c < 4 implies {
        let n = if count < vertex_count {
            count as int
        } else {
            vertex_count as int
        };
        let v = #[trigger] joints_spec(b, start, count, comp, vertex_count)[i]@[c];
        &&& (i < n && comp == 5121) ==> v == b[start + 4 * i + c] as u16
        &&& (i < n && comp == 5123) ==> v == le_u16(b, start + 8 * i + 2 * c)
        &&& !(i < n && (comp == 5121 || comp == 5123)) ==> v == 0
    } by {
        let j = joints_spec(b, start, count, comp, vertex_count)[i];
        if c == 0 {
            assert(j@[0] == j[0]);
        } else if c == 1 {
            assert(j@[1] == j[1]);
        } else if c == 2 {
            assert(j@[2] == j[2]);
        } else {
            assert(j@[3] == j[3]);
        }
    }
}

/// Decoding `UNSIGNED_SHORT` joints that were encoded gives them back.
pub proof fn law_joints_round_trip(s: Seq<[u16; 4]>)
    ensures
        joints_le(s).len() == 8 * s.len(),
        joints_spec(joints_le(s), 0, s.len(), 5123, s.len()) == s,
    decreases s.len(),
{
    if s.len() > 0 {
        law_joints_round_trip(s.drop_last());
        let front = joints_le(s.drop_last());
        let b = joints_le(s);
        let j = s.last();
        let k = s.len() - 1;
        assert(b == front + u16_le(j[0]) + u16_le(j[1]) + u16_le(j[2]) + u16_le(j[3]));
        assert forall|i: int| 0 <= i < s.len() implies #[trigger] joints_spec(b, 0, s.len(), 5123, s.len())[i]
            == s[i] by {
            if i < k {
                let prev = joints_spec(front, 0, k as nat, 5123, k as nat);
                assert(prev[i] == s.drop_last()[i]);
                assert forall|t: int| 0 <= t < 8 implies #[trigger] b[8 * i + t] == front[8 * i + t] by {}
                assert(le_u16(b, 8 * i) == le_u16(front, 8 * i));
                assert(le_u16(b, 8 * i + 2) == le_u16(front, 8 * i + 2));
                assert(le_u16(b, 8 * i + 4) == le_u16(front, 8 * i + 4));
                assert(le_u16(b, 8 * i + 6) == le_u16(front, 8 * i + 6));
            } else {
                assert(front.len() == 8 * k);
                lemma_u16_le_round_trip(j[0]);
                lemma_u16_le_round_trip(j[1]);
                lemma_u16_le_round_trip(j[2]);
                lemma_u16_le_round_trip(j[3]);
                assert(b[8 * k] == u16_le(j[0])[0] && b[8 * k + 1] == u16_le(j[0])[1]);
                assert(b[8 * k + 2] == u16_le(j[1])[0] && b[8 * k + 3] == u16_le(j[1])[1]);
                assert(b[8 * k + 4] == u16_le(j[2])[0] && b[8 * k + 5] == u16_le(j[2])[1]);
                assert(b[8 * k + 6] == u16_le(j[3])[0] && b[8 * k + 7] == u16_le(j[3])[1]);
                assert(le_u16(b, 8 * k) == j[0]);
                assert(le_u16(b, 8 * k + 2) == j[1]);
                assert(le_u16(b, 8 * k + 4) == j[2]);
                assert(le_u16(b, 8 * k + 6) == j[3]);
            }
        }
        assert(joints_spec(b, 0, s.len(), 5123, s.len()) =~= s);
    } else {
        assert(joints_spec(joints_le(s), 0, s.len(), 5123, s.len()) =~= s);
    }
}

/// Decodes the joint indices of a resolved accessor for `vertex_count`
/// vertices. Each decoded element reads four components, so the accessor
/// must hold them.
pub fn decode_joints(bin: &[u8], acc: &AccessorSlice, vertex_count: usize) -> (out: Vec<[u16; 4]>)
    requires
        acc.start <= acc.end <= bin.len(),
        acc.component_type == 5123 ==> acc.start + 8 * min_usize(acc.count, vertex_count) <= acc.end,
        acc.component_type == 5121 ==> acc.start + 4 * min_usize(acc.count, vertex_count) <= acc.end,
    ensures
        out@ == joints_spec(bin@, acc.start as int, acc.count as nat, acc.component_type, vertex_count as nat),
{
    let n = if acc.count < vertex_count {
        acc.count
    } else {
        vertex_count
    };
    let comp = acc.component_type;
    let mut out: Vec<[u16; 4]> = Vec::new();
    let mut i: usize = 0;
    while i < vertex_count
        invariant
            i <= vertex_count,
            n == min_usize(acc.count, vertex_count),
            comp == acc.component_type,
            acc.start <= acc.end <= bin.len(),
            comp == 5123 ==> acc.start + 8 * n <= acc.end,
            comp == 5121 ==> acc.start + 4 * n <= acc.end,
            out@ == joints_spec(bin@, acc.start as int, acc.count as nat, comp, vertex_count as nat).take(i as int),
        decreases vertex_count - i,
    {
        let j: [u16; 4] = if i < n && comp == 5123 {
            let at = acc.start + 8 * i;
            [read_u16_le(bin, at), read_u16_le(bin, at + 2), read_u16_le(bin, at + 4), read_u16_le(bin, at + 6)]
        } else if i < n && comp == 5121 {
            let at = acc.start + 4 * i;
            [bin[at] as u16, bin[at + 1] as u16, bin[at + 2] as u16, bin[at + 3] as u16]
        } else {
            [0u16, 0u16, 0u16, 0u16]
        };
        out.push(j);
        assert(out@ =~= joints_spec(bin@, acc.start as int, acc.count as nat, comp, vertex_count as nat).take(
            i + 1,
        ));
        i += 1;
    }
    assert(out@ =~= joints_spec(bin@, acc.start as int, acc.count as nat, comp, vertex_count as nat));
    out
}

/// A vertex channel of `components` components per element, read for
/// `vertex_count` vertices, stays inside its accessor: the first
/// `min(count, vertex_count)` elements fit in `start..end`. A channel of an
/// unknown component type reads nothing, so it always fits.
pub open spec fn channel_fits(acc: AccessorSlice, components: nat, vertex_count: usize) -> bool {
    match component_size(acc.component_type) {
        Some(cs) => acc.start + cs * components * min_usize(acc.count, vertex_count) <= acc.end,
        None => true,
    }
}

/// Message refusing a channel that reads past its accessor.
pub open spec fn channel_message() -> Seq<char> {
    "accessor data is shorter than its vertex channel"@
}

/// Checks that a vertex channel (`components` per element) can be read for
/// `vertex_count` vertices, and returns how many elements are read.
pub fn check_channel(acc: &AccessorSlice, components: usize, vertex_count: usize) -> (r: Result<usize, GltfMeshError>)
    requires
        components <= 4,
    ensures
        r is Ok <==> channel_fits(*acc, components as nat, vertex_count),
        r matches Ok(n) ==> n == min_usize(acc.count, vertex_count),
        r matches Err(e) ==> e@ == GltfErrorView::InvalidAccessor(channel_message()),
{
    let n = if acc.count < vertex_count {
        acc.count
    } else {
        vertex_count
    };
    let cs: usize = match get_component_byte_size(acc.component_type) {
        Ok(cs) => cs,
        Err(_) => {
            return Ok(n);
        },
    };
    assert(cs * components <= 16) by (nonlinear_arith)
        requires
            cs <= 4,
            components <= 4,
    ;
    let stride: usize = cs * components;
    assert((stride as int) * (n as int) <= 16 * 0x1_0000_0000_0000_0000) by (nonlinear_arith)
        requires
            stride <= 16,
            n < 0x1_0000_0000_0000_0000,
    ;
    let need: u128 = (acc.start as u128) + (stride as u128) * (n as u128);
    if need <= acc.end as u128 {
        Ok(n)
    } else {
        Err(GltfMeshError::InvalidAccessor(String::from_str("accessor data is shorter than its vertex channel")))
    }
}

/// The smaller of two lengths.
pub open spec fn min_usize(a: usize, b: usize) -> usize {
    if a < b {
        a
    } else {
        b
    }
}

// ---------------------------------------------------------------------------
// Writing
// ---------------------------------------------------------------------------

/// The four little-endian bytes of `v` (`u32::to_le_bytes`).
pub open spec fn u32_le(v: u32) -> Seq<u8> {
    seq![(v % 256) as u8, ((v / 256) % 256) as u8, ((v / 65536) % 256) as u8, (v / 16777216) as u8]
}

/// The two little-endian bytes of `v` (`u16::to_le_bytes`).
pub open spec fn u16_le(v: u16) -> Seq<u8> {
    seq![(v % 256) as u8, (v / 256) as u8]
}

/// Reading back the bytes of a `u32` gives the `u32`.
pub proof fn lemma_u32_le_round_trip(v: u32)
    ensures
        u32_le(v).len() == 4,
        le_u32(u32_le(v), 0) == v,
{
    let b = u32_le(v);
    assert(b[0] as int + 256 * b[1] as int + 65536 * b[2] as int + 16777216 * b[3] as int == v) by (nonlinear_arith)
        requires
            b[0] as int == v % 256,
            b[1] as int == (v / 256) % 256,
            b[2] as int == (v / 65536) % 256,
            b[3] as int == v / 16777216,
            0 <= v < 0x1_0000_0000,
    ;
}

/// Reading back the bytes of a `u16` gives the `u16`.
pub proof fn lemma_u16_le_round_trip(v: u16)
    ensures
        u16_le(v).len() == 2,
        le_u16(u16_le(v), 0) == v,
{
}

/// Appends the little-endian bytes of `v`.
pub fn push_u32_le(out: &mut Vec<u8>, v: u32)
    ensures
        final(out)@ == old(out)@ + u32_le(v),
{
    out.push((v % 256) as u8);
    out.push(((v / 256) % 256) as u8);
    out.push(((v / 65536) % 256) as u8);
    out.push((v / 16777216) as u8);
    assert(final(out)@ =~= old(out)@ + u32_le(v));
}

/// Appends the little-endian bytes of `v`.
pub fn push_u16_le(out: &mut Vec<u8>, v: u16)
    ensures
        final(out)@ == old(out)@ + u16_le(v),
{
    out.push((v % 256) as u8);
    out.push((v / 256) as u8);
    assert(final(out)@ =~= old(out)@ + u16_le(v));
}

/// The bytes of a sequence of `u32`, each little endian.
pub open spec fn u32s_le(s: Seq<u32>) -> Seq<u8>
    decreases s.len(),
{
    if s.len() == 0 {
        Seq::empty()
    } else {
        u32s_le(s.drop_last()) + u32_le(s.last())
    }
}

/// The bytes of `UNSIGNED_INT` indices.
pub fn encode_indices(indices: &[u32]) -> (out: Vec<u8>)
    ensures
        out@ == u32s_le(indices@),
{
    let mut out: Vec<u8> = Vec::new();
    let mut i: usize = 0;
    while i < indices.len()
        invariant
            i <= indices.len(),
            out@ == u32s_le(indices@.take(i as int)),
        decreases indices.len() - i,
    {
        push_u32_le(&mut out, indices[i]);
        assert(indices@.take(i + 1).drop_last() =~= indices@.take(i as int));
        i += 1;
    }
    assert(indices@.take(indices.len() as int) =~= indices@);
    out
}

/// The bytes of joint quadruples, each component an `UNSIGNED_SHORT`.
pub open spec fn joints_le(s: Seq<[u16; 4]>) -> Seq<u8>
    decreases s.len(),
{
    if s.len() == 0 {
        Seq::empty()
    } else {
        let j = s.last();
        joints_le(s.drop_last()) + u16_le(j[0]) + u16_le(j[1]) + u16_le(j[2]) + u16_le(j[3])
    }
}

/// The bytes of `JOINTS_0`: four `UNSIGNED_SHORT` per vertex.
pub fn encode_joints(joints: &[[u16; 4]]) -> (out: Vec<u8>)
    ensures
        out@ == joints_le(joints@),
{
    let mut out: Vec<u8> = Vec::new();
    let mut i: usize = 0;
    while i < joints.len()
        invariant
            i <= joints.len(),
            out@ == joints_le(joints@.take(i as int)),
        decreases joints.len() - i,
    {
        let j = joints[i];
        push_u16_le(&mut out, j[0]);
        push_u16_le(&mut out, j[1]);
        push_u16_le(&mut out, j[2]);
        push_u16_le(&mut out, j[3]);
        assert(joints@.take(i + 1).drop_last() =~= joints@.take(i as int));
        i += 1;
    }
    assert(joints@.take(joints.len() as int) =~= joints@);
    out
}

/// `s` followed by `fill` bytes up to a multiple of four.
pub open spec fn pad_with(s: Seq<u8>, fill: u8) -> Seq<u8> {
    s + Seq::new((pad4(s.len() as int) - s.len()) as nat, |i: int| fill)
}

/// Appends `fill` until the length is a multiple of four.
fn pad_in_place(out: &mut Vec<u8>, fill: u8)
    requires
        old(out).len() + 3 <= usize::MAX,
    ensures
        final(out)@ == pad_with(old(out)@, fill),
        final(out).len() as int == pad4(old(out).len() as int),
{
    let ghost start = out@;
    while out.len() % 4 != 0
        invariant
            start.len() <= out.len() <= pad4(start.len() as int),
            start.len() + 3 <= usize::MAX,
            out@ == start + Seq::new((out.len() - start.len()) as nat, |i: int| fill),
        decreases pad4(start.len() as int) - out.len(),
    {
        out.push(fill);
        assert(out@ =~= start + Seq::new((out.len() - start.len()) as nat, |i: int| fill));
    }
}

/// The GLB container holding `json` (space padded) and `bin` (zero padded).
pub open spec fn glb_bytes(json: Seq<u8>, bin: Seq<u8>) -> Seq<u8> {
    let jp = pad_with(json, 0x20);
    let bp = pad_with(bin, 0);
    let total = 28 + jp.len() + bp.len();
    u32_le(GLB_MAGIC) + u32_le(2) + u32_le(total as u32) + u32_le(jp.len() as u32) + u32_le(GLB_CHUNK_JSON) + jp
        + u32_le(bp.len() as u32) + u32_le(GLB_CHUNK_BIN) + bp
}

/// Writes a GLB container: header, JSON chunk (padded with spaces), binary
/// chunk (padded with zeros). Lengths are written as `u32`.
pub fn assemble_glb(json: &[u8], bin: &[u8]) -> (out: Vec<u8>)
    requires
        json.len() + bin.len() + 40 <= usize::MAX,
    ensures
        out@ == glb_bytes(json@, bin@),
{
    let mut json_bytes: Vec<u8> = Vec::new();
    let mut k: usize = 0;
    while k < json.len()
        invariant
            k <= json.len(),
            json_bytes@ == json@.take(k as int),
        decreases json.len() - k,
    {
        json_bytes.push(json[k]);
        assert(json@.take(k + 1) =~= json@.take(k as int).push(json@[k as int]));
        k += 1;
    }
    assert(json@.take(json.len() as int) =~= json@);
    pad_in_place(&mut json_bytes, 0x20);
    let mut bin_data: Vec<u8> = Vec::new();
    let mut k: usize = 0;
    while k < bin.len()
        invariant
            k <= bin.len(),
            bin_data@ == bin@.take(k as int),
        decreases bin.len() - k,
    {
        bin_data.push(bin[k]);
        assert(bin@.take(k + 1) =~= bin@.take(k as int).push(bin@[k as int]));
        k += 1;
    }
    assert(bin@.take(bin.len() as int) =~= bin@);
    pad_in_place(&mut bin_data, 0);
    let total_len = 12 + 8 + json_bytes.len() + 8 + bin_data.len();
    let mut glb: Vec<u8> = Vec::new();
    push_u32_le(&mut glb, GLB_MAGIC);
    push_u32_le(&mut glb, 2);
    push_u32_le(&mut glb, total_len as u32);
    push_u32_le(&mut glb, json_bytes.len() as u32);
    push_u32_le(&mut glb, GLB_CHUNK_JSON);
    glb.append(&mut json_bytes);
    push_u32_le(&mut glb, bin_data.len() as u32);
    push_u32_le(&mut glb, GLB_CHUNK_BIN);
    glb.append(&mut bin_data);
    glb
}

/// Custom (application-specific) glTF attribute buffer.
#[derive(Debug, Clone, PartialEq, Eq)]
pub struct CustomAttribute {
    pub name: String,
    pub component_type: u32,
    /// `SCALAR`, `VEC2`, `VEC3` or `VEC4`.
    pub attribute_type: String,
    pub count: usize,
    pub data: Vec<u8>,
}

/// A buffer view written into the binary chunk.
#[derive(Debug, Clone, Copy, PartialEq, Eq, Structural)]
pub struct BufferViewRecord {
    /// Offset of the view in the binary chunk (a multiple of four).
    pub byte_offset: usize,
    /// Length of the view in bytes.
    pub byte_length: usize,
    /// Binding target (`ARRAY_BUFFER`, `ELEMENT_ARRAY_BUFFER`), if any.
    pub target: Option<u32>,
}

/// The binary chunk of a GLB being written, with its buffer views.
pub struct GlbBinBuilder {
    /// Bytes written so far.
    pub bin: Vec<u8>,
    /// Views written so far, in order.
    pub views: Vec<BufferViewRecord>,
}

/// Views are four-byte aligned, in order, disjoint and inside the chunk.
pub open spec fn views_laid_out(bin_len: nat, views: Seq<BufferViewRecord>) -> bool {
    &&& forall|i: int| 0 <= i < views.len() ==> (#[trigger] views[i]).byte_offset % 4 == 0
    &&& forall|i: int| 0 <= i < views.len() ==> (#[trigger] views[i]).byte_offset + views[i].byte_length <= bin_len
    &&& forall|i: int, j: int|
        0 <= i < j < views.len() ==> #[trigger] views[i].byte_offset + views[i].byte_length
            <= #[trigger] views[j].byte_offset
}

impl GlbBinBuilder {
    /// An empty binary chunk.
    pub fn new() -> (b: Self)
        ensures
            b.bin@.len() == 0,
            b.views@.len() == 0,
    {
        GlbBinBuilder { bin: Vec::new(), views: Vec::new() }
    }

    /// Appends a buffer view: the chunk is zero padded to four bytes, then
    /// `data` is written; returns the index of the new view.
    pub fn push_buffer_view(&mut self, data: &[u8], target: Option<u32>) -> (index: usize)
        requires
            old(self).bin.len() + 3 + data.len() <= usize::MAX,
        ensures
            index == old(self).views.len(),
            final(self).bin@ == pad_with(old(self).bin@, 0) + data@,
            final(self).views@ == old(self).views@.push(
                BufferViewRecord {
                    byte_offset: pad4(old(self).bin.len() as int) as usize,
                    byte_length: data.len(),
                    target,
                },
            ),
            views_laid_out(old(self).bin.len() as nat, old(self).views@) ==> views_laid_out(
                final(self).bin.len() as nat,
                final(self).views@,
            ),
    {
        pad_in_place(&mut self.bin, 0);
        let byte_offset = self.bin.len();
        let ghost padded = self.bin@;
        let mut k: usize = 0;
        while k < data.len()
            invariant
                k <= data.len(),
                self.bin@ == padded + data@.take(k as int),
                padded.len() + data.len() <= usize::MAX,
                self.views@ == old(self).views@,
                padded == pad_with(old(self).bin@, 0),
                padded.len() == pad4(old(self).bin.len() as int),
            decreases data.len() - k,
        {
            self.bin.push(data[k]);
            assert(data@.take(k + 1) =~= data@.take(k as int).push(data@[k as int]));
            k += 1;
        }
        assert(data@.take(data.len() as int) =~= data@);
        let index = self.views.len();
        self.views.push(BufferViewRecord { byte_offset, byte_length: data.len(), target });
        index
    }

    /// The finished binary chunk, zero padded to four bytes.
    pub fn finish(self) -> (bin: Vec<u8>)
        requires
            self.bin.len() + 3 <= usize::MAX,
        ensures
            bin@ == pad_with(self.bin@, 0),
    {
        let mut bin = self.bin;
        pad_in_place(&mut bin, 0);
        bin
    }
}

// ---------------------------------------------------------------------------
// Laws
// ---------------------------------------------------------------------------

/// A `u32` written after `x` reads back at `x.len()`.
proof fn lemma_read_written_u32(x: Seq<u8>, v: u32, y: Seq<u8>)
    ensures
        le_u32(x + u32_le(v) + y, x.len() as int) == v,
{
    lemma_u32_le_round_trip(v);
    let b = x + u32_le(v) + y;
    let w = u32_le(v);
    assert(b[x.len() as int] == w[0]);
    assert(b[x.len() as int + 1] == w[1]);
    assert(b[x.len() as int + 2] == w[2]);
    assert(b[x.len() as int + 3] == w[3]);
}

/// Padding rounds the length up to a multiple of four, which padding keeps.
#[verifier::spinoff_prover]
#[verifier::rlimit(40)]
proof fn lemma_pad_facts(s: Seq<u8>, fill: u8)
    ensures
        pad_with(s, fill).len() == pad4(s.len() as int),
        s.len() <= pad4(s.len() as int) <= s.len() + 3,
        pad4(pad4(s.len() as int)) == pad4(s.len() as int),
        pad_with(s, fill).subrange(0, s.len() as int) == s,
{
    assert(pad_with(s, fill).subrange(0, s.len() as int) =~= s);
}

/// A read inside the first part of a concatenation.
proof fn lemma_read_in_prefix(p: Seq<u8>, q: Seq<u8>, k: int)
    requires
        0 <= k,
        k + 4 <= p.len(),
    ensures
        le_u32(p + q, k) == le_u32(p, k),
{
    assert((p + q)[k] == p[k]);
    assert((p + q)[k + 1] == p[k + 1]);
    assert((p + q)[k + 2] == p[k + 2]);
    assert((p + q)[k + 3] == p[k + 3]);
}

/// A read inside the second part of a concatenation.
proof fn lemma_read_after_prefix(p: Seq<u8>, q: Seq<u8>, k: int)
    requires
        0 <= k,
        k + 4 <= q.len(),
    ensures
        le_u32(p + q, p.len() + k) == le_u32(q, k),
{
    assert((p + q)[p.len() + k] == q[k]);
    assert((p + q)[p.len() + k + 1] == q[k + 1]);
    assert((p + q)[p.len() + k + 2] == q[k + 2]);
    assert((p + q)[p.len() + k + 3] == q[k + 3]);
}

/// The five words before the JSON chunk body.
proof fn lemma_glb_head(total: u32, jl: u32)
    ensures
        ({
            let h = u32_le(GLB_MAGIC) + u32_le(2) + u32_le(total) + u32_le(jl) + u32_le(GLB_CHUNK_JSON);
            &&& h.len() == 20
            &&& le_u32(h, 0) == GLB_MAGIC
            &&& le_u32(h, 4) == 2
            &&& le_u32(h, 8) == total
            &&& le_u32(h, 12) == jl
            &&& le_u32(h, 16) == GLB_CHUNK_JSON
        }),
{
    let m = u32_le(GLB_MAGIC);
    let v = u32_le(2);
    let t = u32_le(total);
    let a = u32_le(jl);
    let tj = u32_le(GLB_CHUNK_JSON);
    lemma_u32_le_round_trip(GLB_MAGIC);
    lemma_u32_le_round_trip(2);
    lemma_u32_le_round_trip(total);
    lemma_u32_le_round_trip(jl);
    lemma_u32_le_round_trip(GLB_CHUNK_JSON);
    let h = m + v + t + a + tj;
    assert(h =~= m + (v + t + a + tj));
    lemma_read_in_prefix(m, v + t + a + tj, 0);
    assert(h =~= (m + v) + (t + a + tj));
    lemma_read_after_prefix(m, v, 0);
    lemma_read_in_prefix(m + v, t + a + tj, 4);
    assert(h =~= (m + v + t) + (a + tj));
    lemma_read_after_prefix(m + v, t, 0);
    lemma_read_in_prefix(m + v + t, a + tj, 8);
    assert(h =~= (m + v + t + a) + tj);
    lemma_read_after_prefix(m + v + t, a, 0);
    lemma_read_in_prefix(m + v + t + a, tj, 12);
    lemma_read_after_prefix(m + v + t + a, tj, 0);
}

/// The two words before the binary chunk body.
proof fn lemma_glb_bin_head(bl: u32)
    ensures
        ({
            let h = u32_le(bl) + u32_le(GLB_CHUNK_BIN);
            &&& h.len() == 8
            &&& le_u32(h, 0) == bl
            &&& le_u32(h, 4) == GLB_CHUNK_BIN
        }),
{
    lemma_u32_le_round_trip(bl);
    lemma_u32_le_round_trip(GLB_CHUNK_BIN);
    lemma_read_in_prefix(u32_le(bl), u32_le(GLB_CHUNK_BIN), 0);
    lemma_read_after_prefix(u32_le(bl), u32_le(GLB_CHUNK_BIN), 0);
}

/// Reading a written GLB container gives back the chunks that were written
/// (padded to four bytes), as long as the total length fits in a `u32`.
#[verifier::rlimit(40)]
pub proof fn law_glb_round_trip(json: Seq<u8>, bin: Seq<u8>)
    requires
        json.len() + bin.len() + 34 <= u32::MAX,
    ensures
        glb_parse(glb_bytes(json, bin)) == Ok::<(Seq<u8>, Seq<u8>), GltfErrorView>(
            (pad_with(json, 0x20), pad_with(bin, 0)),
        ),
{
    let jp = pad_with(json, 0x20);
    let bp = pad_with(bin, 0);
    lemma_pad_facts(json, 0x20);
    lemma_pad_facts(bin, 0);
    let jl = jp.len() as int;
    let bl = bp.len() as int;
    let total = 28 + jl + bl;
    let h = u32_le(GLB_MAGIC) + u32_le(2) + u32_le(total as u32) + u32_le(jl as u32) + u32_le(GLB_CHUNK_JSON);
    let c = u32_le(bl as u32) + u32_le(GLB_CHUNK_BIN);
    lemma_glb_head(total as u32, jl as u32);
    lemma_glb_bin_head(bl as u32);
    let b = glb_bytes(json, bin);
    assert(b =~= h + jp + c + bp);
    assert(b.len() == total);
    assert(b =~= h + (jp + c + bp));
    lemma_read_in_prefix(h, jp + c + bp, 0);
    lemma_read_in_prefix(h, jp + c + bp, 4);
    lemma_read_in_prefix(h, jp + c + bp, 8);
    lemma_read_in_prefix(h, jp + c + bp, 12);
    lemma_read_in_prefix(h, jp + c + bp, 16);
    assert(b =~= (h + jp) + (c + bp));
    lemma_read_in_prefix(c, bp, 0);
    lemma_read_in_prefix(c, bp, 4);
    lemma_read_after_prefix(h + jp, c + bp, 0);
    lemma_read_after_prefix(h + jp, c + bp, 4);
    assert(le_u32(b, 12) as int == jl);
    assert(le_u32(b, 20 + jl) as int == bl);
    lemma_walk_step(b, total, 12, None, None);
    lemma_walk_step(b, total, 20 + jl, Some((20, jl)), None);
    assert(walk_chunks(b, total, total, Some((20, jl)), Some((28 + jl, bl))) == Ok::<
        (Option<(int, int)>, Option<(int, int)>),
        GltfErrorView,
    >((Some((20, jl)), Some((28 + jl, bl)))));
    assert(b.subrange(20, 20 + jl) =~= jp);
    assert(b.subrange(28 + jl, 28 + jl + bl) =~= bp);
}

/// Decoding written `UNSIGNED_INT` indices gives them back.
pub proof fn law_indices_round_trip(s: Seq<u32>)
    ensures
        u32s_le(s).len() == 4 * s.len(),
        indices_spec(u32s_le(s), 0, s.len(), 5125) == s,
    decreases s.len(),
{
    if s.len() > 0 {
        law_indices_round_trip(s.drop_last());
        lemma_u32_le_round_trip(s.last());
        let front = u32s_le(s.drop_last());
        let b = u32s_le(s);
        assert(b == front + u32_le(s.last()));
        assert forall|i: int| 0 <= i < s.len() implies #[trigger] le_u32(b, 4 * i) == s[i] by {
            if i < s.len() - 1 {
                assert(indices_spec(front, 0, (s.len() - 1) as nat, 5125)[i] == s.drop_last()[i]);
                assert(b[4 * i] == front[4 * i]);
                assert(b[4 * i + 1] == front[4 * i + 1]);
                assert(b[4 * i + 2] == front[4 * i + 2]);
                assert(b[4 * i + 3] == front[4 * i + 3]);
            } else {
                lemma_read_written_u32(front, s.last(), Seq::empty());
                assert(b =~= front + u32_le(s.last()) + Seq::<u8>::empty());
            }
        }
        assert(indices_spec(b, 0, s.len(), 5125) =~= s);
    } else {
        assert(indices_spec(u32s_le(s), 0, s.len(), 5125) =~= s);
    }
}

// ---------------------------------------------------------------------------
// Shared topology
// ---------------------------------------------------------------------------

/// Position of the first entry, from `i` on, where the index lists differ
/// (`-1` when they agree there).
pub open spec fn first_difference(a: Seq<u32>, b: Seq<u32>, i: int) -> int
    decreases a.len() - i,
{
    if i < 0 || i >= a.len() {
        -1
    } else if a[i] != b[i] {
        i
    } else {
        first_difference(a, b, i + 1)
    }
}

/// What differs first between two topologies given by their vertex counts
/// and index lists, as the isomorphism check words it (`None`: they agree).
pub open spec fn topology_mismatch(vertices_a: nat, vertices_b: nat, a: Seq<u32>, b: Seq<u32>) -> Option<Seq<char>> {
    if vertices_a != vertices_b {
        Some(
            "Vertex count mismatch: self has "@ + decimal(vertices_a) + " vertices, other has "@ + decimal(
                vertices_b,
            ),
        )
    } else if a.len() != b.len() {
        Some("Index count mismatch: self has "@ + decimal(a.len()) + " indices, other has "@ + decimal(b.len()))
    } else if first_difference(a, b, 0) >= 0 {
        let i = first_difference(a, b, 0);
        Some(
            "Triangle index mismatch at entry "@ + decimal(i as nat) + ": "@ + decimal(a[i] as nat) + " vs "@
                + decimal(b[i] as nat),
        )
    } else {
        None
    }
}

proof fn lemma_first_difference_scan(a: Seq<u32>, b: Seq<u32>, i: int)
    requires
        0 <= i <= a.len() == b.len(),
        forall|j: int| 0 <= j < i ==> a[j] == b[j],
    ensures
        first_difference(a, b, 0) == first_difference(a, b, i),
    decreases i,
{
    if i > 0 {
        lemma_first_difference_scan(a, b, i - 1);
    }
}

/// The topology part of the isomorphism check of two meshes: the same
/// vertex count, the same index count, and the same triangles.
pub fn check_topology_match(vertices_a: usize, vertices_b: usize, a: &[u32], b: &[u32]) -> (r: Result<
    (),
    GltfMeshError,
>)
    ensures
        match r {
            Ok(_) => topology_mismatch(vertices_a as nat, vertices_b as nat, a@, b@) is None,
            Err(e) => topology_mismatch(vertices_a as nat, vertices_b as nat, a@, b@) matches Some(m)
                && e@ == GltfErrorView::IsomorphismMismatch(m),
        },
{
    if vertices_a != vertices_b {
        let mut m = String::from_str("Vertex count mismatch: self has ");
        let x = decimal_string(vertices_a as u64);
        m.append(x.as_str());
        m.append(" vertices, other has ");
        let y = decimal_string(vertices_b as u64);
        m.append(y.as_str());
        return Err(GltfMeshError::IsomorphismMismatch(m));
    }
    if a.len() != b.len() {
        let mut m = String::from_str("Index count mismatch: self has ");
        let x = decimal_string(a.len() as u64);
        m.append(x.as_str());
        m.append(" indices, other has ");
        let y = decimal_string(b.len() as u64);
        m.append(y.as_str());
        return Err(GltfMeshError::IsomorphismMismatch(m));
    }
    let mut i: usize = 0;
    while i < a.len()
        invariant
            i <= a.len() == b.len(),
            vertices_a == vertices_b,
            forall|j: int| 0 <= j < i ==> a@[j] == b@[j],
        decreases a.len() - i,
    {
        if a[i] != b[i] {
            proof {
                lemma_first_difference_scan(a@, b@, i as int);
                assert(first_difference(a@, b@, i as int) == i as int);
            }
            let mut m = String::from_str("Triangle index mismatch at entry ");
            let x = decimal_string(i as u64);
            m.append(x.as_str());
            m.append(": ");
            let y = decimal_string(a[i] as u64);
            m.append(y.as_str());
            m.append(" vs ");
            let z = decimal_string(b[i] as u64);
            m.append(z.as_str());
            return Err(GltfMeshError::IsomorphismMismatch(m));
        }
        i += 1;
    }
    proof {
        lemma_first_difference_scan(a@, b@, i as int);
    }
    Ok(())
}


// ---------------------------------------------------------------------------
// The glTF document: the first primitive of the first mesh
// ---------------------------------------------------------------------------

/// A primitive as the JSON describes it: its attributes (name and accessor
/// index when that is an unsigned integer; `None` when `attributes` is not
/// an object) and its `indices` accessor.
pub struct PrimitiveDesc {
    pub attributes: Option<Vec<(String, Option<u64>)>>,
    pub indices: Option<u64>,
}

/// A mesh as the JSON describes it: its name, when it is a string, and its
/// primitives.
pub struct MeshDesc {
    pub name: Option<String>,
    pub primitives: Vec<PrimitiveDesc>,
}

/// The primitive a mesh is read from, resolved.
pub struct PrimitiveChoice {
    /// Name of the mesh (`UnnamedMesh` when it has none).
    pub mesh_name: String,
    /// Accessor of the `POSITION` attribute.
    pub position: u64,
    /// Every attribute of the primitive.
    pub attributes: Vec<(String, Option<u64>)>,
    /// Accessor of the indices, when there is one.
    pub indices: Option<u64>,
}

/// The views of attribute entries.
pub open spec fn attribute_views(a: Seq<(String, Option<u64>)>) -> Seq<(Seq<char>, Option<u64>)> {
    a.map_values(|e: (String, Option<u64>)| (e.0@, e.1))
}

/// Position of the first attribute named `name`, or `-1`.
pub open spec fn attribute_position(a: Seq<(Seq<char>, Option<u64>)>, name: Seq<char>, k: int) -> int
    decreases k,
{
    if k <= 0 {
        -1
    } else if attribute_position(a, name, k - 1) >= 0 {
        attribute_position(a, name, k - 1)
    } else if a[k - 1].0 == name {
        k - 1
    } else {
        -1
    }
}

/// The entry of attribute `name`: `None` when absent, else its accessor
/// index (itself `None` when the value is not an unsigned integer).
pub open spec fn attribute_entry_spec(a: Seq<(Seq<char>, Option<u64>)>, name: Seq<char>) -> Option<Option<u64>> {
    let p = attribute_position(a, name, a.len() as int);
    if p < 0 {
        None
    } else {
        Some(a[p].1)
    }
}

proof fn lemma_attribute_position_bounds(a: Seq<(Seq<char>, Option<u64>)>, name: Seq<char>, k: int)
    requires
        0 <= k <= a.len(),
    ensures
        -1 <= attribute_position(a, name, k) < k,
        attribute_position(a, name, k) >= 0 ==> a[attribute_position(a, name, k)].0 == name,
    decreases k,
{
    if k > 0 {
        lemma_attribute_position_bounds(a, name, k - 1);
    }
}

/// Looks an attribute up by name (the first entry with that name).
pub fn attribute_entry(attributes: &[(String, Option<u64>)], name: &str) -> (r: Option<Option<u64>>)
    ensures
        r == attribute_entry_spec(attribute_views(attributes@), name@),
{
    let ghost a = attribute_views(attributes@);
    let mut i: usize = 0;
    while i < attributes.len()
        invariant
            i <= attributes.len(),
            a == attribute_views(attributes@),
            attribute_position(a, name@, i as int) == -1,
        decreases attributes.len() - i,
    {
        assert(a[i as int] == (attributes@[i as int].0@, attributes@[i as int].1));
        if str_eq(attributes[i].0.as_str(), name) {
            proof {
                lemma_attribute_position_bounds(a, name@, attributes.len() as int);
                lemma_attribute_position_found(a, name@, i as int + 1, attributes.len() as int);
            }
            return Some(attributes[i].1);
        }
        i += 1;
    }
    None
}

proof fn lemma_attribute_position_found(a: Seq<(Seq<char>, Option<u64>)>, name: Seq<char>, k: int, n: int)
    requires
        0 <= k <= n <= a.len(),
        attribute_position(a, name, k) >= 0,
    ensures
        attribute_position(a, name, n) == attribute_position(a, name, k),
    decreases n - k,
{
    if k < n {
        lemma_attribute_position_found(a, name, k, n - 1);
    }
}

/// What reading a document's first primitive gives: its mesh name, the
/// `POSITION` accessor, the attributes and the indices accessor, or the
/// first thing missing.
pub open spec fn primitive_choice_spec(meshes: Seq<MeshDesc>) -> Result<
    (Seq<char>, u64, Seq<(Seq<char>, Option<u64>)>, Option<u64>),
    GltfErrorView,
> {
    if meshes.len() == 0 {
        Err(GltfErrorView::InvalidAccessor("No meshes in glTF"@))
    } else if meshes[0].primitives@.len() == 0 {
        Err(GltfErrorView::InvalidAccessor("No primitives in mesh"@))
    } else {
        let prim = meshes[0].primitives@[0];
        match prim.attributes {
            None => Err(GltfErrorView::InvalidAccessor("Primitive missing attributes"@)),
            Some(attrs) => {
                let a = attribute_views(attrs@);
                match attribute_entry_spec(a, "POSITION"@) {
                    Some(Some(p)) => Ok(
                        (
                            match meshes[0].name {
                                Some(n) => n@,
                                None => "UnnamedMesh"@,
                            },
                            p,
                            a,
                            prim.indices,
                        ),
                    ),
                    _ => Err(GltfErrorView::MissingPosition),
                }
            },
        }
    }
}

/// Resolves the primitive a mesh is read from: the first primitive of the
/// first mesh, which must have attributes with an unsigned `POSITION`.
pub fn choose_primitive(meshes: &[MeshDesc]) -> (r: Result<PrimitiveChoice, GltfMeshError>)
    ensures
        match r {
            Ok(c) => primitive_choice_spec(meshes@) == Ok::<
                (Seq<char>, u64, Seq<(Seq<char>, Option<u64>)>, Option<u64>),
                GltfErrorView,
            >((c.mesh_name@, c.position, attribute_views(c.attributes@), c.indices)),
            Err(e) => primitive_choice_spec(meshes@) == Err::<
                (Seq<char>, u64, Seq<(Seq<char>, Option<u64>)>, Option<u64>),
                GltfErrorView,
            >(e@),
        },
{
    if meshes.len() == 0 {
        return Err(GltfMeshError::InvalidAccessor(String::from_str("No meshes in glTF")));
    }
    let mesh = &meshes[0];
    if mesh.primitives.len() == 0 {
        return Err(GltfMeshError::InvalidAccessor(String::from_str("No primitives in mesh")));
    }
    let prim = &mesh.primitives[0];
    let attrs = match &prim.attributes {
        Some(a) => a,
        None => {
            return Err(GltfMeshError::InvalidAccessor(String::from_str("Primitive missing attributes")));
        },
    };
    let position = match attribute_entry(attrs.as_slice(), "POSITION") {
        Some(Some(p)) => p,
        _ => {
            return Err(GltfMeshError::MissingPosition);
        },
    };
    let mesh_name = match &mesh.name {
        Some(n) => n.clone(),
        None => String::from_str("UnnamedMesh"),
    };
    let mut attributes: Vec<(String, Option<u64>)> = Vec::new();
    let mut i: usize = 0;
    while i < attrs.len()
        invariant
            i <= attrs.len(),
            attributes.len() == i,
            attribute_views(attributes@) == attribute_views(attrs@).take(i as int),
        decreases attrs.len() - i,
    {
        let ghost before = attributes@;
        let name = attrs[i].0.clone();
        let entry = (name, attrs[i].1);
        assert(entry.0@ == attrs@[i as int].0@);
        attributes.push(entry);
        assert(attributes@ == before.push(entry));
        assert(attribute_views(attributes@) =~= attribute_views(attrs@).take(i as int + 1)) by {
            assert forall|k: int| 0 <= k < i + 1 implies #[trigger] attribute_views(attributes@)[k]
                == attribute_views(attrs@)[k] by {
                if k < i {
                    assert(before.len() == i);
                    assert(attributes@[k] == before[k]);
                    assert(attribute_views(attributes@)[k] == (attributes@[k].0@, attributes@[k].1));
                    assert(attribute_views(before)[k] == (before[k].0@, before[k].1));
                    assert(attribute_views(attributes@)[k] == attribute_views(before)[k]);
                    assert(attribute_views(before)[k] == attribute_views(attrs@).take(i as int)[k]);
                }
            }
        }
        i += 1;
    }
    assert(attribute_views(attrs@).take(attrs.len() as int) =~= attribute_views(attrs@));
    Ok(PrimitiveChoice { mesh_name, position, attributes, indices: prim.indices })
}

} // verus!
