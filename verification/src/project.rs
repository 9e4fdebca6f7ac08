//! Project-level vocabulary: built-in mesh URIs, presets, asset and colour
//! settings, and the key conversions used when upgrading legacy documents.
use vstd::prelude::*;

use crate::ids::{asset_id_for, id_error_message, AssetId, IdError, IdErrorView};
use crate::text::{
    decimal, decimal_string, trim, trim_chars, ascii_lower, ascii_upper, chars_of, is_ascii_digit, is_ascii_lower, is_ascii_upper, push_char, str_eq,
    to_ascii_lower,
};

verus! {

/// Current schema version of the project document.
pub const PROJECT_SCHEMA_VERSION: u32 = 1;

/// Default autosave interval (minutes).
pub const DEFAULT_AUTOSAVE_INTERVAL_MINUTES: u32 = 5;

/// Default undo/redo depth.
pub const DEFAULT_HISTORY_LIMIT: u32 = 60;

/// Canonical URI of the male base mesh asset.
pub const URI_BASE_MALE: &'static str = "anigo://base/anigo_base_male.glb";

/// Canonical URI of the female base mesh asset.
pub const URI_BASE_FEMALE: &'static str = "anigo://base/anigo_base_female.glb";

/// Canonical URI of the unit cube preset mesh.
pub const URI_PRESET_CUBE: &'static str = "anigo://preset/cube";

/// Canonical URI of the UV sphere preset mesh.
pub const URI_PRESET_SPHERE: &'static str = "anigo://preset/uv_sphere";

/// Built-in (procedural) mesh assets that ship with the editor.
pub const BUILTIN_MESH_URIS: [&'static str; 4] = [URI_BASE_MALE, URI_BASE_FEMALE, URI_PRESET_CUBE, URI_PRESET_SPHERE];

/// Biological gender archetype of the canonical base meshes.
#[derive(Debug, Clone, Copy, PartialEq, Eq, Structural)]
pub enum BaseGender {
    Male,
    Female,
}

/// Mesh presets shipped with the editor.
#[derive(Debug, Clone, Copy, PartialEq, Eq, Structural)]
pub enum MeshPreset {
    /// Canonical anime mannequin (morph-capable).
    Mannequin,
    /// Unit cube (topology probe).
    Cube,
    /// UV sphere (lighting probe).
    Sphere,
}

/// URI of the canonical base mesh of a gender.
pub open spec fn base_uri(gender: BaseGender) -> Seq<char> {
    match gender {
        BaseGender::Male => URI_BASE_MALE@,
        BaseGender::Female => URI_BASE_FEMALE@,
    }
}

impl MeshPreset {
    /// Canonical asset URI of the preset for a base gender.
    pub fn uri(self, gender: BaseGender) -> (u: &'static str)
        ensures
            u@ == match self {
                MeshPreset::Cube => URI_PRESET_CUBE@,
                MeshPreset::Sphere => URI_PRESET_SPHERE@,
                MeshPreset::Mannequin => base_uri(gender),
            },
    {
        match self {
            MeshPreset::Cube => URI_PRESET_CUBE,
            MeshPreset::Sphere => URI_PRESET_SPHERE,
            MeshPreset::Mannequin => match gender {
                BaseGender::Male => URI_BASE_MALE,
                BaseGender::Female => URI_BASE_FEMALE,
            },
        }
    }

    /// `true` when canonical sparse morph channels exist for this preset.
    pub fn supports_morphs(self) -> (b: bool)
        ensures
            b == (self == MeshPreset::Mannequin),
    {
        matches!(self, MeshPreset::Mannequin)
    }
}

/// Reference to a mesh primitive inside an asset.
#[derive(Debug, Clone, PartialEq, Eq)]
pub struct MeshRef {
    pub asset_id: AssetId,
    pub primitive_index: u32,
}

/// Default of boolean flags that are on unless stated otherwise.
pub fn default_true() -> (b: bool)
    ensures
        b,
{
    true
}

/// Asset id of the canonical base mesh of a gender.
pub fn base_mesh_asset_id(gender: BaseGender) -> (id: AssetId)
    ensures
        id@ == asset_id_for(base_uri(gender)),
{
    AssetId::for_uri(
        match gender {
            BaseGender::Male => URI_BASE_MALE,
            BaseGender::Female => URI_BASE_FEMALE,
        },
    )
}

/// URI a legacy `preset` value stands for.
pub open spec fn preset_uri(preset: Seq<char>, gender: BaseGender) -> Seq<char> {
    if preset == "cube"@ {
        URI_PRESET_CUBE@
    } else if preset == "sphere"@ {
        URI_PRESET_SPHERE@
    } else {
        base_uri(gender)
    }
}

/// Converts a legacy `preset` value into the canonical mesh reference.
pub fn preset_mesh_ref(preset: &str, gender: BaseGender) -> (m: MeshRef)
    ensures
        m.asset_id@ == asset_id_for(preset_uri(preset@, gender)),
        m.primitive_index == 0,
{
    let uri = if str_eq(preset, "cube") {
        URI_PRESET_CUBE
    } else if str_eq(preset, "sphere") {
        URI_PRESET_SPHERE
    } else {
        match gender {
            BaseGender::Male => URI_BASE_MALE,
            BaseGender::Female => URI_BASE_FEMALE,
        }
    };
    MeshRef { asset_id: AssetId::for_uri(uri), primitive_index: 0 }
}

/// Display label of a legacy `preset` value.
pub open spec fn preset_label_spec(preset: Seq<char>) -> Seq<char> {
    if preset == "cube"@ {
        "Cube"@
    } else if preset == "sphere"@ {
        "UV Sphere"@
    } else if preset == "female"@ {
        "Anime Mannequin (Female)"@
    } else {
        "Anime Mannequin"@
    }
}

/// Display label of a legacy `preset` value.
pub fn preset_label(preset: &str) -> (l: String)
    ensures
        l@ == preset_label_spec(preset@),
{
    if str_eq(preset, "cube") {
        String::from_str("Cube")
    } else if str_eq(preset, "sphere") {
        String::from_str("UV Sphere")
    } else if str_eq(preset, "female") {
        String::from_str("Anime Mannequin (Female)")
    } else {
        String::from_str("Anime Mannequin")
    }
}

// ---------------------------------------------------------------------------
// Legacy key conversion
// ---------------------------------------------------------------------------

/// What `char::to_uppercase` yields for `c` (the Unicode upper-case mapping).
pub uninterp spec fn uppercase_of(c: char) -> Seq<char>;

/// The upper-case mapping of `c`: ASCII upper-casing for ASCII characters.
pub open spec fn upper_piece(c: char) -> Seq<char> {
    if c <= '\u{7f}' {
        seq![ascii_upper(c)]
    } else {
        uppercase_of(c)
    }
}

/// `char::to_uppercase`, collected: one or more characters; for an ASCII
/// character, its ASCII upper case (a character without an upper-case
/// mapping maps to itself).
#[verifier::external_body]
fn unicode_uppercase(c: char) -> (r: Vec<char>)
    ensures
        r@ == uppercase_of(c),
        r@.len() >= 1,
        c <= '\u{7f}' ==> r@ == seq![ascii_upper(c)],
{
    c.to_uppercase().collect()
}

/// Left-to-right camel-casing: the output so far, and whether the next
/// character follows an underscore.
pub open spec fn camel_state(s: Seq<char>) -> (Seq<char>, bool)
    decreases s.len(),
{
    if s.len() == 0 {
        (Seq::empty(), false)
    } else {
        let (out, up) = camel_state(s.drop_last());
        let c = s.last();
        if c == '_' {
            (out, true)
        } else if up {
            (out + upper_piece(c), false)
        } else {
            (out.push(c), false)
        }
    }
}

/// camelCase of a canonical field name: underscores are dropped and the
/// character after each is upper-cased.
pub open spec fn camel_spec(s: Seq<char>) -> Seq<char> {
    camel_state(s).0
}

/// camelCases a canonical field name (`head_scale` -> `headScale`).
pub fn camel_key(canonical: &str) -> (out: String)
    ensures
        out@ == camel_spec(canonical@),
{
    let chars = chars_of(canonical);
    let mut out = String::new();
    let mut uppercase_next = false;
    let mut i: usize = 0;
    while i < chars.len()
        invariant
            i <= chars.len(),
            chars@ == canonical@,
            camel_state(chars@.take(i as int)) == (out@, uppercase_next),
        decreases chars.len() - i,
    {
        let c = chars[i];
        assert(chars@.take(i + 1).drop_last() =~= chars@.take(i as int));
        if c == '_' {
            uppercase_next = true;
        } else if uppercase_next {
            let upper = unicode_uppercase(c);
            let mut k: usize = 0;
            let ghost before = out@;
            while k < upper.len()
                invariant
                    k <= upper.len(),
                    out@ == before + upper@.take(k as int),
                decreases upper.len() - k,
            {
                push_char(&mut out, upper[k]);
                assert(upper@.take(k + 1) =~= upper@.take(k as int).push(upper@[k as int]));
                k += 1;
            }
            assert(upper@.take(upper.len() as int) =~= upper@);
            uppercase_next = false;
        } else {
            push_char(&mut out, c);
        }
        i += 1;
    }
    assert(chars@.take(chars.len() as int) =~= chars@);
    out
}

/// What `slug_key` writes for the character `c` at position `index`.
pub open spec fn slug_piece(c: char, index: int) -> Seq<char> {
    if is_ascii_upper(c) {
        if index > 0 {
            seq!['_', ascii_lower(c)]
        } else {
            seq![ascii_lower(c)]
        }
    } else {
        seq![c]
    }
}

/// snake_case of a camelCase name: each ASCII upper-case letter becomes an
/// underscore (except in first position) and its lower case.
pub open spec fn slug_key_spec(s: Seq<char>) -> Seq<char>
    decreases s.len(),
{
    if s.len() == 0 {
        Seq::empty()
    } else {
        slug_key_spec(s.drop_last()) + slug_piece(s.last(), s.len() - 1)
    }
}

/// snake_cases a legacy camelCase field name (`headScale` -> `head_scale`).
pub fn slug_key(legacy: &str) -> (out: String)
    ensures
        out@ == slug_key_spec(legacy@),
{
    let chars = chars_of(legacy);
    let mut out = String::new();
    let mut i: usize = 0;
    while i < chars.len()
        invariant
            i <= chars.len(),
            chars@ == legacy@,
            out@ == slug_key_spec(chars@.take(i as int)),
        decreases chars.len() - i,
    {
        let ch = chars[i];
        assert(chars@.take(i + 1).drop_last() =~= chars@.take(i as int));
        if 'A' <= ch && ch <= 'Z' {
            if i > 0 {
                push_char(&mut out, '_');
            }
            push_char(&mut out, to_ascii_lower(ch));
        } else {
            push_char(&mut out, ch);
        }
        i += 1;
    }
    assert(chars@.take(chars.len() as int) =~= chars@);
    out
}

/// A canonical snake_case field name: lower-case ASCII words of letters and
/// digits, each starting with a letter, joined by single underscores.
pub open spec fn canonical_snake(s: Seq<char>) -> bool {
    &&& s.len() > 0
    &&& is_ascii_lower(s[0])
    &&& forall|i: int| 0 <= i < s.len() ==> is_ascii_lower(#[trigger] s[i]) || is_ascii_digit(s[i]) || s[i] == '_'
    &&& forall|i: int| 0 <= i < s.len() && #[trigger] s[i] == '_' ==> i + 1 < s.len() && is_ascii_lower(s[i + 1])
}

proof fn lemma_camel_prefix(s: Seq<char>, k: int)
    requires
        canonical_snake(s),
        1 <= k <= s.len(),
    ensures
        camel_state(s.take(k)).1 == (s[k - 1] == '_'),
        camel_state(s.take(k)).0.len() > 0,
        slug_key_spec(camel_state(s.take(k)).0) == if s[k - 1] == '_' {
            s.take(k - 1)
        } else {
            s.take(k)
        },
    decreases k,
{
    let p = s.take(k);
    assert(p.drop_last() =~= s.take(k - 1));
    let c = s[k - 1];
    if k == 1 {
        assert(camel_state(s.take(0)) == (Seq::<char>::empty(), false));
        assert(s.take(0) =~= Seq::<char>::empty());
        let out = seq![c];
        assert(camel_state(p).0 =~= out);
        assert(slug_key_spec(out.drop_last()) =~= Seq::<char>::empty());
        assert(out.drop_last() =~= Seq::<char>::empty());
        assert(slug_key_spec(out) =~= seq![c]);
        assert(p =~= seq![c]);
    } else {
        lemma_camel_prefix(s, k - 1);
        let (out, up) = camel_state(s.take(k - 1));
        let prev = s[k - 2];
        if c == '_' {
            assert(prev != '_') by {
                if prev == '_' {
                    assert(is_ascii_lower(s[k - 1]));
                }
            }
        } else if up {
            assert(prev == '_');
            assert(is_ascii_lower(c));
            let out2 = out.push(ascii_upper(c));
            assert(out + upper_piece(c) =~= out2);
            assert(out2.drop_last() =~= out);
            assert(slug_key_spec(out2) == slug_key_spec(out) + slug_piece(ascii_upper(c), out.len() as int));
            assert(ascii_lower(ascii_upper(c)) == c);
            assert(s.take(k) =~= s.take(k - 2) + seq!['_', c]);
        } else {
            let out2 = out.push(c);
            assert(out2.drop_last() =~= out);
            assert(!is_ascii_upper(c));
            assert(s.take(k) =~= s.take(k - 1).push(c));
        }
    }
}

/// camelCase and snake_case are inverse on canonical field names:
/// `slug_key(camel_key(s)) == s`.
pub proof fn law_slug_key_inverts_camel_key(s: Seq<char>)
    requires
        canonical_snake(s),
    ensures
        slug_key_spec(camel_spec(s)) == s,
{
    lemma_camel_prefix(s, s.len() as int);
    assert(s.take(s.len() as int) =~= s);
    if s.last() == '_' {
        assert(s[s.len() - 1] == '_');
    }
}

// ---------------------------------------------------------------------------
// Colour, assets, settings
// ---------------------------------------------------------------------------

/// Supported colour spaces.
#[derive(Debug, Clone, Copy, PartialEq, Eq, Structural)]
pub enum ColorSpace {
    /// sRGB (non-linear, display referred).
    Srgb,
    /// Linear sRGB (scene referred working space).
    LinearSrgb,
    /// Display P3 (wide gamut presentation).
    DisplayP3,
}

/// Tonemapping operator applied between working and display space.
#[derive(Debug, Clone, Copy, PartialEq, Eq, Structural)]
pub enum TonemapOperator {
    /// No tonemapping (cel shading default).
    Off,
    /// Reinhard `x / (1 + x)`.
    Reinhard,
    /// Neutral (Khronos) tonemap.
    Neutral,
}

/// Explicit colour-management definition.
#[derive(Debug, Clone, Copy, PartialEq, Eq, Structural)]
pub struct ColorManagement {
    /// Space of textures/materials as authored.
    pub input_texture_space: ColorSpace,
    /// Working space of the renderer.
    pub working_space: ColorSpace,
    /// Space of the presented framebuffer.
    pub display_space: ColorSpace,
}

impl Default for ColorManagement {
    fn default() -> (c: Self)
        ensures
            c.input_texture_space == ColorSpace::Srgb,
            c.working_space == ColorSpace::LinearSrgb,
            c.display_space == ColorSpace::Srgb,
    {
        ColorManagement {
            input_texture_space: ColorSpace::Srgb,
            working_space: ColorSpace::LinearSrgb,
            display_space: ColorSpace::Srgb,
        }
    }
}

/// Asset kinds tracked by the project.
#[derive(Debug, Clone, Copy, PartialEq, Eq, Structural)]
pub enum AssetKind {
    /// glTF/GLB or procedural mesh.
    Mesh,
    /// Image texture.
    Texture,
    /// Hair groom asset.
    Hair,
    /// Cloth asset.
    Cloth,
    /// Audio clip.
    Audio,
    /// Anything else.
    Other,
}

/// Referenced asset entry.
#[derive(Debug, Clone, PartialEq, Eq)]
pub struct AssetEntry {
    pub asset_id: AssetId,
    pub kind: AssetKind,
    /// Relative or `anigo://` URI, never an absolute machine path.
    pub uri: String,
    pub byte_len: Option<u64>,
    pub content_hash: Option<String>,
}

impl AssetEntry {
    /// An entry whose id is derived from its URI.
    pub fn from_uri(kind: AssetKind, uri: String) -> (e: Self)
        ensures
            e.asset_id@ == asset_id_for(uri@),
            e.kind == kind,
            e.uri@ == uri@,
            e.byte_len is None,
            e.content_hash is None,
    {
        let asset_id = AssetId::for_uri(uri.as_str());
        AssetEntry { asset_id, kind, uri, byte_len: None, content_hash: None }
    }
}

/// Unit system of the project.
#[derive(Debug, Clone, Copy, PartialEq, Eq, Structural)]
pub enum LengthUnit {
    Meters,
    Centimeters,
}

/// Persistent project settings.
#[derive(Debug, Clone, PartialEq, Eq)]
pub struct ProjectSettings {
    pub autosave_interval_minutes: u32,
    pub history_limit: u32,
    pub locale: String,
    pub units: LengthUnit,
}

impl Default for ProjectSettings {
    fn default() -> (s: Self)
        ensures
            s.autosave_interval_minutes == DEFAULT_AUTOSAVE_INTERVAL_MINUTES,
            s.history_limit == DEFAULT_HISTORY_LIMIT,
            s.locale@ == "pt_BR"@,
            s.units == LengthUnit::Meters,
    {
        ProjectSettings {
            autosave_interval_minutes: DEFAULT_AUTOSAVE_INTERVAL_MINUTES,
            history_limit: DEFAULT_HISTORY_LIMIT,
            locale: String::from_str("pt_BR"),
            units: LengthUnit::Meters,
        }
    }
}

/// Everything that can go wrong while loading, validating or migrating a project.
#[derive(Debug, Clone, PartialEq)]
pub enum ProjectError {
    /// The payload is not valid JSON.
    Json(String),
    /// The payload is not a JSON object.
    NotAnObject { found: String },
    /// `schema_version` is newer than this build understands.
    UnsupportedSchemaVersion { found: u32, supported: u32 },
    /// `schema_version` is missing on a payload that claims to be canonical.
    MissingSchemaVersion,
    /// An identifier failed validation.
    InvalidId { field: &'static str, source: IdError },
    /// Two entities of the same kind share an id.
    DuplicateId { kind: &'static str, id: String },
    /// A reference points at an entity that does not exist.
    DanglingReference { field: &'static str, kind: &'static str, target: String },
    /// A value is outside its canonical domain.
    InvalidValue { field: String, detail: String },
    /// A morph id is not part of the canonical catalog.
    UnknownMorph(String),
    /// The project contains no scene node.
    EmptyScene,
    /// The scene tree is invalid (missing parent, self parent or cycle).
    InvalidHierarchy { detail: String },
}

/// Mathematical view of a `ProjectError`.
pub enum ProjectErrorView {
    Json(Seq<char>),
    NotAnObject { found: Seq<char> },
    UnsupportedSchemaVersion { found: u32, supported: u32 },
    MissingSchemaVersion,
    InvalidId { field: Seq<char>, source: IdErrorView },
    DuplicateId { kind: Seq<char>, id: Seq<char> },
    DanglingReference { field: Seq<char>, kind: Seq<char>, target: Seq<char> },
    InvalidValue { field: Seq<char>, detail: Seq<char> },
    UnknownMorph(Seq<char>),
    EmptyScene,
    InvalidHierarchy { detail: Seq<char> },
}

impl View for ProjectError {
    type V = ProjectErrorView;

    open spec fn view(&self) -> ProjectErrorView {
        match self {
            ProjectError::Json(d) => ProjectErrorView::Json(d@),
            ProjectError::NotAnObject { found } => ProjectErrorView::NotAnObject { found: found@ },
            ProjectError::UnsupportedSchemaVersion { found, supported } => ProjectErrorView::UnsupportedSchemaVersion {
                found: *found,
                supported: *supported,
            },
            ProjectError::MissingSchemaVersion => ProjectErrorView::MissingSchemaVersion,
            ProjectError::InvalidId { field, source } => ProjectErrorView::InvalidId { field: field@, source: source@ },
            ProjectError::DuplicateId { kind, id } => ProjectErrorView::DuplicateId { kind: kind@, id: id@ },
            ProjectError::DanglingReference { field, kind, target } => ProjectErrorView::DanglingReference {
                field: field@,
                kind: kind@,
                target: target@,
            },
            ProjectError::InvalidValue { field, detail } => ProjectErrorView::InvalidValue {
                field: field@,
                detail: detail@,
            },
            ProjectError::UnknownMorph(id) => ProjectErrorView::UnknownMorph(id@),
            ProjectError::EmptyScene => ProjectErrorView::EmptyScene,
            ProjectError::InvalidHierarchy { detail } => ProjectErrorView::InvalidHierarchy { detail: detail@ },
        }
    }
}

/// The text of a project error.
pub open spec fn project_error_message(e: ProjectError) -> Seq<char> {
    match e {
        ProjectError::Json(detail) => "project JSON is malformed: "@ + detail@,
        ProjectError::NotAnObject { found } => "project root must be a JSON object, found "@ + found@,
        ProjectError::UnsupportedSchemaVersion { found, supported } => "project schema_version "@ + decimal(
            found as nat,
        ) + " is newer than the supported version "@ + decimal(supported as nat),
        ProjectError::MissingSchemaVersion => "project is missing the required 'schema_version' field"@,
        ProjectError::InvalidId { field, source } => "invalid id in field '"@ + field@ + "': "@ + id_error_message(
            source@,
        ),
        ProjectError::DuplicateId { kind, id } => "duplicated "@ + kind@ + " id '"@ + id@ + "'"@,
        ProjectError::DanglingReference { field, kind, target } => "field '"@ + field@ + "' references unknown "@
            + kind@ + " '"@ + target@ + "'"@,
        ProjectError::InvalidValue { field, detail } => "invalid value for '"@ + field@ + "': "@ + detail@,
        ProjectError::UnknownMorph(id) => "unknown morph slider '"@ + id@ + "'"@,
        ProjectError::EmptyScene => "project must contain at least one scene node"@,
        ProjectError::InvalidHierarchy { detail } => "invalid scene hierarchy: "@ + detail@,
    }
}

impl ProjectError {
    /// The text of the error.
    pub fn message(&self) -> (m: String)
        ensures
            m@ == project_error_message(*self),
    {
        match self {
            ProjectError::Json(detail) => {
                let mut m = String::from_str("project JSON is malformed: ");
                m.append(detail.as_str());
                m
            },
            ProjectError::NotAnObject { found } => {
                let mut m = String::from_str("project root must be a JSON object, found ");
                m.append(found.as_str());
                m
            },
            ProjectError::UnsupportedSchemaVersion { found, supported } => {
                let mut m = String::from_str("project schema_version ");
                let f = decimal_string(*found as u64);
                m.append(f.as_str());
                m.append(" is newer than the supported version ");
                let s = decimal_string(*supported as u64);
                m.append(s.as_str());
                m
            },
            ProjectError::MissingSchemaVersion => String::from_str(
                "project is missing the required 'schema_version' field",
            ),
            ProjectError::InvalidId { field, source } => {
                let mut m = String::from_str("invalid id in field '");
                m.append(field);
                m.append("': ");
                let inner = source.message();
                m.append(inner.as_str());
                m
            },
            ProjectError::DuplicateId { kind, id } => {
                let mut m = String::from_str("duplicated ");
                m.append(kind);
                m.append(" id '");
                m.append(id.as_str());
                m.append("'");
                m
            },
            ProjectError::DanglingReference { field, kind, target } => {
                let mut m = String::from_str("field '");
                m.append(field);
                m.append("' references unknown ");
                m.append(kind);
                m.append(" '");
                m.append(target.as_str());
                m.append("'");
                m
            },
            ProjectError::InvalidValue { field, detail } => {
                let mut m = String::from_str("invalid value for '");
                m.append(field.as_str());
                m.append("': ");
                m.append(detail.as_str());
                m
            },
            ProjectError::UnknownMorph(id) => {
                let mut m = String::from_str("unknown morph slider '");
                m.append(id.as_str());
                m.append("'");
                m
            },
            ProjectError::EmptyScene => String::from_str("project must contain at least one scene node"),
            ProjectError::InvalidHierarchy { detail } => {
                let mut m = String::from_str("invalid scene hierarchy: ");
                m.append(detail.as_str());
                m
            },
        }
    }
}

// ---------------------------------------------------------------------------
// Hexadecimal colours of legacy documents
// ---------------------------------------------------------------------------

/// An 8-bit-per-channel colour.
#[derive(Debug, Clone, Copy, PartialEq, Eq, Structural)]
pub struct Rgba8 {
    pub r: u8,
    pub g: u8,
    pub b: u8,
    pub a: u8,
}

/// `s` without its leading `#` characters.
pub open spec fn strip_hashes(s: Seq<char>) -> Seq<char>
    decreases s.len(),
{
    if s.len() > 0 && s[0] == '#' {
        strip_hashes(s.drop_first())
    } else {
        s
    }
}

/// Value of a hexadecimal digit (either case), or `-1`.
pub open spec fn hex_value(c: char) -> int {
    if '0' <= c && c <= '9' {
        c as int - '0' as int
    } else if 'a' <= c && c <= 'f' {
        c as int - 'a' as int + 10
    } else if 'A' <= c && c <= 'F' {
        c as int - 'A' as int + 10
    } else {
        -1
    }
}

/// Value of a two-character base-16 byte, or `-1`: two hexadecimal digits,
/// or a `+` sign before a single digit.
pub open spec fn pair_value(c0: char, c1: char) -> int {
    if c0 == '+' {
        hex_value(c1)
    } else if hex_value(c0) >= 0 && hex_value(c1) >= 0 {
        16 * hex_value(c0) + hex_value(c1)
    } else {
        -1
    }
}

/// Every character is ASCII.
pub open spec fn all_ascii(s: Seq<char>) -> bool {
    forall|i: int| 0 <= i < s.len() ==> s[i] < '\u{80}'
}

/// The colour written as `#rrggbb` or `#rrggbbaa` (surrounding white space
/// and any number of leading `#` allowed; a missing alpha is opaque), or
/// `None` when the text is not such a colour.
pub open spec fn hex_rgba_spec(raw: Seq<char>) -> Option<Rgba8> {
    let h = strip_hashes(trim(raw));
    if !all_ascii(h) {
        None
    } else if h.len() == 6 && pair_value(h[0], h[1]) >= 0 && pair_value(h[2], h[3]) >= 0 && pair_value(h[4], h[5])
        >= 0 {
        Some(
            Rgba8 {
                r: pair_value(h[0], h[1]) as u8,
                g: pair_value(h[2], h[3]) as u8,
                b: pair_value(h[4], h[5]) as u8,
                a: 255,
            },
        )
    } else if h.len() == 8 && pair_value(h[0], h[1]) >= 0 && pair_value(h[2], h[3]) >= 0 && pair_value(h[4], h[5])
        >= 0 && pair_value(h[6], h[7]) >= 0 {
        Some(
            Rgba8 {
                r: pair_value(h[0], h[1]) as u8,
                g: pair_value(h[2], h[3]) as u8,
                b: pair_value(h[4], h[5]) as u8,
                a: pair_value(h[6], h[7]) as u8,
            },
        )
    } else {
        None
    }
}

fn hex_value_of(c: char) -> (v: Option<u8>)
    ensures
        match v {
            Some(d) => d == hex_value(c) && d < 16,
            None => hex_value(c) == -1,
        },
{
    if '0' <= c && c <= '9' {
        Some((c as u8) - 48)
    } else if 'a' <= c && c <= 'f' {
        Some((c as u8) - 87)
    } else if 'A' <= c && c <= 'F' {
        Some((c as u8) - 55)
    } else {
        None
    }
}

fn pair_value_of(c0: char, c1: char) -> (v: Option<u8>)
    ensures
        match v {
            Some(d) => d == pair_value(c0, c1),
            None => pair_value(c0, c1) == -1,
        },
{
    if c0 == '+' {
        return hex_value_of(c1);
    }
    match (hex_value_of(c0), hex_value_of(c1)) {
        (Some(hi), Some(lo)) => Some(hi * 16 + lo),
        _ => None,
    }
}

proof fn lemma_strip_hashes_suffix(s: Seq<char>, k: int)
    requires
        0 <= k <= s.len(),
        forall|j: int| 0 <= j < k ==> s[j] == '#',
    ensures
        strip_hashes(s) == strip_hashes(s.subrange(k, s.len() as int)),
    decreases k,
{
    if k > 0 {
        assert(s.drop_first().subrange(k - 1, s.drop_first().len() as int) =~= s.subrange(k, s.len() as int));
        lemma_strip_hashes_suffix(s.drop_first(), k - 1);
    } else {
        assert(s.subrange(0, s.len() as int) =~= s);
    }
}

/// Parses a colour written as `#rrggbb` or `#rrggbbaa` in hexadecimal
/// (either case; surrounding white space and any number of leading `#` are
/// ignored; a missing alpha is opaque). Anything else gives `None`, which
/// the caller replaces with its fallback colour.
pub fn parse_hex_rgba(raw: &str) -> (c: Option<Rgba8>)
    ensures
        c == hex_rgba_spec(raw@),
{
    let chars = chars_of(raw);
    let t = trim_chars(chars.as_slice());
    let mut k: usize = 0;
    while k < t.len() && t[k] == '#'
        invariant
            k <= t.len(),
            forall|j: int| 0 <= j < k ==> t@[j] == '#',
        decreases t.len() - k,
    {
        k += 1;
    }
    let ghost h = t@.subrange(k as int, t@.len() as int);
    proof {
        lemma_strip_hashes_suffix(t@, k as int);
        if k < t.len() {
            assert(h.len() > 0 && h[0] != '#');
        }
        assert(strip_hashes(h) == h);
        assert(strip_hashes(trim(raw@)) == h);
    }
    let n = t.len() - k;
    let mut i: usize = k;
    while i < t.len()
        invariant
            k <= i <= t.len(),
            h == t@.subrange(k as int, t@.len() as int),
            h == strip_hashes(trim(raw@)),
            forall|j: int| 0 <= j < i - k ==> h[j] < '\u{80}',
        decreases t.len() - i,
    {
        if !(t[i] < '\u{80}') {
            assert(!(h[i - k] < '\u{80}'));
            assert(!all_ascii(h));
            return None;
        }
        i += 1;
    }
    assert(all_ascii(h));
    if n != 6 && n != 8 {
        return None;
    }
    let r = pair_value_of(t[k], t[k + 1]);
    let g = pair_value_of(t[k + 2], t[k + 3]);
    let b = pair_value_of(t[k + 4], t[k + 5]);
    let a = if n == 8 {
        pair_value_of(t[k + 6], t[k + 7])
    } else {
        Some(255u8)
    };
    match (r, g, b, a) {
        (Some(r), Some(g), Some(b), Some(a)) => Some(Rgba8 { r, g, b, a }),
        _ => None,
    }
}

} // verus!
