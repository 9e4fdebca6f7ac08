//! The non-numeric decisions of loading, checking and repairing a project
//! document: its schema version, the morph overrides it names, the id of a
//! migrated legacy document, and the defaults a repair restores (project
//! name, entry names, asset URIs, the default material and the built-in
//! mesh assets).
use vstd::prelude::*;

use crate::hierarchy::unique_ids;
use crate::ids::{
    asset_id_for, canonical_id, carries_prefix, encode_id, fnv1a64, lemma_encode_valid_slug, lemma_hex16_is_slug,
    slider_part, valid_slug, AssetId, MaterialId, MaterialKind, MorphId, ProjectId, ProjectKind, IdKind,
};
use crate::project::{
    AssetEntry, AssetKind, ProjectError, ProjectErrorView, PROJECT_SCHEMA_VERSION, URI_BASE_FEMALE, URI_BASE_MALE,
    URI_PRESET_CUBE, URI_PRESET_SPHERE,
};
use crate::project_edits::id_views;
use crate::project_repairs::{default_material_id, id_listed};
use crate::text::{chars_of, fnv1a64_of, hex16, hex16_string, str_eq, trim, trim_chars};
use vstd::utf8::encode_utf8;

verus! {

// ---------------------------------------------------------------------------
// Schema version
// ---------------------------------------------------------------------------

/// Highest schema version a legacy (pre-canonical) document may declare.
pub const LEGACY_SCHEMA_LIMIT: u32 = 9999;

/// The `schema_version` entry of a JSON document, as the loader finds it.
#[derive(Debug, Clone, Copy, PartialEq, Eq, Structural)]
pub enum SchemaField {
    /// The key is missing.
    Absent,
    /// The value is not an unsigned integer.
    NotUnsigned,
    /// An unsigned integer.
    Unsigned(u64),
}

/// The error refusing a schema version.
pub open spec fn unsupported(found: u32) -> ProjectErrorView {
    ProjectErrorView::UnsupportedSchemaVersion { found, supported: PROJECT_SCHEMA_VERSION }
}

fn unsupported_error(found: u32) -> (e: ProjectError)
    ensures
        e@ == unsupported(found),
{
    ProjectError::UnsupportedSchemaVersion { found, supported: PROJECT_SCHEMA_VERSION }
}

/// A document validates only at the current schema version.
pub fn check_schema_version(version: u32) -> (r: Result<(), ProjectError>)
    ensures
        r is Ok <==> version == PROJECT_SCHEMA_VERSION,
        r matches Err(e) ==> e@ == unsupported(version),
{
    if version != PROJECT_SCHEMA_VERSION {
        Err(unsupported_error(version))
    } else {
        Ok(())
    }
}

/// What loading a canonical document makes of its `schema_version`: the
/// version, read as a `u32`, when it is the current one.
pub open spec fn schema_field_outcome(field: SchemaField) -> Result<u32, ProjectErrorView> {
    match field {
        SchemaField::Unsigned(v) => if v as u32 == PROJECT_SCHEMA_VERSION {
            Ok(v as u32)
        } else {
            Err(unsupported(v as u32))
        },
        _ => Err(ProjectErrorView::MissingSchemaVersion),
    }
}

/// Reads the `schema_version` of a canonical document: missing or not an
/// unsigned integer is `MissingSchemaVersion`; any version but the current
/// one is `UnsupportedSchemaVersion`.
pub fn read_schema_version(field: SchemaField) -> (r: Result<u32, ProjectError>)
    ensures
        match r {
            Ok(v) => schema_field_outcome(field) == Ok::<u32, ProjectErrorView>(v),
            Err(e) => schema_field_outcome(field) == Err::<u32, ProjectErrorView>(e@),
        },
{
    match field {
        SchemaField::Unsigned(v) => {
            let found: u32 = #[verifier::truncate] (v as u32);
            if found == PROJECT_SCHEMA_VERSION {
                Ok(found)
            } else {
                Err(unsupported_error(found))
            }
        },
        _ => Err(ProjectError::MissingSchemaVersion),
    }
}

/// The schema version of a legacy document: its `schemaVersion`, read as a
/// `u32`, or `1` when it is missing or not an unsigned integer.
pub open spec fn legacy_version_of(field: SchemaField) -> u32 {
    match field {
        SchemaField::Unsigned(v) => v as u32,
        _ => 1,
    }
}

/// The schema version a legacy document declares.
pub fn legacy_schema_version(field: SchemaField) -> (v: u32)
    ensures
        v == legacy_version_of(field),
{
    match field {
        SchemaField::Unsigned(v) => #[verifier::truncate] (v as u32),
        _ => 1,
    }
}

/// A legacy document migrates only up to `LEGACY_SCHEMA_LIMIT`.
pub fn check_legacy_schema_version(version: u32) -> (r: Result<(), ProjectError>)
    ensures
        r is Ok <==> version <= LEGACY_SCHEMA_LIMIT,
        r matches Err(e) ==> e@ == unsupported(version),
{
    if version > LEGACY_SCHEMA_LIMIT {
        Err(unsupported_error(version))
    } else {
        Ok(())
    }
}

/// The slug of a migrated legacy document's id: `legacy_` and the FNV-1a-64
/// of `<preset>|<version>`.
pub open spec fn legacy_slug(preset: Seq<char>, version: Seq<char>) -> Seq<char> {
    "legacy_"@ + hex16(fnv1a64_of(encode_utf8(preset + "|"@ + version)))
}

/// The project id of a migrated legacy document, derived from its preset and
/// its app version: `prj_legacy_<16 hex digits>`.
pub fn legacy_project_id(preset: &str, version: &str) -> (id: ProjectId)
    ensures
        id@ == ProjectKind::spec_prefix() + "_"@ + legacy_slug(preset@, version@),
{
    let mut key = String::from_str(preset);
    key.append("|");
    key.append(version);
    let hash = fnv1a64(key.as_str());
    let hex = hex16_string(hash);
    let mut slug = String::from_str("legacy_");
    slug.append(hex.as_str());
    proof {
        reveal_strlit("legacy_");
        reveal_strlit("|");
        reveal_strlit("_");
        lemma_hex16_is_slug(hash);
        let s = slug@;
        assert(s == "legacy_"@ + hex16(hash));
        assert(s.len() == 23);
        assert forall|i: int| 0 <= i < s.len() implies crate::ids::is_slug_char(#[trigger] s[i]) by {
            if i >= 7 {
                assert(s[i] == hex16(hash)[i - 7]);
            }
        }
        assert(valid_slug(s));
        assert(s[0] == 'l');
        assert(!carries_prefix(ProjectKind::spec_prefix(), s)) by {
            if s.take(3) == ProjectKind::spec_prefix() {
                assert(s.take(3)[0] == s[0]);
            }
        }
        lemma_encode_valid_slug(ProjectKind::spec_prefix(), s);
    }
    let id = ProjectId::from_slug(slug.as_str());
    proof {
        reveal_strlit("_");
        assert(id@ =~= ProjectKind::spec_prefix() + "_"@ + legacy_slug(preset@, version@));
    }
    id
}

// ---------------------------------------------------------------------------
// Morph overrides
// ---------------------------------------------------------------------------

/// A morph override as the document check reads it: its id and what the
/// range check of its value against its slider reports (`None`: in range,
/// or no slider to check against).
pub struct MorphValueCheck {
    pub morph_id: MorphId,
    pub range_problem: Option<String>,
}

/// The view of a morph override check: the id and the range problem.
pub open spec fn morph_check_view(m: MorphValueCheck) -> (Seq<char>, Option<Seq<char>>) {
    (
        m.morph_id@,
        match m.range_problem {
            Some(d) => Some(d@),
            None => None,
        },
    )
}

/// The views of the morph override checks, in order.
pub open spec fn morph_check_views(s: Seq<MorphValueCheck>) -> Seq<(Seq<char>, Option<Seq<char>>)> {
    s.map_values(|m: MorphValueCheck| morph_check_view(m))
}

/// The views of the catalog slider ids.
pub open spec fn catalog_views(s: Seq<&str>) -> Seq<Seq<char>> {
    s.map_values(|x: &str| x@)
}

/// What is wrong with one override: a slider the catalog lacks, else a value
/// out of the slider's range.
pub open spec fn morph_problem(m: (Seq<char>, Option<Seq<char>>), catalog: Seq<Seq<char>>) -> Option<ProjectErrorView> {
    let slider = slider_part(m.0);
    if !catalog.contains(slider) {
        Some(ProjectErrorView::UnknownMorph(slider))
    } else {
        match m.1 {
            Some(d) => Some(ProjectErrorView::InvalidValue { field: "character.morph_values."@ + slider, detail: d }),
            None => None,
        }
    }
}

/// The first problem among the first `k` overrides.
pub open spec fn first_morph_problem(
    ms: Seq<(Seq<char>, Option<Seq<char>>)>,
    catalog: Seq<Seq<char>>,
    k: int,
) -> Option<ProjectErrorView>
    decreases k,
{
    if k <= 0 {
        None
    } else {
        match first_morph_problem(ms, catalog, k - 1) {
            Some(e) => Some(e),
            None => morph_problem(ms[k - 1], catalog),
        }
    }
}

/// Once an override has a problem, the first problem stays the same.
proof fn lemma_first_morph_problem_stays(
    ms: Seq<(Seq<char>, Option<Seq<char>>)>,
    catalog: Seq<Seq<char>>,
    k: int,
    n: int,
)
    requires
        0 <= k <= n,
        first_morph_problem(ms, catalog, k) is Some,
    ensures
        first_morph_problem(ms, catalog, n) == first_morph_problem(ms, catalog, k),
    decreases n - k,
{
    if k < n {
        lemma_first_morph_problem_stays(ms, catalog, k, n - 1);
    }
}

/// Checks the morph overrides of a document, in the order of its map: each
/// names a slider of the catalog (`UnknownMorph` otherwise, with the slider
/// id), and each value is in its slider's range (else the reported range
/// problem, under `character.morph_values.<slider>`).
pub fn check_morph_values(morphs: &[MorphValueCheck], catalog: &[&str]) -> (r: Result<(), ProjectError>)
    requires
        unique_ids(morph_check_views(morphs@).map_values(|m: (Seq<char>, Option<Seq<char>>)| m.0)),
    ensures
        match r {
            Ok(_) => first_morph_problem(morph_check_views(morphs@), catalog_views(catalog@), morphs@.len() as int)
                is None,
            Err(e) => first_morph_problem(morph_check_views(morphs@), catalog_views(catalog@), morphs@.len() as int)
                == Some(e@),
        },
{
    let ghost ms = morph_check_views(morphs@);
    let ghost cat = catalog_views(catalog@);
    let mut i: usize = 0;
    while i < morphs.len()
        invariant
            i <= morphs.len(),
            ms == morph_check_views(morphs@),
            cat == catalog_views(catalog@),
            first_morph_problem(ms, cat, i as int) is None,
        decreases morphs.len() - i,
    {
        let slider = morphs[i].morph_id.slider_id();
        let mut known = false;
        let mut j: usize = 0;
        while j < catalog.len()
            invariant
                j <= catalog.len(),
                cat == catalog_views(catalog@),
                known <==> exists|t: int| 0 <= t < j && cat[t] == slider@,
            decreases catalog.len() - j,
        {
            assert(cat[j as int] == catalog@[j as int]@);
            if str_eq(catalog[j], slider) {
                known = true;
            }
            proof {
                if known && !(exists|t: int| 0 <= t < j && cat[t] == slider@) {
                    assert(cat[j as int] == slider@);
                }
            }
            j += 1;
        }
        assert(known <==> cat.contains(slider@));
        assert(ms[i as int] == morph_check_view(morphs@[i as int]));
        assert(slider@ == slider_part(ms[i as int].0));
        if !known {
            let e = ProjectError::UnknownMorph(String::from_str(slider));
            proof {
                assert(first_morph_problem(ms, cat, i + 1) == Some(e@));
                lemma_first_morph_problem_stays(ms, cat, i + 1, morphs@.len() as int);
            }
            return Err(e);
        }
        match &morphs[i].range_problem {
            Some(d) => {
                let mut field = String::from_str("character.morph_values.");
                field.append(slider);
                let e = ProjectError::InvalidValue { field, detail: d.clone() };
                proof {
                    assert(ms[i as int].1 == Some(d@));
                    assert(first_morph_problem(ms, cat, i + 1) == Some(e@));
                    lemma_first_morph_problem_stays(ms, cat, i + 1, morphs@.len() as int);
                }
                return Err(e);
            },
            None => {
                assert(ms[i as int].1 is None);
                assert(first_morph_problem(ms, cat, i + 1) is None);
            },
        }
        i += 1;
    }
    Ok(())
}

// ---------------------------------------------------------------------------
// Repairs
// ---------------------------------------------------------------------------

/// The name a repair gives a project: `Untitled Project` for a blank name.
pub open spec fn repaired_project_name(name: Seq<char>) -> Seq<char> {
    if trim(name).len() == 0 {
        "Untitled Project"@
    } else {
        name
    }
}

/// Gives a blank project name the default name.
pub fn repair_project_name(name: String) -> (out: String)
    ensures
        out@ == repaired_project_name(name@),
{
    let chars = chars_of(name.as_str());
    let trimmed = trim_chars(chars.as_slice());
    if trimmed.len() == 0 {
        String::from_str("Untitled Project")
    } else {
        name
    }
}

/// The name a repair gives a material entry: its key when the name is blank.
pub open spec fn repaired_entry_name(key: Seq<char>, name: Seq<char>) -> Seq<char> {
    if trim(name).len() == 0 {
        key
    } else {
        name
    }
}

/// Names a material entry with a blank name after its key.
pub fn repair_material_name(key: &MaterialId, name: String) -> (out: String)
    ensures
        out@ == repaired_entry_name(key@, name@),
{
    let chars = chars_of(name.as_str());
    let trimmed = trim_chars(chars.as_slice());
    if trimmed.len() == 0 {
        String::from_str(key.as_str())
    } else {
        name
    }
}

/// The URI a repair gives an asset entry: `anigo://unknown/<key>` when blank.
pub open spec fn repaired_asset_uri(key: Seq<char>, uri: Seq<char>) -> Seq<char> {
    if trim(uri).len() == 0 {
        "anigo://unknown/"@ + key
    } else {
        uri
    }
}

/// Gives an asset entry with a blank URI a placeholder URI naming its key.
pub fn repair_asset_uri(key: &AssetId, uri: String) -> (out: String)
    ensures
        out@ == repaired_asset_uri(key@, uri@),
{
    let chars = chars_of(uri.as_str());
    let trimmed = trim_chars(chars.as_slice());
    if trimmed.len() == 0 {
        let mut out = String::from_str("anigo://unknown/");
        out.append(key.as_str());
        proof {
            reveal_strlit("anigo://unknown/");
        }
        out
    } else {
        uri
    }
}

/// Whether a repair must add the default material: the registry lacks it.
pub fn needs_default_material(keys: &[MaterialId]) -> (b: bool)
    ensures
        b == !id_views(keys@).contains(default_material_id()),
{
    let default_id = MaterialId::canonical_default();
    !id_listed(keys, &default_id)
}

/// The built-in mesh URIs every project registers, in order.
pub open spec fn builtin_uris() -> Seq<Seq<char>> {
    seq![URI_BASE_MALE@, URI_BASE_FEMALE@, URI_PRESET_CUBE@, URI_PRESET_SPHERE@]
}

/// The asset ids of URIs.
pub open spec fn uri_ids(uris: Seq<Seq<char>>) -> Seq<Seq<char>> {
    uris.map_values(|u: Seq<char>| asset_id_for(u))
}

/// The built-in URIs among the first `k` whose asset a repair registers:
/// those whose id is neither registered nor registered by an earlier one.
pub open spec fn builtins_to_register(keys: Seq<Seq<char>>, k: int) -> Seq<Seq<char>>
    decreases k,
{
    if k <= 0 {
        Seq::empty()
    } else {
        let before = builtins_to_register(keys, k - 1);
        let u = builtin_uris()[k - 1];
        if keys.contains(asset_id_for(u)) || uri_ids(before).contains(asset_id_for(u)) {
            before
        } else {
            before.push(u)
        }
    }
}

/// The mesh entries a repair registers so that every built-in mesh URI
/// resolves: one per built-in URI whose asset id is not registered yet, in
/// the order of `builtin_uris`.
pub fn missing_builtin_assets(keys: &[AssetId]) -> (out: Vec<AssetEntry>)
    ensures
        out.len() == builtins_to_register(id_views(keys@), 4).len(),
        forall|i: int|
            0 <= i < out.len() ==> {
                let e = #[trigger] out@[i];
                &&& e.uri@ == builtins_to_register(id_views(keys@), 4)[i]
                &&& e.asset_id@ == asset_id_for(e.uri@)
                &&& e.kind == AssetKind::Mesh
                &&& e.byte_len is None
                &&& e.content_hash is None
            },
{
    let uris: Vec<&str> = vec![URI_BASE_MALE, URI_BASE_FEMALE, URI_PRESET_CUBE, URI_PRESET_SPHERE];
    let ghost kv = id_views(keys@);
    assert(catalog_views(uris@) =~= builtin_uris());
    let mut out: Vec<AssetEntry> = Vec::new();
    let mut k: usize = 0;
    while k < 4
        invariant
            k <= 4,
            uris@.len() == 4,
            catalog_views(uris@) == builtin_uris(),
            kv == id_views(keys@),
            out.len() == builtins_to_register(kv, k as int).len(),
            forall|i: int|
                0 <= i < out.len() ==> {
                    let e = #[trigger] out@[i];
                    &&& e.uri@ == builtins_to_register(kv, k as int)[i]
                    &&& e.asset_id@ == asset_id_for(e.uri@)
                    &&& e.kind == AssetKind::Mesh
                    &&& e.byte_len is None
                    &&& e.content_hash is None
                },
        decreases 4 - k,
    {
        let ghost before = builtins_to_register(kv, k as int);
        let entry = AssetEntry::from_uri(AssetKind::Mesh, String::from_str(uris[k]));
        assert(uris@[k as int]@ == builtin_uris()[k as int]);
        let registered = id_listed(keys, &entry.asset_id);
        let mut added = false;
        let mut j: usize = 0;
        while j < out.len()
            invariant
                j <= out.len(),
                added <==> exists|t: int| 0 <= t < j && out@[t].asset_id@ == entry.asset_id@,
            decreases out.len() - j,
        {
            if out[j].asset_id.same_as(&entry.asset_id) {
                added = true;
            }
            j += 1;
        }
        proof {
            assert(uri_ids(before).len() == out.len());
            assert forall|t: int| 0 <= t < out.len() implies uri_ids(before)[t] == out@[t].asset_id@ by {}
            if added {
                let t = choose|t: int| 0 <= t < out.len() && out@[t].asset_id@ == entry.asset_id@;
                assert(uri_ids(before)[t] == entry.asset_id@);
            }
            if uri_ids(before).contains(entry.asset_id@) {
                let t = choose|t: int| 0 <= t < uri_ids(before).len() && uri_ids(before)[t] == entry.asset_id@;
                assert(out@[t].asset_id@ == entry.asset_id@);
            }
        }
        if !registered && !added {
            out.push(entry);
        }
        k += 1;
    }
    out
}

} // verus!
