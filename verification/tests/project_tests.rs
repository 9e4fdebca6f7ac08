use anigo_core::project::{
    base_mesh_asset_id, camel_key, default_true, preset_label, preset_mesh_ref, slug_key, AssetEntry, AssetKind,
    BaseGender, ColorManagement, ColorSpace, LengthUnit, MeshPreset, ProjectSettings, BUILTIN_MESH_URIS,
    URI_BASE_FEMALE, URI_BASE_MALE, URI_PRESET_CUBE, URI_PRESET_SPHERE,
};
use anigo_core::ids::AssetId;

#[test]
fn slug_key_matches_legacy_camel_case() {
    assert_eq!(slug_key("headScale"), "head_scale");
    assert_eq!(slug_key("shoulderWidth"), "shoulder_width");
    assert_eq!(slug_key("heightOverall"), "height_overall");
    for canonical in [
        "head_scale",
        "head_ratio",
        "shoulder_width",
        "leg_length",
        "arm_length",
        "neck_length",
        "torso_length",
        "height_overall",
    ] {
        assert_eq!(slug_key(&camel_key(canonical)), canonical);
    }
    assert_eq!(camel_key("height_overall"), "heightOverall");
}

#[test]
fn camel_key_upper_cases_after_underscores_only() {
    assert_eq!(camel_key("a_b_c"), "aBC");
    assert_eq!(camel_key("plain"), "plain");
    assert_eq!(camel_key("trailing_"), "trailing");
    assert_eq!(slug_key("HeadScale"), "head_scale");
}

#[test]
fn presets_resolve_to_their_builtin_uris() {
    assert_eq!(MeshPreset::Cube.uri(BaseGender::Male), URI_PRESET_CUBE);
    assert_eq!(MeshPreset::Sphere.uri(BaseGender::Female), URI_PRESET_SPHERE);
    assert_eq!(MeshPreset::Mannequin.uri(BaseGender::Male), URI_BASE_MALE);
    assert_eq!(MeshPreset::Mannequin.uri(BaseGender::Female), URI_BASE_FEMALE);
    assert!(MeshPreset::Mannequin.supports_morphs());
    assert!(!MeshPreset::Cube.supports_morphs());
    assert_eq!(BUILTIN_MESH_URIS.len(), 4);
}

#[test]
fn legacy_presets_map_to_mesh_refs_and_labels() {
    let cube = preset_mesh_ref("cube", BaseGender::Female);
    assert_eq!(cube.asset_id, AssetId::for_uri(URI_PRESET_CUBE));
    assert_eq!(cube.primitive_index, 0);
    let other = preset_mesh_ref("anything", BaseGender::Female);
    assert_eq!(other.asset_id, AssetId::for_uri(URI_BASE_FEMALE));
    assert_eq!(base_mesh_asset_id(BaseGender::Male), AssetId::for_uri(URI_BASE_MALE));
    assert_eq!(preset_label("cube"), "Cube");
    assert_eq!(preset_label("sphere"), "UV Sphere");
    assert_eq!(preset_label("female"), "Anime Mannequin (Female)");
    assert_eq!(preset_label("male"), "Anime Mannequin");
}

#[test]
fn defaults_of_settings_and_color_management() {
    let settings = ProjectSettings::default();
    assert_eq!(settings.autosave_interval_minutes, 5);
    assert_eq!(settings.history_limit, 60);
    assert_eq!(settings.locale, "pt_BR");
    assert_eq!(settings.units, LengthUnit::Meters);
    let color = ColorManagement::default();
    assert_eq!(color.input_texture_space, ColorSpace::Srgb);
    assert_eq!(color.working_space, ColorSpace::LinearSrgb);
    assert_eq!(color.display_space, ColorSpace::Srgb);
    assert!(default_true());
}

#[test]
fn asset_entries_derive_their_id_from_the_uri() {
    let entry = AssetEntry::from_uri(AssetKind::Mesh, "assets/models/anigo_base_male.glb".to_string());
    assert_eq!(entry.asset_id, AssetId::for_uri("./assets/models/anigo_base_male.glb"));
    assert_eq!(entry.uri, "assets/models/anigo_base_male.glb");
    assert!(entry.byte_len.is_none() && entry.content_hash.is_none());
}
