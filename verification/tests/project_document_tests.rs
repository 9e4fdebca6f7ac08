use anigo_core::ids::{fnv1a64, AssetId, MaterialId, MorphId};
use anigo_core::project::{ProjectError, PROJECT_SCHEMA_VERSION, URI_BASE_MALE, URI_PRESET_CUBE};
use anigo_core::project_documents::{
    check_legacy_schema_version, check_morph_values, check_schema_version, legacy_project_id, legacy_schema_version,
    missing_builtin_assets, needs_default_material, read_schema_version, repair_asset_uri, repair_material_name,
    repair_project_name, MorphValueCheck, SchemaField,
};

#[test]
fn only_the_current_schema_version_validates() {
    assert_eq!(check_schema_version(PROJECT_SCHEMA_VERSION), Ok(()));
    assert_eq!(
        check_schema_version(PROJECT_SCHEMA_VERSION + 1),
        Err(ProjectError::UnsupportedSchemaVersion { found: PROJECT_SCHEMA_VERSION + 1, supported: PROJECT_SCHEMA_VERSION })
    );
}

#[test]
fn canonical_documents_need_a_current_schema_version() {
    assert_eq!(read_schema_version(SchemaField::Unsigned(PROJECT_SCHEMA_VERSION as u64)), Ok(PROJECT_SCHEMA_VERSION));
    assert_eq!(read_schema_version(SchemaField::Absent), Err(ProjectError::MissingSchemaVersion));
    assert_eq!(read_schema_version(SchemaField::NotUnsigned), Err(ProjectError::MissingSchemaVersion));
    assert_eq!(
        read_schema_version(SchemaField::Unsigned(2)),
        Err(ProjectError::UnsupportedSchemaVersion { found: 2, supported: PROJECT_SCHEMA_VERSION })
    );
    assert_eq!(
        read_schema_version(SchemaField::Unsigned(0)),
        Err(ProjectError::UnsupportedSchemaVersion { found: 0, supported: PROJECT_SCHEMA_VERSION })
    );
}

#[test]
fn legacy_documents_migrate_up_to_the_legacy_bound() {
    assert_eq!(legacy_schema_version(SchemaField::Absent), 1);
    assert_eq!(legacy_schema_version(SchemaField::NotUnsigned), 1);
    assert_eq!(legacy_schema_version(SchemaField::Unsigned(2)), 2);
    assert_eq!(check_legacy_schema_version(9999), Ok(()));
    assert_eq!(
        check_legacy_schema_version(10000),
        Err(ProjectError::UnsupportedSchemaVersion { found: 10000, supported: PROJECT_SCHEMA_VERSION })
    );
}

#[test]
fn legacy_project_ids_hash_preset_and_version() {
    let id = legacy_project_id("plus_size", "0.2.0");
    assert_eq!(id.as_str(), format!("prj_legacy_{:016x}", fnv1a64("plus_size|0.2.0")));
    assert_ne!(id, legacy_project_id("mannequin", "0.2.0"));
}

#[test]
fn unknown_morphs_and_range_problems_are_reported_in_order() {
    let catalog = ["head_width", "jaw_v_line_taper"];
    let ok = vec![MorphValueCheck { morph_id: MorphId::for_slider("head_width"), range_problem: None }];
    assert_eq!(check_morph_values(&ok, &catalog), Ok(()));
    let unknown = vec![
        MorphValueCheck { morph_id: MorphId::for_slider("head_width"), range_problem: None },
        MorphValueCheck { morph_id: MorphId::for_slider("totally_fake"), range_problem: None },
    ];
    assert_eq!(check_morph_values(&unknown, &catalog), Err(ProjectError::UnknownMorph("totally_fake".to_string())));
    let out_of_range = vec![
        MorphValueCheck {
            morph_id: MorphId::for_slider("jaw_v_line_taper"),
            range_problem: Some("must be within [-1, 1], found 99".to_string()),
        },
        MorphValueCheck { morph_id: MorphId::for_slider("zzz"), range_problem: None },
    ];
    assert_eq!(
        check_morph_values(&out_of_range, &catalog),
        Err(ProjectError::InvalidValue {
            field: "character.morph_values.jaw_v_line_taper".to_string(),
            detail: "must be within [-1, 1], found 99".to_string(),
        })
    );
}

#[test]
fn repairs_restore_names_uris_and_defaults() {
    assert_eq!(repair_project_name("  ".to_string()), "Untitled Project");
    assert_eq!(repair_project_name("Hero".to_string()), "Hero");
    let material = MaterialId::canonical_default();
    assert_eq!(repair_material_name(&material, "\t".to_string()), "mat_default_anime");
    assert_eq!(repair_material_name(&material, "Skin".to_string()), "Skin");
    let asset = AssetId::for_uri("models/a.glb");
    assert_eq!(repair_asset_uri(&asset, "".to_string()), format!("anigo://unknown/{}", asset.as_str()));
    assert_eq!(repair_asset_uri(&asset, "models/a.glb".to_string()), "models/a.glb");
    assert!(needs_default_material(&[]));
    assert!(!needs_default_material(&[MaterialId::canonical_default()]));
}

#[test]
fn missing_builtin_meshes_are_registered_once() {
    let all = missing_builtin_assets(&[]);
    assert_eq!(all.len(), 4);
    assert_eq!(all[0].uri, URI_BASE_MALE);
    assert_eq!(all[0].asset_id, AssetId::for_uri(URI_BASE_MALE));
    let some = missing_builtin_assets(&[AssetId::for_uri(URI_BASE_MALE), AssetId::for_uri(URI_PRESET_CUBE)]);
    assert_eq!(some.len(), 2);
    assert!(some.iter().all(|e| e.uri != URI_BASE_MALE && e.uri != URI_PRESET_CUBE));
}
