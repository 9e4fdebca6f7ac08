use anigo_core::ids::{
    fnv1a64, is_valid_slug, normalize_uri, slugify, AssetId, CharacterId, MorphId, NodeId, ID_MAX_LEN, PREFIX_ANIMATION, PREFIX_ASSET,
    PREFIX_CAMERA, PREFIX_CHARACTER, PREFIX_LIGHT, PREFIX_MATERIAL, PREFIX_MORPH, PREFIX_NODE, PREFIX_PROJECT,
    PREFIX_SCENE,
};

#[test]
fn prefixes_are_unique_and_stable() {
    let prefixes = [
        PREFIX_PROJECT,
        PREFIX_CHARACTER,
        PREFIX_MORPH,
        PREFIX_SCENE,
        PREFIX_NODE,
        PREFIX_MATERIAL,
        PREFIX_ASSET,
        PREFIX_CAMERA,
        PREFIX_LIGHT,
        PREFIX_ANIMATION,
    ];
    let unique: std::collections::HashSet<&str> = prefixes.iter().copied().collect();
    assert_eq!(unique.len(), prefixes.len(), "prefixes must be unique");
    for prefix in prefixes {
        assert!(is_valid_slug(prefix), "prefix '{prefix}' must be slug-safe");
    }
}

#[test]
fn parse_accepts_canonical_ids_and_rejects_the_rest() {
    assert_eq!(MorphId::parse("mrf_head_width").unwrap().as_str(), "mrf_head_width");
    assert!(MorphId::parse("mat_head_width").is_err(), "wrong prefix must fail");
    assert!(MorphId::parse("mrf_").is_err(), "empty slug must fail");
    assert!(MorphId::parse("mrf_HeadWidth").is_err(), "uppercase slug must fail");
    assert!(MorphId::parse("mrf-head-width").is_err(), "dash separator must fail");
    assert!(MorphId::parse("head_width").is_err(), "missing prefix must fail");
    assert!(MorphId::parse("").is_err(), "empty id must fail");
    let long = format!("mrf_{}", "a".repeat(ID_MAX_LEN));
    assert!(MorphId::parse(&long).is_err(), "length limit must be enforced");
}

#[test]
fn derived_ids_are_deterministic_and_valid() {
    assert_eq!(MorphId::for_slider("head_width").as_str(), "mrf_head_width");
    assert_eq!(
        MorphId::for_slider("head_width"),
        MorphId::for_slider("head_width"),
        "derivation must be pure"
    );
    assert_eq!(MorphId::for_slider("head_width").slider_id(), "head_width");

    let from_label = CharacterId::from_label("Cabeça / Head");
    assert_eq!(from_label.as_str(), "chr_cabeca_head");
    assert!(from_label.has_canonical_prefix());
    CharacterId::parse(from_label.as_str()).expect("derived ids always parse");

    let unicode = NodeId::from_label("日本語モデル");
    assert!(is_valid_slug(unicode.as_str().trim_start_matches("nod_")));
    NodeId::parse(unicode.as_str()).expect("unicode labels must still yield valid ids");
}

#[test]
fn slugify_folds_accents_and_separators() {
    assert_eq!(slugify("Altura Estelar Total"), "altura_estelar_total");
    assert_eq!(slugify("Gordura / Corpulência Macro"), "gordura_corpulencia_macro");
    assert_eq!(slugify("--__"), "");
    assert_eq!(slugify("v2.0 - final"), "v2_0_final");
}

#[test]
fn asset_ids_are_content_addressed() {
    let a = AssetId::for_uri("assets/models/anigo_base_male.glb");
    let b = AssetId::for_uri("./ASSETS\\Models\\anigo_base_male.glb?x=1");
    assert_eq!(a, b, "URI normalization must be canonical");
    assert!(a.has_canonical_prefix());
    let c = AssetId::for_uri("assets/models/anigo_base_female.glb");
    assert_ne!(a, c);
}

#[test]
fn slider_ids_round_trip_through_morph_ids() {
    for slider in ["head_width", "jaw_v_line_taper", "height_overall"] {
        assert_eq!(MorphId::for_slider(slider).slider_id(), slider);
    }
}

#[test]
fn slugify_output_is_always_a_slug_or_empty() {
    for label in ["Olá Mundo!", "A--B", "__x__", "ÇÃO", "", "9 lives"] {
        let slug = slugify(label);
        assert!(slug.is_empty() || is_valid_slug(&slug), "{label:?} gave {slug:?}");
    }
}

#[test]
fn canonical_ids_have_their_documented_form() {
    assert_eq!(CharacterId::canonical().as_str(), "chr_canonical");
    assert_eq!(NodeId::canonical_character().as_str(), "nod_character_base");
    assert_eq!(anigo_core::ids::LightId::canonical_key().as_str(), "lgt_key");
    assert_eq!(anigo_core::ids::MaterialId::canonical_default().as_str(), "mat_default_anime");
}

#[test]
fn a_slug_that_already_carries_the_prefix_is_kept() {
    assert_eq!(NodeId::from_slug("nod_stage").as_str(), "nod_stage");
    assert_eq!(NodeId::from_slug("stage").as_str(), "nod_stage");
    assert_eq!(NodeId::from_slug("nod_").as_str(), "nod_nod_");
    assert_eq!(NodeId::from_slug("mat_stage").as_str(), "nod_mat_stage");
    assert_eq!(MorphId::for_slider("mrf_head").as_str(), "mrf_head");
    assert_eq!(MorphId::for_slider("mrf_head").slider_id(), "head");
}

#[test]
fn labels_without_slug_characters_hash_the_label_itself() {
    let a = NodeId::from_label("日本語モデル");
    assert_eq!(a.as_str(), format!("nod_{:016x}", fnv1a64("日本語モデル")));
    assert_ne!(NodeId::from_label("-").as_str(), NodeId::from_label("--").as_str());
    assert_eq!(NodeId::from_label("-").as_str(), format!("nod_{:016x}", fnv1a64("-")));
}

#[test]
fn slugify_is_idempotent_and_keeps_separators_inside() {
    for label in ["  Cabeça / Head  ", "__a--b__", "v2.0 - final", "-", "Ombro_Largo"] {
        let once = slugify(label);
        assert_eq!(slugify(&once), once);
        assert!(!once.starts_with('_') && !once.ends_with('_') && !once.contains("__"));
    }
}

#[test]
fn normalizing_a_normalized_uri_changes_nothing() {
    for uri in ["  ./Assets\\Models/Base.GLB?v=3 ", "anigo://builtin/CUBE", "././x/./y"] {
        let once = normalize_uri(uri);
        assert_eq!(normalize_uri(&once), once);
    }
    assert_eq!(normalize_uri("a ?x"), "a ");
    assert_eq!(normalize_uri(&normalize_uri("a ?x")), "a");
}
