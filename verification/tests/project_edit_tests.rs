use anigo_core::morph::delta_order;
use anigo_core::ids::{LightId, MaterialId};
use anigo_core::morph::{pack_active_channels, pack_all_channels, ChannelSlot};
use anigo_core::node_commands::CommandError;
use anigo_core::project::{parse_hex_rgba, Rgba8, TonemapOperator};
use anigo_core::project_edits::{
    light_slot_for, check_light_edit, check_material_edit, check_rename, check_render_settings, check_reset_morphs, RenderSettings,
    RenderSettingsPatch,
};

fn to_float(c: Option<Rgba8>, fallback: [f32; 4]) -> [f32; 4] {
    match c {
        Some(c) => [c.r as f32 / 255.0, c.g as f32 / 255.0, c.b as f32 / 255.0, c.a as f32 / 255.0],
        None => fallback,
    }
}

#[test]
fn parse_hex_rgba_handles_valid_and_invalid_input() {
    let fallback = [0.0, 0.0, 0.0, 1.0];
    let rgba = to_float(parse_hex_rgba("#ff8000"), fallback);
    assert!((rgba[0] - 1.0).abs() < 1e-6);
    assert!((rgba[1] - 0.501_960_8).abs() < 1e-4);
    assert_eq!(to_float(parse_hex_rgba("nope"), fallback), fallback);
    assert_eq!(to_float(parse_hex_rgba("#fff"), fallback), fallback);
}

#[test]
fn hex_colours_accept_alpha_case_and_surrounding_space() {
    assert_eq!(parse_hex_rgba("  ##0A0b0C80 "), Some(Rgba8 { r: 10, g: 11, b: 12, a: 128 }));
    assert_eq!(parse_hex_rgba("ff8000"), Some(Rgba8 { r: 255, g: 128, b: 0, a: 255 }));
    assert_eq!(parse_hex_rgba("#+f+f+f"), Some(Rgba8 { r: 15, g: 15, b: 15, a: 255 }));
    assert_eq!(parse_hex_rgba("#-f0000"), None);
    assert_eq!(parse_hex_rgba("#gg0000"), None);
    assert_eq!(parse_hex_rgba("#ff80é"), None);
    assert_eq!(parse_hex_rgba(""), None);
}

#[test]
fn renaming_needs_a_new_non_blank_name() {
    assert_eq!(
        check_rename("Hero", "   "),
        Err(CommandError::InvalidValue { field: "name".to_string(), detail: "must not be empty".to_string() })
    );
    assert_eq!(
        check_rename("Hero", "Hero"),
        Err(CommandError::NoOp("project is already named 'Hero'".to_string()))
    );
    assert_eq!(check_rename("Hero", "Villain"), Ok(()));
}

#[test]
fn render_settings_patches_are_checked_applied_and_undone() {
    assert_eq!(
        check_render_settings(RenderSettingsPatch { msaa_samples: Some(3), tonemap: None }),
        Err(CommandError::InvalidValue {
            field: "msaa_samples".to_string(),
            detail: "must be one of 1, 2, 4, 8, 16, found 3".to_string()
        })
    );
    assert_eq!(
        check_render_settings(RenderSettingsPatch { msaa_samples: None, tonemap: None }),
        Err(CommandError::NoOp("empty render settings patch".to_string()))
    );
    let patch = RenderSettingsPatch { msaa_samples: Some(8), tonemap: Some(TonemapOperator::Neutral) };
    assert_eq!(check_render_settings(patch), Ok(()));
    let mut settings = RenderSettings { msaa_samples: 4, tonemap: TonemapOperator::Off };
    let before = settings;
    let undo = settings.inverse_patch(RenderSettingsPatch { msaa_samples: Some(8), tonemap: None });
    assert_eq!(undo, RenderSettingsPatch { msaa_samples: Some(4), tonemap: None });
    settings.apply_patch(RenderSettingsPatch { msaa_samples: Some(8), tonemap: None });
    assert_eq!(settings, RenderSettings { msaa_samples: 8, tonemap: TonemapOperator::Off });
    settings.apply_patch(undo);
    assert_eq!(settings, before);
}

#[test]
fn morph_reset_needs_overrides() {
    assert_eq!(check_reset_morphs(0), Err(CommandError::NoOp("no morph overrides to reset".to_string())));
    assert_eq!(check_reset_morphs(3), Ok(()));
}

#[test]
fn material_and_light_edits_target_existing_entries() {
    let materials = vec![MaterialId::canonical_default()];
    assert_eq!(check_material_edit(&materials, None, false), Ok(()));
    assert_eq!(
        check_material_edit(&materials, None, true),
        Err(CommandError::NoOp("empty material patch".to_string()))
    );
    let skin = MaterialId::from_slug("skin");
    assert_eq!(
        check_material_edit(&materials, Some(&skin), false),
        Err(CommandError::UnknownTarget { kind: "material", target: "mat_skin".to_string() })
    );
    let lights: Vec<LightId> = Vec::new();
    assert_eq!(check_light_edit(&lights, None, false), Ok(()));
    let rim = LightId::from_slug("rim");
    assert_eq!(
        check_light_edit(&lights, Some(&rim), false),
        Err(CommandError::UnknownTarget { kind: "light", target: "lgt_rim".to_string() })
    );
    assert_eq!(check_light_edit(&[rim.clone()], Some(&rim), false), Ok(()));
    assert_eq!(
        check_light_edit(&lights, None, true),
        Err(CommandError::NoOp("empty light patch".to_string()))
    );
}

#[test]
fn active_channels_are_packed_back_to_back() {
    let counts = [3usize, 0, 2, 4];
    let active = [true, true, false, true];
    let (header, slots) = pack_active_channels(&counts, &active, 100);
    assert_eq!(
        slots,
        vec![
            ChannelSlot { target: 0, start_offset: 0, delta_count: 3 },
            ChannelSlot { target: 3, start_offset: 3, delta_count: 4 },
        ]
    );
    assert_eq!(header.active_channel_count, 2);
    assert_eq!(header.total_vertex_count, 100);
    assert_eq!(header.total_delta_count, 7);
    assert_eq!(header._pad, 0);
}

#[test]
fn all_channels_are_packed_including_empty_ones() {
    let counts = [3usize, 0, 2];
    let (header, slots) = pack_all_channels(&counts, 8);
    assert_eq!(
        slots,
        vec![
            ChannelSlot { target: 0, start_offset: 0, delta_count: 3 },
            ChannelSlot { target: 1, start_offset: 3, delta_count: 0 },
            ChannelSlot { target: 2, start_offset: 3, delta_count: 2 },
        ]
    );
    assert_eq!(header.active_channel_count, 3);
    assert_eq!(header.total_delta_count, 5);
}

#[test]
fn deltas_are_ordered_by_vertex_keeping_ties_in_place() {
    assert_eq!(delta_order(&[5, 1, 5, 0, 1]), vec![3, 1, 4, 0, 2]);
    assert_eq!(delta_order(&[]), Vec::<usize>::new());
    assert_eq!(delta_order(&[7]), vec![0]);
}

#[test]
fn light_edits_write_the_named_light_or_the_key_light() {
    let rim = LightId::from_slug("rim");
    let key = LightId::canonical_key();
    let mut lights = vec![rim.clone()];
    assert_eq!(light_slot_for(&mut lights, &rim), 0);
    assert_eq!(lights, vec![rim.clone()]);
    assert_eq!(light_slot_for(&mut lights, &LightId::from_slug("fill")), 1);
    assert_eq!(lights, vec![rim.clone(), key.clone()]);
    assert_eq!(light_slot_for(&mut lights, &key), 1);
    let mut empty: Vec<LightId> = Vec::new();
    assert_eq!(light_slot_for(&mut empty, &key), 0);
    assert_eq!(empty, vec![key]);
}

#[test]
fn test_sparse_morph_set_pack_active() {
    // Targets with 1, 2 and 1 deltas; weights 0.8, 0.5 and 0.0, threshold 1e-5.
    let weights: [f32; 3] = [0.8, 0.5, 0.0];
    let counts = [1usize, 2, 1];
    let active: Vec<bool> = weights.iter().map(|w| w.abs() > 1e-5).collect();
    let (header, active_channels) = pack_active_channels(&counts, &active, 10);

    assert_eq!(header.active_channel_count, 2);
    assert_eq!(header.total_vertex_count, 10);
    assert_eq!(header.total_delta_count, 3);
    assert_eq!(active_channels.len(), 2);

    assert_eq!(weights[active_channels[0].target], 0.8);
    assert_eq!(active_channels[0].start_offset, 0);
    assert_eq!(active_channels[0].delta_count, 1);

    assert_eq!(weights[active_channels[1].target], 0.5);
    assert_eq!(active_channels[1].start_offset, 1);
    assert_eq!(active_channels[1].delta_count, 2);
}
