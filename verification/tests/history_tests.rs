use anigo_core::command::CommandMeta;
use anigo_core::history::{
    scope_priority, strongest_scope, AppliedCommand, ChangeScope, CommandHistory, CommandLog, CommandLogEntry,
    COMMAND_LOG_VERSION,
};
use anigo_core::ids::{MorphId, NodeId};
use anigo_core::project::{BaseGender, MeshPreset};

/// What applying `command` reports, with `inverse` as its undo; the history
/// carries commands by their description.
fn applied(command: CommandMeta, inverse: CommandMeta) -> AppliedCommand<String> {
    let description = command.description();
    let scope = command.scope();
    let affected = command.affected();
    AppliedCommand { command: description.clone(), inverse: inverse.description(), description, scope, affected }
}

fn morph(slider: &str) -> CommandMeta {
    CommandMeta::SetMorphValue { target: MorphId::for_slider(slider) }
}

#[test]
fn history_limit_drops_the_oldest_entries() {
    let mut history = CommandHistory::new(3);
    for _ in 0..4 {
        history.execute(applied(morph("head_width"), morph("head_width")));
    }
    assert_eq!(history.undo_depth(), 3, "oldest entry is dropped");
}

#[test]
fn new_command_clears_the_redo_stack() {
    let mut history = CommandHistory::new(8);
    history.execute(applied(morph("head_width"), morph("head_width")));
    let inverse = history.next_undo().map(|e| e.inverse.clone()).unwrap();
    assert_eq!(inverse, "Morph head_width");
    history.undo(applied(morph("head_width"), morph("head_width"))).unwrap();
    assert!(history.can_redo());

    history.execute(applied(morph("jaw_v_line_taper"), morph("jaw_v_line_taper")));
    assert!(!history.can_redo(), "a new action invalidates the redo stack");
    assert!(history.last_redo_description().is_none());
}

#[test]
fn undo_and_redo_with_nothing_to_do_change_nothing() {
    let mut history: CommandHistory<String> = CommandHistory::new(8);
    assert!(history.undo(applied(CommandMeta::ResetMorphs, CommandMeta::ResetMorphs)).is_none());
    assert!(history.redo(applied(CommandMeta::ResetMorphs, CommandMeta::ResetMorphs)).is_none());
    assert_eq!(history.revision(), 0);
    assert!(!history.can_undo() && !history.can_redo());
}

#[test]
fn undo_then_redo_restores_the_stacks_and_advances_the_revision() {
    let mut history = CommandHistory::new(8);
    history.execute(applied(CommandMeta::SetBaseGender { gender: BaseGender::Female }, CommandMeta::SetBaseGender {
        gender: BaseGender::Male,
    }));
    history.execute(applied(morph("head_width"), morph("head_width")));
    assert_eq!(history.revision(), 2);
    assert_eq!(history.base_geometry_revision(), 1);

    let outcome = history.undo(applied(morph("head_width"), morph("head_width"))).unwrap();
    assert_eq!(outcome.description, "Undo Morph head_width");
    assert_eq!(outcome.undo_depth, 1);
    assert_eq!(outcome.redo_depth, 1);
    assert_eq!(history.last_redo_description(), Some("Morph head_width"));

    let outcome = history.redo(applied(morph("head_width"), morph("head_width"))).unwrap();
    assert_eq!(outcome.description, "Redo Morph head_width");
    assert_eq!(history.undo_depth(), 2);
    assert_eq!(history.redo_depth(), 0);
    assert_eq!(history.revision(), 4);
    assert_eq!(history.base_geometry_revision(), 1);
    assert_eq!(history.last_undo_description(), Some("Morph head_width"));
    assert_eq!(history.log_entries().len(), 2, "undo and redo never enter the log");
}

#[test]
fn executing_reports_the_new_state_and_logs_the_command() {
    let mut history = CommandHistory::new(64);
    let outcome = history.execute(applied(morph("head_width"), morph("head_width")));
    assert_eq!(outcome.sequence, 1);
    assert_eq!(outcome.revision, 1);
    assert_eq!(outcome.base_geometry_revision, 0);
    assert_eq!(outcome.scope, ChangeScope::Deformation);
    assert_eq!(outcome.affected, vec!["mrf_head_width".to_string()]);
    assert!(outcome.can_undo && !outcome.can_redo);

    let log = history.export_log();
    assert_eq!(log.version, COMMAND_LOG_VERSION);
    assert_eq!(log.len(), 1);
    assert_eq!(log.entries[0].sequence, 1);
    assert_eq!(log.entries[0].revision, 1);
    assert_eq!(log.entries[0].description, "Morph head_width");
    assert_eq!(log.entries[0].scope, ChangeScope::Deformation);

    history.clear();
    assert!(history.export_log().is_empty());
    assert_eq!(history.revision(), 1, "clearing keeps the revision counting");
    let outcome = history.execute(applied(morph("head_width"), morph("head_width")));
    assert_eq!(outcome.sequence, 1, "the sequence restarts after clear");
}

#[test]
fn log_check_refuses_newer_versions_and_missing_sequences() {
    let newer: CommandLog<String> = CommandLog { version: COMMAND_LOG_VERSION + 1, entries: vec![] };
    assert_eq!(newer.check(), Err("command log version 2 is newer than the supported 1".to_string()));
    let no_sequence = CommandLog {
        version: 1,
        entries: vec![CommandLogEntry {
            sequence: 0,
            revision: 1,
            description: "x".to_string(),
            scope: ChangeScope::Deformation,
            command: "reset_morphs".to_string(),
        }],
    };
    assert_eq!(no_sequence.check(), Err("command log entry 0 has no sequence number".to_string()));
    let fine: CommandLog<String> = CommandLog::new();
    assert_eq!(fine.check(), Ok(()));
}

#[test]
fn batch_scope_is_its_strongest_member() {
    assert_eq!(strongest_scope(&[]), ChangeScope::Project);
    assert_eq!(
        strongest_scope(&[ChangeScope::Camera, ChangeScope::BaseGeometry, ChangeScope::Shading]),
        ChangeScope::BaseGeometry
    );
    let batch = CommandMeta::Batch {
        commands: vec![CommandMeta::SetCamera, morph("head_width"), CommandMeta::RenameProject],
    };
    assert_eq!(batch.scope(), ChangeScope::Deformation);
    assert_eq!(batch.description(), "Batch of 3 commands");
    assert_eq!(batch.affected(), vec!["cam_viewport", "mrf_head_width", "prj_*"]);
    assert_eq!(CommandMeta::Batch { commands: vec![] }.scope(), ChangeScope::Project);
    assert!(scope_priority(ChangeScope::BaseGeometry) > scope_priority(ChangeScope::Deformation));
    assert!(ChangeScope::BaseGeometry.requires_static_rebuild());
    assert!(!ChangeScope::Project.is_visual());
}

#[test]
fn descriptions_and_affected_ids_name_the_targets() {
    let node = NodeId::from_slug("hat");
    let parent = NodeId::from_slug("head");
    let reparent = CommandMeta::SetNodeParent { node_id: node.clone(), parent_id: Some(parent.clone()) };
    assert_eq!(reparent.description(), "Parent nod_hat under nod_head");
    assert_eq!(reparent.affected(), vec!["nod_hat", "nod_head"]);
    let unparent = CommandMeta::SetNodeParent { node_id: node, parent_id: None };
    assert_eq!(unparent.description(), "Unparent nod_hat");
    assert_eq!(CommandMeta::LoadMeshPreset { preset: MeshPreset::Sphere }.description(), "preset sphere");
    assert_eq!(CommandMeta::LoadMeshPreset { preset: MeshPreset::Cube }.affected(), vec!["nod_character_base"]);
    assert_eq!(CommandMeta::SetLight { light_id: None }.affected(), vec!["lgt_key"]);
    assert_eq!(CommandMeta::SetMaterialParams { material_id: None }.affected(), vec!["mat_default_anime"]);
    assert_eq!(CommandMeta::SetBaseGender { gender: BaseGender::Male }.description(), "Base gender: male");
    assert_eq!(CommandMeta::SetNodeMesh { node_id: parent }.scope(), ChangeScope::BaseGeometry);
}

#[test]
fn an_exported_log_passes_the_check() {
    let mut history = CommandHistory::new(2);
    history.execute(applied(morph("head_width"), morph("head_width")));
    history.execute(applied(morph("jaw_v_line_taper"), morph("jaw_v_line_taper")));
    history.undo(applied(morph("jaw_v_line_taper"), morph("jaw_v_line_taper"))).unwrap();
    history.execute(applied(morph("head_width"), morph("head_width")));
    let log = history.export_log();
    assert_eq!(log.len(), 3);
    assert_eq!(log.check(), Ok(()));
}
