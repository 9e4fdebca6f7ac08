//! What the undo UI and the cache invalidation read of a command: its
//! description, its change scope and the stable ids it touches.
//!
//! `CommandMeta` mirrors the variants of a project command, keeping only the
//! fields these three read (ids, gender, preset, and the members of a batch).
use vstd::prelude::*;

use crate::history::{strongest, strongest_scope, ChangeScope};
use crate::ids::{
    canonical_id, slider_part, IdKind, LightId, LightKind, MaterialId, MaterialKind, MorphId, NodeId, NodeIdKind,
};
use crate::project::{BaseGender, MeshPreset};
use crate::text::{decimal, decimal_string};

verus! {

/// The variant of a command and the fields that its metadata depends on.
#[derive(Debug, PartialEq, Eq)]
pub enum CommandMeta {
    SetMorphValue { target: MorphId },
    ResetMorphs,
    SetBaseGender { gender: BaseGender },
    SetSomatotype,
    SetGenderDimorphism,
    SetProportions,
    SetCamera,
    OrbitCamera,
    ZoomCamera,
    PanCamera,
    SetLight { light_id: Option<LightId> },
    SetMaterialParams { material_id: Option<MaterialId> },
    SetNodeVisibility { node_id: NodeId },
    SetNodeMesh { node_id: NodeId },
    AddNode { node_id: NodeId },
    RemoveNode { node_id: NodeId },
    SetNodeParent { node_id: NodeId, parent_id: Option<NodeId> },
    SetNodeTransform { node_id: NodeId },
    LoadMeshPreset { preset: MeshPreset },
    SetBackgroundColor,
    SetRenderSettings,
    RenameProject,
    Batch { commands: Vec<CommandMeta> },
}

/// Change scope of a single (non-batch) command.
pub open spec fn leaf_scope(c: CommandMeta) -> ChangeScope {
    match c {
        CommandMeta::SetMorphValue { .. } | CommandMeta::ResetMorphs | CommandMeta::SetSomatotype
        | CommandMeta::SetGenderDimorphism => ChangeScope::Deformation,
        CommandMeta::SetBaseGender { .. } | CommandMeta::SetProportions | CommandMeta::SetNodeMesh { .. }
        | CommandMeta::LoadMeshPreset { .. } => ChangeScope::BaseGeometry,
        CommandMeta::SetMaterialParams { .. } => ChangeScope::Shading,
        CommandMeta::SetCamera | CommandMeta::OrbitCamera | CommandMeta::ZoomCamera
        | CommandMeta::PanCamera => ChangeScope::Camera,
        CommandMeta::RenameProject => ChangeScope::Project,
        _ => ChangeScope::Presentation,
    }
}

/// Change scope of a command: a batch takes the strongest scope of its
/// members (`Project` when empty).
pub open spec fn scope_spec(c: CommandMeta) -> ChangeScope
    decreases c,
{
    match c {
        CommandMeta::Batch { commands } => strongest(scopes_spec(commands@)),
        _ => leaf_scope(c),
    }
}

/// The scopes of a list of commands.
pub open spec fn scopes_spec(cs: Seq<CommandMeta>) -> Seq<ChangeScope>
    decreases cs,
{
    if cs.len() == 0 {
        Seq::empty()
    } else {
        scopes_spec(cs.drop_last()).push(scope_spec(cs.last()))
    }
}

impl CommandMeta {
    /// Change scope, used to invalidate derived caches.
    #[verifier::loop_isolation(false)]
    pub fn scope(&self) -> (s: ChangeScope)
        ensures
            s == scope_spec(*self),
        decreases self,
    {
        match self {
            CommandMeta::SetMorphValue { .. } | CommandMeta::ResetMorphs | CommandMeta::SetSomatotype
            | CommandMeta::SetGenderDimorphism => ChangeScope::Deformation,
            CommandMeta::SetBaseGender { .. } | CommandMeta::SetProportions | CommandMeta::SetNodeMesh { .. }
            | CommandMeta::LoadMeshPreset { .. } => ChangeScope::BaseGeometry,
            CommandMeta::SetMaterialParams { .. } => ChangeScope::Shading,
            CommandMeta::SetCamera | CommandMeta::OrbitCamera | CommandMeta::ZoomCamera
            | CommandMeta::PanCamera => ChangeScope::Camera,
            CommandMeta::SetLight { .. } | CommandMeta::SetNodeVisibility { .. } | CommandMeta::SetBackgroundColor
            | CommandMeta::SetRenderSettings | CommandMeta::AddNode { .. } | CommandMeta::RemoveNode { .. }
            | CommandMeta::SetNodeParent { .. } | CommandMeta::SetNodeTransform { .. } => ChangeScope::Presentation,
            CommandMeta::RenameProject => ChangeScope::Project,
            CommandMeta::Batch { commands } => {
                let mut scopes: Vec<ChangeScope> = Vec::new();
                let mut i: usize = 0;
                while i < commands.len()
                    invariant
                        i <= commands.len(),
                        scopes@ == scopes_spec(commands@.take(i as int)),
                    decreases commands.len() - i,
                {
                    assert(commands@.take(i + 1).drop_last() =~= commands@.take(i as int));
                    proof {
                        assert(decreases_to!(*self => *commands));
                        assert(decreases_to!(*commands => commands@));
                        assert(decreases_to!(commands@ => commands@[i as int]));
                    }
                    let s = commands[i].scope();
                    scopes.push(s);
                    i += 1;
                }
                assert(commands@.take(commands.len() as int) =~= commands@);
                strongest_scope(scopes.as_slice())
            },
        }
    }
}

/// Description of a command, shown in the undo UI.
pub open spec fn description_spec(c: CommandMeta) -> Seq<char> {
    match c {
        CommandMeta::SetMorphValue { target } => "Morph "@ + slider_part(target@),
        CommandMeta::ResetMorphs => "Reset morphs"@,
        CommandMeta::SetBaseGender { gender } => match gender {
            BaseGender::Male => "Base gender: male"@,
            BaseGender::Female => "Base gender: female"@,
        },
        CommandMeta::SetSomatotype => "Somatotype"@,
        CommandMeta::SetGenderDimorphism => "Gender dimorphism"@,
        CommandMeta::SetProportions => "Proportions"@,
        CommandMeta::SetCamera => "Camera"@,
        CommandMeta::OrbitCamera => "Orbit"@,
        CommandMeta::ZoomCamera => "Zoom"@,
        CommandMeta::PanCamera => "Pan"@,
        CommandMeta::SetLight { .. } => "Lighting"@,
        CommandMeta::SetMaterialParams { .. } => "Material"@,
        CommandMeta::SetNodeVisibility { .. } => "Visibility"@,
        CommandMeta::SetNodeMesh { .. } => "Mesh"@,
        CommandMeta::AddNode { node_id } => "Add node "@ + node_id@,
        CommandMeta::RemoveNode { node_id } => "Remove node "@ + node_id@,
        CommandMeta::SetNodeParent { node_id, parent_id } => match parent_id {
            Some(parent) => "Parent "@ + node_id@ + " under "@ + parent@,
            None => "Unparent "@ + node_id@,
        },
        CommandMeta::SetNodeTransform { node_id } => "Transform "@ + node_id@,
        CommandMeta::LoadMeshPreset { preset } => match preset {
            MeshPreset::Mannequin => "preset mannequin"@,
            MeshPreset::Cube => "preset cube"@,
            MeshPreset::Sphere => "preset sphere"@,
        },
        CommandMeta::SetBackgroundColor => "Background"@,
        CommandMeta::SetRenderSettings => "Render settings"@,
        CommandMeta::RenameProject => "Rename project"@,
        CommandMeta::Batch { commands } => "Batch of "@ + decimal(commands.len() as nat) + " commands"@,
    }
}

/// `a` followed by `b`.
fn concat(a: &str, b: &str) -> (s: String)
    ensures
        s@ == a@ + b@,
{
    let mut s = String::from_str(a);
    s.append(b);
    s
}

/// The stable ids a command touches.
pub open spec fn affected_spec(c: CommandMeta) -> Seq<Seq<char>>
    decreases c,
{
    match c {
        CommandMeta::SetMorphValue { target } => seq![target@],
        CommandMeta::ResetMorphs => seq!["mrf_*"@],
        CommandMeta::SetBaseGender { .. } | CommandMeta::SetSomatotype | CommandMeta::SetGenderDimorphism
        | CommandMeta::SetProportions => seq!["chr_canonical"@],
        CommandMeta::SetCamera | CommandMeta::OrbitCamera | CommandMeta::ZoomCamera
        | CommandMeta::PanCamera => seq!["cam_viewport"@],
        CommandMeta::SetLight { light_id } => seq![
            match light_id {
                Some(l) => l@,
                None => canonical_id(LightKind::spec_prefix(), "key"@),
            },
        ],
        CommandMeta::SetMaterialParams { material_id } => seq![
            match material_id {
                Some(m) => m@,
                None => canonical_id(MaterialKind::spec_prefix(), "default_anime"@),
            },
        ],
        CommandMeta::SetNodeVisibility { node_id } | CommandMeta::SetNodeMesh { node_id } | CommandMeta::AddNode {
            node_id,
        } | CommandMeta::RemoveNode { node_id } | CommandMeta::SetNodeTransform { node_id } => seq![node_id@],
        CommandMeta::SetNodeParent { node_id, parent_id } => match parent_id {
            Some(parent) => seq![node_id@, parent@],
            None => seq![node_id@],
        },
        CommandMeta::LoadMeshPreset { .. } => seq![canonical_id(NodeIdKind::spec_prefix(), "character_base"@)],
        CommandMeta::SetBackgroundColor | CommandMeta::SetRenderSettings => seq!["rnd_main"@],
        CommandMeta::RenameProject => seq!["prj_*"@],
        CommandMeta::Batch { commands } => affected_list(commands@),
    }
}

/// The ids touched by a list of commands, in order.
pub open spec fn affected_list(cs: Seq<CommandMeta>) -> Seq<Seq<char>>
    decreases cs,
{
    if cs.len() == 0 {
        Seq::empty()
    } else {
        affected_list(cs.drop_last()) + affected_spec(cs.last())
    }
}

/// The views of a list of strings.
pub open spec fn string_views(v: Seq<String>) -> Seq<Seq<char>> {
    v.map_values(|s: String| s@)
}

impl CommandMeta {
    /// Human-readable description shown in the undo UI.
    pub fn description(&self) -> (d: String)
        ensures
            d@ == description_spec(*self),
    {
        match self {
            CommandMeta::SetMorphValue { target } => concat("Morph ", target.slider_id()),
            CommandMeta::ResetMorphs => String::from_str("Reset morphs"),
            CommandMeta::SetBaseGender { gender } => match gender {
                BaseGender::Male => String::from_str("Base gender: male"),
                BaseGender::Female => String::from_str("Base gender: female"),
            },
            CommandMeta::SetSomatotype => String::from_str("Somatotype"),
            CommandMeta::SetGenderDimorphism => String::from_str("Gender dimorphism"),
            CommandMeta::SetProportions => String::from_str("Proportions"),
            CommandMeta::SetCamera => String::from_str("Camera"),
            CommandMeta::OrbitCamera => String::from_str("Orbit"),
            CommandMeta::ZoomCamera => String::from_str("Zoom"),
            CommandMeta::PanCamera => String::from_str("Pan"),
            CommandMeta::SetLight { .. } => String::from_str("Lighting"),
            CommandMeta::SetMaterialParams { .. } => String::from_str("Material"),
            CommandMeta::SetNodeVisibility { .. } => String::from_str("Visibility"),
            CommandMeta::SetNodeMesh { .. } => String::from_str("Mesh"),
            CommandMeta::AddNode { node_id } => concat("Add node ", node_id.as_str()),
            CommandMeta::RemoveNode { node_id } => concat("Remove node ", node_id.as_str()),
            CommandMeta::SetNodeParent { node_id, parent_id } => match parent_id {
                Some(parent) => {
                    let mut d = concat("Parent ", node_id.as_str());
                    d.append(" under ");
                    d.append(parent.as_str());
                    d
                },
                None => concat("Unparent ", node_id.as_str()),
            },
            CommandMeta::SetNodeTransform { node_id } => concat("Transform ", node_id.as_str()),
            CommandMeta::LoadMeshPreset { preset } => match preset {
                MeshPreset::Mannequin => String::from_str("preset mannequin"),
                MeshPreset::Cube => String::from_str("preset cube"),
                MeshPreset::Sphere => String::from_str("preset sphere"),
            },
            CommandMeta::SetBackgroundColor => String::from_str("Background"),
            CommandMeta::SetRenderSettings => String::from_str("Render settings"),
            CommandMeta::RenameProject => String::from_str("Rename project"),
            CommandMeta::Batch { commands } => {
                let n = decimal_string(commands.len() as u64);
                let mut d = concat("Batch of ", n.as_str());
                d.append(" commands");
                d
            },
        }
    }

    /// Stable ids touched by the command.
    #[verifier::loop_isolation(false)]
    pub fn affected(&self) -> (ids: Vec<String>)
        ensures
            string_views(ids@) == affected_spec(*self),
        decreases self,
    {
        let mut out: Vec<String> = Vec::new();
        match self {
            CommandMeta::SetMorphValue { target } => {
                out.push(target.duplicate().into_string());
            },
            CommandMeta::ResetMorphs => {
                out.push(String::from_str("mrf_*"));
            },
            CommandMeta::SetBaseGender { .. } | CommandMeta::SetSomatotype | CommandMeta::SetGenderDimorphism
            | CommandMeta::SetProportions => {
                out.push(String::from_str("chr_canonical"));
            },
            CommandMeta::SetCamera | CommandMeta::OrbitCamera | CommandMeta::ZoomCamera
            | CommandMeta::PanCamera => {
                out.push(String::from_str("cam_viewport"));
            },
            CommandMeta::SetLight { light_id } => {
                let id = match light_id {
                    Some(l) => l.duplicate(),
                    None => LightId::canonical_key(),
                };
                out.push(id.into_string());
            },
            CommandMeta::SetMaterialParams { material_id } => {
                let id = match material_id {
                    Some(m) => m.duplicate(),
                    None => MaterialId::canonical_default(),
                };
                out.push(id.into_string());
            },
            CommandMeta::SetNodeVisibility { node_id } | CommandMeta::SetNodeMesh { node_id }
            | CommandMeta::AddNode { node_id } | CommandMeta::RemoveNode { node_id }
            | CommandMeta::SetNodeTransform { node_id } => {
                out.push(node_id.duplicate().into_string());
            },
            CommandMeta::SetNodeParent { node_id, parent_id } => {
                out.push(node_id.duplicate().into_string());
                if let Some(parent) = parent_id {
                    out.push(parent.duplicate().into_string());
                }
            },
            CommandMeta::LoadMeshPreset { .. } => {
                out.push(NodeId::canonical_character().into_string());
            },
            CommandMeta::SetBackgroundColor | CommandMeta::SetRenderSettings => {
                out.push(String::from_str("rnd_main"));
            },
            CommandMeta::RenameProject => {
                out.push(String::from_str("prj_*"));
            },
            CommandMeta::Batch { commands } => {
                let mut i: usize = 0;
                while i < commands.len()
                    invariant
                        i <= commands.len(),
                        string_views(out@) == affected_list(commands@.take(i as int)),
                    decreases commands.len() - i,
                {
                    assert(commands@.take(i + 1).drop_last() =~= commands@.take(i as int));
                    proof {
                        assert(decreases_to!(*self => *commands));
                        assert(decreases_to!(*commands => commands@));
                        assert(decreases_to!(commands@ => commands@[i as int]));
                    }
                    let part = commands[i].affected();
                    let ghost before = string_views(out@);
                    let mut k: usize = 0;
                    while k < part.len()
                        invariant
                            k <= part.len(),
                            string_views(out@) == before + string_views(part@).take(k as int),
                        decreases part.len() - k,
                    {
                        let ghost prev = out@;
                        out.push(part[k].clone());
                        assert(string_views(out@) =~= string_views(prev).push(part@[k as int]@));
                        assert(string_views(part@).take(k + 1) =~= string_views(part@).take(k as int).push(
                            part@[k as int]@,
                        ));
                        k += 1;
                    }
                    assert(string_views(part@).take(part.len() as int) =~= string_views(part@));
                    i += 1;
                }
                assert(commands@.take(commands.len() as int) =~= commands@);
            },
        }
        proof {
            assert(string_views(out@) =~= affected_spec(*self));
        }
        out
    }
}

} // verus!
