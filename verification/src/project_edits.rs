//! The project-level edits that carry no numeric payload: renaming the
//! project, changing the render settings, and resetting the morph overrides.
//! Each has its check, its application and what its undo restores.
use vstd::prelude::*;

use crate::ids::{canonical_id, IdKind, LightId, LightKind, MaterialId, MaterialKind, TypedId};
use crate::hierarchy::{first_index, lemma_first_index_scan};
use crate::node_commands::{CommandError, CommandErrorView};
use crate::project::TonemapOperator;
use crate::text::{chars_of, decimal, decimal_string, trim, trim_chars};

verus! {

// ---------------------------------------------------------------------------
// Renaming the project
// ---------------------------------------------------------------------------

/// The first problem with renaming the project `current` to `name`
/// (`None`: valid).
pub open spec fn rename_problem(current: Seq<char>, name: Seq<char>) -> Option<CommandErrorView> {
    if trim(name).len() == 0 {
        Some(CommandErrorView::InvalidValue { field: "name"@, detail: "must not be empty"@ })
    } else if current == name {
        Some(CommandErrorView::NoOp("project is already named '"@ + name + "'"@))
    } else {
        None
    }
}

/// Checks a rename: the new name is not blank and differs from the current one.
pub fn check_rename(current: &str, name: &str) -> (r: Result<(), CommandError>)
    ensures
        match r {
            Ok(_) => rename_problem(current@, name@) is None,
            Err(e) => rename_problem(current@, name@) == Some(e@),
        },
{
    let chars = chars_of(name);
    let trimmed = trim_chars(chars.as_slice());
    if trimmed.len() == 0 {
        return Err(
            CommandError::InvalidValue {
                field: String::from_str("name"),
                detail: String::from_str("must not be empty"),
            },
        );
    }
    let a = chars_of(current);
    let b = chars_of(name);
    if crate::text::chars_eq(a.as_slice(), b.as_slice()) {
        let mut message = String::from_str("project is already named '");
        message.append(name);
        message.append("'");
        return Err(CommandError::NoOp(message));
    }
    Ok(())
}

// ---------------------------------------------------------------------------
// Render settings
// ---------------------------------------------------------------------------

/// The render settings that the settings edit reads and writes.
#[derive(Debug, Clone, Copy, PartialEq, Eq, Structural)]
pub struct RenderSettings {
    /// MSAA sample count.
    pub msaa_samples: u32,
    /// Tonemap operator.
    pub tonemap: TonemapOperator,
}

/// A patch of the render settings: each field present replaces the current one.
#[derive(Debug, Clone, Copy, PartialEq, Eq, Structural)]
pub struct RenderSettingsPatch {
    pub msaa_samples: Option<u32>,
    pub tonemap: Option<TonemapOperator>,
}

/// The MSAA sample counts a renderer accepts.
pub open spec fn valid_msaa(samples: u32) -> bool {
    samples == 1 || samples == 2 || samples == 4 || samples == 8 || samples == 16
}

/// The first problem with a render settings patch (`None`: valid).
pub open spec fn render_settings_problem(patch: RenderSettingsPatch) -> Option<CommandErrorView> {
    if patch.msaa_samples matches Some(s) && !valid_msaa(s) {
        Some(
            CommandErrorView::InvalidValue {
                field: "msaa_samples"@,
                detail: "must be one of 1, 2, 4, 8, 16, found "@ + decimal(patch.msaa_samples->0 as nat),
            },
        )
    } else if patch.msaa_samples is None && patch.tonemap is None {
        Some(CommandErrorView::NoOp("empty render settings patch"@))
    } else {
        None
    }
}

/// Checks a render settings patch: a sample count must be a supported one,
/// and the patch must change something.
pub fn check_render_settings(patch: RenderSettingsPatch) -> (r: Result<(), CommandError>)
    ensures
        match r {
            Ok(_) => render_settings_problem(patch) is None,
            Err(e) => render_settings_problem(patch) == Some(e@),
        },
{
    if let Some(samples) = patch.msaa_samples {
        if !(samples == 1 || samples == 2 || samples == 4 || samples == 8 || samples == 16) {
            let mut detail = String::from_str("must be one of 1, 2, 4, 8, 16, found ");
            let digits = decimal_string(samples as u64);
            detail.append(digits.as_str());
            return Err(CommandError::InvalidValue { field: String::from_str("msaa_samples"), detail });
        }
    }
    if patch.msaa_samples.is_none() && patch.tonemap.is_none() {
        return Err(CommandError::NoOp(String::from_str("empty render settings patch")));
    }
    Ok(())
}

/// The settings after a patch.
pub open spec fn patched(settings: RenderSettings, patch: RenderSettingsPatch) -> RenderSettings {
    RenderSettings {
        msaa_samples: match patch.msaa_samples {
            Some(s) => s,
            None => settings.msaa_samples,
        },
        tonemap: match patch.tonemap {
            Some(t) => t,
            None => settings.tonemap,
        },
    }
}

impl RenderSettings {
    /// Applies a patch: each field it carries replaces the current one.
    pub fn apply_patch(&mut self, patch: RenderSettingsPatch)
        ensures
            *final(self) == patched(*old(self), patch),
    {
        if let Some(samples) = patch.msaa_samples {
            self.msaa_samples = samples;
        }
        if let Some(operator) = patch.tonemap {
            self.tonemap = operator;
        }
    }

    /// The patch that undoes `patch`: the current value of each field it touches.
    pub fn inverse_patch(&self, patch: RenderSettingsPatch) -> (inv: RenderSettingsPatch)
        ensures
            inv.msaa_samples == (if patch.msaa_samples is Some {
                Some(self.msaa_samples)
            } else {
                None::<u32>
            }),
            inv.tonemap == (if patch.tonemap is Some {
                Some(self.tonemap)
            } else {
                None::<TonemapOperator>
            }),
    {
        RenderSettingsPatch {
            msaa_samples: match patch.msaa_samples {
                Some(_) => Some(self.msaa_samples),
                None => None,
            },
            tonemap: match patch.tonemap {
                Some(_) => Some(self.tonemap),
                None => None,
            },
        }
    }
}

/// Patching the render settings, then applying the inverse patch taken
/// before, gives back the settings.
pub proof fn law_render_settings_undo(settings: RenderSettings, patch: RenderSettingsPatch)
    ensures
        ({
            let inv = RenderSettingsPatch {
                msaa_samples: if patch.msaa_samples is Some {
                    Some(settings.msaa_samples)
                } else {
                    None
                },
                tonemap: if patch.tonemap is Some {
                    Some(settings.tonemap)
                } else {
                    None
                },
            };
            patched(patched(settings, patch), inv) == settings
        }),
{
}

// ---------------------------------------------------------------------------
// Morph overrides
// ---------------------------------------------------------------------------

/// Checks a reset of the morph overrides: there must be some to reset.
pub fn check_reset_morphs(override_count: usize) -> (r: Result<(), CommandError>)
    ensures
        override_count == 0 ==> (r matches Err(e) && e@ == CommandErrorView::NoOp(
            "no morph overrides to reset"@,
        )),
        override_count > 0 ==> r is Ok,
{
    if override_count == 0 {
        Err(CommandError::NoOp(String::from_str("no morph overrides to reset")))
    } else {
        Ok(())
    }
}

// ---------------------------------------------------------------------------
// Material and light targets
// ---------------------------------------------------------------------------

/// The views of a list of ids.
pub open spec fn id_views<K: IdKind>(s: Seq<TypedId<K>>) -> Seq<Seq<char>> {
    s.map_values(|x: TypedId<K>| x@)
}

/// `true` when the id is in the list.
fn listed<K: IdKind>(list: &[TypedId<K>], x: &TypedId<K>) -> (b: bool)
    ensures
        b == id_views(list@).contains(x@),
{
    let mut i: usize = 0;
    while i < list.len()
        invariant
            i <= list.len(),
            forall|j: int| 0 <= j < i ==> id_views(list@)[j] != x@,
        decreases list.len() - i,
    {
        if list[i].same_as(x) {
            assert(id_views(list@)[i as int] == x@);
            return true;
        }
        i += 1;
    }
    false
}

/// The material a material edit targets: the given one, or the default material.
pub open spec fn material_target(material_id: Option<Seq<char>>) -> Seq<char> {
    match material_id {
        Some(id) => id,
        None => canonical_id(MaterialKind::spec_prefix(), "default_anime"@),
    }
}

/// The first problem with a material edit (`None`: valid): the target must
/// be a registered material and the patch must carry some field.
pub open spec fn material_problem(materials: Seq<Seq<char>>, material_id: Option<Seq<char>>, patch_is_empty: bool) -> Option<
    CommandErrorView,
> {
    let id = material_target(material_id);
    if !materials.contains(id) {
        Some(CommandErrorView::UnknownTarget { kind: "material"@, target: id })
    } else if patch_is_empty {
        Some(CommandErrorView::NoOp("empty material patch"@))
    } else {
        None
    }
}

/// The view of an optional borrowed id.
pub open spec fn opt_id_view<K: IdKind>(o: Option<&TypedId<K>>) -> Option<Seq<char>> {
    match o {
        Some(id) => Some(id@),
        None => None,
    }
}

/// Checks a material edit against the registered materials.
pub fn check_material_edit(materials: &[MaterialId], material_id: Option<&MaterialId>, patch_is_empty: bool) -> (r:
    Result<(), CommandError>)
    ensures
        match r {
            Ok(_) => material_problem(id_views(materials@), opt_id_view(material_id), patch_is_empty) is None,
            Err(e) => material_problem(id_views(materials@), opt_id_view(material_id), patch_is_empty) == Some(e@),
        },
{
    let id = match material_id {
        Some(m) => m.duplicate(),
        None => MaterialId::canonical_default(),
    };
    if !listed(materials, &id) {
        return Err(CommandError::UnknownTarget { kind: "material", target: id.into_string() });
    }
    if patch_is_empty {
        return Err(CommandError::NoOp(String::from_str("empty material patch")));
    }
    Ok(())
}

/// The light a light edit targets: the given one, or the key light.
pub open spec fn light_target(light_id: Option<Seq<char>>) -> Seq<char> {
    match light_id {
        Some(id) => id,
        None => canonical_id(LightKind::spec_prefix(), "key"@),
    }
}

/// The first problem with a light edit (`None`: valid): the target must be
/// an existing light or the key light (created on demand), and the patch
/// must carry some field.
pub open spec fn light_problem(lights: Seq<Seq<char>>, light_id: Option<Seq<char>>, patch_is_empty: bool) -> Option<
    CommandErrorView,
> {
    let id = light_target(light_id);
    if !lights.contains(id) && id != canonical_id(LightKind::spec_prefix(), "key"@) {
        Some(CommandErrorView::UnknownTarget { kind: "light"@, target: id })
    } else if patch_is_empty {
        Some(CommandErrorView::NoOp("empty light patch"@))
    } else {
        None
    }
}

/// Checks a light edit against the lights of the scene.
pub fn check_light_edit(lights: &[LightId], light_id: Option<&LightId>, patch_is_empty: bool) -> (r: Result<
    (),
    CommandError,
>)
    ensures
        match r {
            Ok(_) => light_problem(id_views(lights@), opt_id_view(light_id), patch_is_empty) is None,
            Err(e) => light_problem(id_views(lights@), opt_id_view(light_id), patch_is_empty) == Some(e@),
        },
{
    let key = LightId::canonical_key();
    let id = match light_id {
        Some(l) => l.duplicate(),
        None => LightId::canonical_key(),
    };
    if !listed(lights, &id) && !id.same_as(&key) {
        return Err(CommandError::UnknownTarget { kind: "light", target: id.into_string() });
    }
    if patch_is_empty {
        return Err(CommandError::NoOp(String::from_str("empty light patch")));
    }
    Ok(())
}

/// Id of the key light.
pub open spec fn key_light_id() -> Seq<char> {
    canonical_id(LightKind::spec_prefix(), "key"@)
}

/// Which light a light edit writes, and whether the key light has to be
/// created first: the light named `id` when it exists; otherwise the key
/// light, created when missing (an unknown id other than the key falls back
/// to the key light).
pub open spec fn light_slot_outcome(lights: Seq<Seq<char>>, id: Seq<char>) -> (Seq<Seq<char>>, int) {
    if lights.contains(id) {
        (lights, first_index(lights, id))
    } else if lights.contains(key_light_id()) {
        (lights, first_index(lights, key_light_id()))
    } else {
        (lights.push(key_light_id()), lights.len() as int)
    }
}

/// The position of the light a light edit writes, creating the key light
/// when it is missing (see `light_slot_outcome`); the caller adds the
/// default key light at the end when the list grows.
pub fn light_slot_for(lights: &mut Vec<LightId>, id: &LightId) -> (r: usize)
    ensures
        id_views(final(lights)@) == light_slot_outcome(id_views(old(lights)@), id@).0,
        r == light_slot_outcome(id_views(old(lights)@), id@).1,
        r < final(lights)@.len(),
{
    let ghost before = id_views(lights@);
    if let Some(i) = first_id(lights.as_slice(), id) {
        return i;
    }
    let key = LightId::canonical_key();
    if let Some(i) = first_id(lights.as_slice(), &key) {
        return i;
    }
    let n = lights.len();
    lights.push(key);
    assert(id_views(lights@) =~= before.push(key_light_id()));
    n
}

/// Position of the first id equal to `x`.
fn first_id<K: IdKind>(list: &[TypedId<K>], x: &TypedId<K>) -> (r: Option<usize>)
    ensures
        match r {
            Some(i) => i < list.len() && first_index(id_views(list@), x@) == i && id_views(list@).contains(x@),
            None => !id_views(list@).contains(x@),
        },
{
    let ghost v = id_views(list@);
    let mut i: usize = 0;
    while i < list.len()
        invariant
            i <= list.len() == v.len(),
            v == id_views(list@),
            forall|j: int| 0 <= j < i ==> v[j] != x@,
        decreases list.len() - i,
    {
        if list[i].same_as(x) {
            proof {
                lemma_first_index_scan(v, x@, i as int);
                assert(v[i as int] == x@);
            }
            return Some(i);
        }
        i += 1;
    }
    None
}

} // verus!
