# anigo_core

The core of the ANIGO anime character editor: stable identifiers, the scene
tree, the structural edits of a project and their undo, the undo/redo
history, the GLB container and its integer channels, and the packing of
sparse morph targets. Everything under `src/` is verified with Verus: each
public function states what it returns or changes, and the laws of the
library (what an undo restores, what a round trip gives back, what every
operation keeps) are proof functions checked by Verus, each under the
conditions its proof function states (for instance, the undo of a node
removal restores a scene whose node ids are distinct).

The library works on the structural parts of a project: scene node records,
asset and material keys, clips, the tree. The project document as a whole,
with its floating-point character, camera, light and material values, and
the command type that edits it (its dispatch, its batches and its
transactional application) are not part of it, so no law here speaks of
them.

## Layout

- `src/` — the verified library.
  - `text` — character classes, Unicode trimming, FNV-1a, hex and decimal rendering.
  - `ids` — slugs, typed stable ids (`<prefix>_<slug>`), content-addressed asset ids.
  - `hierarchy`, `scene_tree`, `tree_laws`, `order_laws` — tree validation,
    evaluation order, ancestors, descendants, child lists, guarded
    reparenting, and their laws.
  - `scene_edits`, `edit_laws` — visibility, mesh, parent, creation and removal
    of scene nodes, the character mesh switches, and the laws of their undo.
  - `node_commands`, `project_edits` — the checks of the node and project edits,
    the removal plan and its re-creation.
  - `project`, `project_checks`, `project_repairs`, `project_documents` —
    project vocabulary, the structural checks of a project document, the
    repairs of untrusted ones, the schema-version and morph-override checks,
    and the id of a migrated legacy document.
  - `history`, `command` — the undo/redo history with its command log, and what
    each command reports (description, change scope, affected ids).
  - `glb` — GLB container, the primitive a mesh is read from, accessor
    ranges, vertex channel bounds, index and joint channels, builder.
  - `morph` — slider vocabulary, GPU channel layout, delta order.
  - `mesh_topology` — the triangles that take part in normal reconstruction
    and the morph targets that still need normal deltas.
  - `export`, `geometry`, `agent` — export checks and records, error kinds,
    agent prompts.
- `tests/` — tests of the library on concrete values.
- `app/` — ordinary Rust around the library: JSON wire forms (serde), glam world
  transforms, the GLB mesh reader/writer with its floating-point channels,
  procedural meshes, the macro proportion policy and normal reconstruction,
  the morph slider catalog and morph targets, and the loop
  that drives the undo/redo history.
