//! Undo/redo bookkeeping of the transactional command layer.
//!
//! The history is the single undo/redo authority. It does not apply
//! commands: the caller applies a command (or an entry's inverse) to the
//! project and hands the result over; the history then records it, moves
//! entries between the stacks, bumps the revision counters and appends to
//! the session log. The command type `C` is carried, never inspected.
use vstd::prelude::*;

use crate::text::{decimal, decimal_string};

verus! {

/// Monotonic revision counter of the project.
pub type Revision = u64;

/// Version of the persisted command-log format.
pub const COMMAND_LOG_VERSION: u32 = 1;

/// What a command changed, used to decide which caches must be rebuilt.
#[derive(Debug, Clone, Copy, PartialEq, Eq, Structural)]
pub enum ChangeScope {
    /// Base geometry: mesh selection, base gender or macro proportions.
    BaseGeometry,
    /// Deformation weights (morph sliders, somatotype, dimorphism).
    Deformation,
    /// Material/shading parameters.
    Shading,
    /// Camera parameters.
    Camera,
    /// Presentation-only state (visibility, background, render settings).
    Presentation,
    /// Project-level metadata (name, settings).
    Project,
}

impl ChangeScope {
    /// `true` when the change invalidates the static snapshot payload.
    pub fn requires_static_rebuild(self) -> (b: bool)
        ensures
            b == (self == ChangeScope::BaseGeometry),
    {
        matches!(self, ChangeScope::BaseGeometry)
    }

    /// `true` when the change can alter what the viewport draws.
    pub fn is_visual(self) -> (b: bool)
        ensures
            b == (self != ChangeScope::Project),
    {
        !matches!(self, ChangeScope::Project)
    }
}

/// Strength of a scope: the stronger scope of a batch is the one reported.
pub open spec fn priority(scope: ChangeScope) -> u8 {
    match scope {
        ChangeScope::BaseGeometry => 5,
        ChangeScope::Deformation => 4,
        ChangeScope::Shading => 3,
        ChangeScope::Camera => 2,
        ChangeScope::Presentation => 1,
        ChangeScope::Project => 0,
    }
}

/// Strength of a scope.
pub fn scope_priority(scope: ChangeScope) -> (p: u8)
    ensures
        p == priority(scope),
{
    match scope {
        ChangeScope::BaseGeometry => 5,
        ChangeScope::Deformation => 4,
        ChangeScope::Shading => 3,
        ChangeScope::Camera => 2,
        ChangeScope::Presentation => 1,
        ChangeScope::Project => 0,
    }
}

/// The strongest of the first `k` scopes (the later one on a tie).
pub open spec fn strongest_upto(scopes: Seq<ChangeScope>, k: int) -> Option<ChangeScope>
    decreases k,
{
    if k <= 0 {
        None
    } else {
        match strongest_upto(scopes, k - 1) {
            None => Some(scopes[k - 1]),
            Some(best) => if priority(scopes[k - 1]) >= priority(best) {
                Some(scopes[k - 1])
            } else {
                Some(best)
            },
        }
    }
}

/// The scope of a batch: its strongest member, `Project` when empty.
pub open spec fn strongest(scopes: Seq<ChangeScope>) -> ChangeScope {
    match strongest_upto(scopes, scopes.len() as int) {
        Some(s) => s,
        None => ChangeScope::Project,
    }
}

proof fn lemma_strongest_upto(scopes: Seq<ChangeScope>, k: int)
    requires
        0 <= k <= scopes.len(),
    ensures
        k == 0 <==> strongest_upto(scopes, k) is None,
        strongest_upto(scopes, k) matches Some(s) ==> (exists|i: int| 0 <= i < k && scopes[i] == s) && forall|i: int|
            0 <= i < k ==> priority(#[trigger] scopes[i]) <= priority(s),
    decreases k,
{
    if k > 0 {
        lemma_strongest_upto(scopes, k - 1);
    }
}

/// The scope of a batch of commands: the strongest of their scopes.
pub fn strongest_scope(scopes: &[ChangeScope]) -> (s: ChangeScope)
    ensures
        s == strongest(scopes@),
        scopes.len() == 0 ==> s == ChangeScope::Project,
        scopes.len() > 0 ==> scopes@.contains(s),
        forall|i: int| 0 <= i < scopes.len() ==> priority(#[trigger] scopes@[i]) <= priority(s),
{
    proof {
        lemma_strongest_upto(scopes@, scopes.len() as int);
    }
    let mut best: Option<ChangeScope> = None;
    let mut i: usize = 0;
    while i < scopes.len()
        invariant
            i <= scopes.len(),
            best == strongest_upto(scopes@, i as int),
        decreases scopes.len() - i,
    {
        let s = scopes[i];
        best = match best {
            None => Some(s),
            Some(b) => if scope_priority(s) >= scope_priority(b) {
                Some(s)
            } else {
                Some(b)
            },
        };
        i += 1;
    }
    match best {
        Some(s) => s,
        None => ChangeScope::Project,
    }
}

// ---------------------------------------------------------------------------
// Records
// ---------------------------------------------------------------------------

/// A command the caller applied to the project, with how to undo it.
pub struct AppliedCommand<C> {
    /// The command that was applied.
    pub command: C,
    /// Command that restores the previous project state.
    pub inverse: C,
    /// Human-readable description (used by the undo UI).
    pub description: String,
    /// What kind of data changed.
    pub scope: ChangeScope,
    /// Stable ids touched by the command.
    pub affected: Vec<String>,
}

/// One applied command in the history.
pub struct HistoryEntry<C> {
    /// Monotonic sequence number.
    pub sequence: u64,
    /// Revision produced by this entry.
    pub revision: Revision,
    /// Base geometry revision produced by this entry.
    pub base_geometry_revision: Revision,
    /// Description shown in the undo UI.
    pub description: String,
    /// Change scope.
    pub scope: ChangeScope,
    /// Command that undoes this entry.
    pub inverse: C,
    /// Command that redoes this entry.
    pub command: C,
}

/// One command accepted by the history (an entry of the session log).
pub struct CommandLogEntry<C> {
    /// Monotonic sequence number assigned by the history.
    pub sequence: u64,
    /// Project revision produced by this command.
    pub revision: Revision,
    /// Description shown in the undo UI.
    pub description: String,
    /// Change scope of the command.
    pub scope: ChangeScope,
    /// The command itself.
    pub command: C,
}

/// Persisted command log: the accepted commands of a session, oldest first.
pub struct CommandLog<C> {
    /// Wire format version of the log.
    pub version: u32,
    /// Accepted commands, oldest first.
    pub entries: Vec<CommandLogEntry<C>>,
}

/// Result of a history operation, returned to the caller.
#[derive(Debug, Clone, PartialEq)]
pub struct CommandOutcome {
    /// Sequence number of the last executed command.
    pub sequence: u64,
    /// Project revision after the operation.
    pub revision: Revision,
    /// Base geometry revision after the operation.
    pub base_geometry_revision: Revision,
    /// Description of the operation.
    pub description: String,
    /// Change scope of the applied command.
    pub scope: ChangeScope,
    /// Ids touched by the applied command.
    pub affected: Vec<String>,
    /// Whether undo is available after the operation.
    pub can_undo: bool,
    /// Whether redo is available after the operation.
    pub can_redo: bool,
    /// Undo stack depth after the operation.
    pub undo_depth: usize,
    /// Redo stack depth after the operation.
    pub redo_depth: usize,
}

// ---------------------------------------------------------------------------
// History
// ---------------------------------------------------------------------------

/// Undo/redo authority of a session.
pub struct CommandHistory<C> {
    undo: Vec<HistoryEntry<C>>,
    redo: Vec<HistoryEntry<C>>,
    log: Vec<CommandLogEntry<C>>,
    limit: usize,
    sequence: u64,
    revision: Revision,
    base_geometry_revision: Revision,
}

/// Mathematical state of a history.
pub struct HistoryView<C> {
    /// Undo stack, oldest first (the last entry is undone next).
    pub undo: Seq<HistoryEntry<C>>,
    /// Redo stack (the last entry is redone next).
    pub redo: Seq<HistoryEntry<C>>,
    /// Session log of accepted commands, oldest first.
    pub log: Seq<CommandLogEntry<C>>,
    /// Maximum undo depth.
    pub limit: nat,
    /// Sequence number of the last executed command.
    pub sequence: nat,
    /// Project revision.
    pub revision: nat,
    /// Base geometry revision.
    pub base_geometry_revision: nat,
}

impl<C> View for CommandHistory<C> {
    type V = HistoryView<C>;

    closed spec fn view(&self) -> HistoryView<C> {
        HistoryView {
            undo: self.undo@,
            redo: self.redo@,
            log: self.log@,
            limit: self.limit as nat,
            sequence: self.sequence as nat,
            revision: self.revision as nat,
            base_geometry_revision: self.base_geometry_revision as nat,
        }
    }
}

/// What every history keeps: an undo depth of at least one, undo and redo
/// stacks that together never exceed it, counters ordered so that the
/// revision bounds the others, and a log numbered `1 ..= sequence`.
pub open spec fn history_wf<C>(h: HistoryView<C>) -> bool {
    &&& h.limit >= 1
    &&& h.undo.len() + h.redo.len() <= h.limit
    &&& h.sequence <= h.revision
    &&& h.base_geometry_revision <= h.revision
    &&& h.revision <= u64::MAX
    &&& h.limit <= usize::MAX
    &&& h.log.len() == h.sequence
    &&& forall|i: int| 0 <= i < h.log.len() ==> (#[trigger] h.log[i]).sequence == i + 1
}

/// `1` for a scope that rebuilds base geometry, `0` otherwise.
pub open spec fn geometry_bump(scope: ChangeScope) -> nat {
    if scope == ChangeScope::BaseGeometry {
        1
    } else {
        0
    }
}

/// The undo stack after pushing `entry`, oldest entries dropped beyond `limit`.
pub open spec fn bounded_push<C>(stack: Seq<HistoryEntry<C>>, entry: HistoryEntry<C>, limit: nat) -> Seq<
    HistoryEntry<C>,
> {
    if stack.len() + 1 > limit {
        stack.push(entry).subrange(stack.len() + 1 - limit, stack.len() + 1 as int)
    } else {
        stack.push(entry)
    }
}

/// The history after executing a command recorded as `entry` and `logged`.
pub open spec fn after_execute<C>(h: HistoryView<C>, entry: HistoryEntry<C>, logged: CommandLogEntry<C>) -> HistoryView<
    C,
> {
    HistoryView {
        undo: bounded_push(h.undo, entry, h.limit),
        redo: Seq::empty(),
        log: h.log.push(logged),
        limit: h.limit,
        sequence: h.sequence + 1,
        revision: h.revision + 1,
        base_geometry_revision: h.base_geometry_revision + geometry_bump(entry.scope),
    }
}

/// The history after undoing its last entry.
pub open spec fn after_undo<C>(h: HistoryView<C>) -> HistoryView<C> {
    HistoryView {
        undo: h.undo.drop_last(),
        redo: h.redo.push(h.undo.last()),
        log: h.log,
        limit: h.limit,
        sequence: h.sequence,
        revision: h.revision + 1,
        base_geometry_revision: h.base_geometry_revision + geometry_bump(h.undo.last().scope),
    }
}

/// The history after redoing its last undone entry.
pub open spec fn after_redo<C>(h: HistoryView<C>) -> HistoryView<C> {
    HistoryView {
        undo: h.undo.push(h.redo.last()),
        redo: h.redo.drop_last(),
        log: h.log,
        limit: h.limit,
        sequence: h.sequence,
        revision: h.revision + 1,
        base_geometry_revision: h.base_geometry_revision + geometry_bump(h.redo.last().scope),
    }
}

/// The history after `clear`: empty stacks and log, sequence restarted.
pub open spec fn after_clear<C>(h: HistoryView<C>) -> HistoryView<C> {
    HistoryView {
        undo: Seq::empty(),
        redo: Seq::empty(),
        log: Seq::empty(),
        limit: h.limit,
        sequence: 0,
        revision: h.revision,
        base_geometry_revision: h.base_geometry_revision,
    }
}

/// `entry` records `applied` as the command numbered `sequence`, producing
/// the given revisions.
pub open spec fn records_entry<C: Clone>(
    entry: HistoryEntry<C>,
    applied: AppliedCommand<C>,
    sequence: nat,
    revision: nat,
    base_geometry_revision: nat,
) -> bool {
    &&& entry.sequence == sequence
    &&& entry.revision == revision
    &&& entry.base_geometry_revision == base_geometry_revision
    &&& entry.description@ == applied.description@
    &&& entry.scope == applied.scope
    &&& entry.inverse == applied.inverse
    &&& cloned(applied.command, entry.command)
}

/// `logged` records `applied` as the command numbered `sequence`.
pub open spec fn records_log<C>(logged: CommandLogEntry<C>, applied: AppliedCommand<C>, sequence: nat, revision: nat) -> bool {
    &&& logged.sequence == sequence
    &&& logged.revision == revision
    &&& logged.description@ == applied.description@
    &&& logged.scope == applied.scope
    &&& logged.command == applied.command
}

/// `o` reports the history `h` after an operation described by
/// `description` that applied a command of `scope` touching `affected`.
pub open spec fn reports<C>(
    o: CommandOutcome,
    h: HistoryView<C>,
    description: Seq<char>,
    scope: ChangeScope,
    affected: Seq<String>,
) -> bool {
    &&& o.sequence == h.sequence
    &&& o.revision == h.revision
    &&& o.base_geometry_revision == h.base_geometry_revision
    &&& o.description@ == description
    &&& o.scope == scope
    &&& o.affected@ == affected
    &&& o.can_undo == (h.undo.len() > 0)
    &&& o.can_redo == (h.redo.len() > 0)
    &&& o.undo_depth == h.undo.len()
    &&& o.redo_depth == h.redo.len()
}

impl<C> CommandHistory<C> {
    #[verifier::type_invariant]
    spec fn inv(self) -> bool {
        history_wf(self@)
    }

    /// A history with an explicit undo depth (at least one).
    pub fn new(limit: usize) -> (h: Self)
        ensures
            h@.undo.len() == 0,
            h@.redo.len() == 0,
            h@.log.len() == 0,
            h@.limit == if limit == 0 {
                1
            } else {
                limit as nat
            },
            h@.sequence == 0,
            h@.revision == 0,
            h@.base_geometry_revision == 0,
            history_wf(h@),
    {
        CommandHistory {
            undo: Vec::new(),
            redo: Vec::new(),
            log: Vec::new(),
            limit: if limit == 0 {
                1
            } else {
                limit
            },
            sequence: 0,
            revision: 0,
            base_geometry_revision: 0,
        }
    }

    /// Current project revision.
    pub fn revision(&self) -> (r: Revision)
        ensures
            r == self@.revision,
    {
        self.revision
    }

    /// Current base-geometry revision.
    pub fn base_geometry_revision(&self) -> (r: Revision)
        ensures
            r == self@.base_geometry_revision,
    {
        self.base_geometry_revision
    }

    /// `true` when a command can be undone.
    pub fn can_undo(&self) -> (b: bool)
        ensures
            b == (self@.undo.len() > 0),
    {
        self.undo.len() > 0
    }

    /// `true` when a command can be redone.
    pub fn can_redo(&self) -> (b: bool)
        ensures
            b == (self@.redo.len() > 0),
    {
        self.redo.len() > 0
    }

    /// Undo depth.
    pub fn undo_depth(&self) -> (n: usize)
        ensures
            n == self@.undo.len(),
    {
        self.undo.len()
    }

    /// Redo depth.
    pub fn redo_depth(&self) -> (n: usize)
        ensures
            n == self@.redo.len(),
    {
        self.redo.len()
    }

    /// Description of the next undoable command.
    pub fn last_undo_description(&self) -> (d: Option<&str>)
        ensures
            self@.undo.len() == 0 ==> d is None,
            self@.undo.len() > 0 ==> (d matches Some(s) && s@ == self@.undo.last().description@),
    {
        if self.undo.len() == 0 {
            None
        } else {
            Some(self.undo[self.undo.len() - 1].description.as_str())
        }
    }

    /// Description of the next redoable command.
    pub fn last_redo_description(&self) -> (d: Option<&str>)
        ensures
            self@.redo.len() == 0 ==> d is None,
            self@.redo.len() > 0 ==> (d matches Some(s) && s@ == self@.redo.last().description@),
    {
        if self.redo.len() == 0 {
            None
        } else {
            Some(self.redo[self.redo.len() - 1].description.as_str())
        }
    }

    /// The entry the next undo reverts; the caller applies its `inverse`.
    pub fn next_undo(&self) -> (e: Option<&HistoryEntry<C>>)
        ensures
            self@.undo.len() == 0 ==> e is None,
            self@.undo.len() > 0 ==> (e matches Some(x) && *x == self@.undo.last()),
    {
        if self.undo.len() == 0 {
            None
        } else {
            Some(&self.undo[self.undo.len() - 1])
        }
    }

    /// The entry the next redo re-applies; the caller applies its `command`.
    pub fn next_redo(&self) -> (e: Option<&HistoryEntry<C>>)
        ensures
            self@.redo.len() == 0 ==> e is None,
            self@.redo.len() > 0 ==> (e matches Some(x) && *x == self@.redo.last()),
    {
        if self.redo.len() == 0 {
            None
        } else {
            Some(&self.redo[self.redo.len() - 1])
        }
    }

    /// The accepted commands of the session, oldest first.
    pub fn log_entries(&self) -> (l: &[CommandLogEntry<C>])
        ensures
            l@ == self@.log,
    {
        self.log.as_slice()
    }

    /// Records a command that the caller applied to the project.
    ///
    /// The entry is pushed on the undo stack (the oldest one is dropped past
    /// the limit), the redo stack is cleared, the sequence number and the
    /// revision advance, the base-geometry revision advances for a
    /// base-geometry change, and the command enters the session log.
    pub fn execute(&mut self, applied: AppliedCommand<C>) -> (o: CommandOutcome) where C: Clone
        requires
            old(self)@.revision < u64::MAX,
        ensures
            final(self)@ == after_execute(old(self)@, final(self)@.undo.last(), final(self)@.log.last()),
            final(self)@.base_geometry_revision == old(self)@.base_geometry_revision + (if applied.scope
                == ChangeScope::BaseGeometry {
                1int
            } else {
                0int
            }),
            final(self)@.revision == old(self)@.revision + 1,
            records_entry(
                final(self)@.undo.last(),
                applied,
                old(self)@.sequence + 1,
                old(self)@.revision + 1,
                old(self)@.base_geometry_revision + geometry_bump(applied.scope),
            ),
            records_log(final(self)@.log.last(), applied, old(self)@.sequence + 1, old(self)@.revision + 1),
            reports(o, final(self)@, applied.description@, applied.scope, applied.affected@),
            history_wf(final(self)@),
    {
        proof {
            use_type_invariant(&*self);
        }
        let mut cur = CommandHistory::new(1);
        std::mem::swap(self, &mut cur);
        let CommandHistory { mut undo, redo: _, mut log, limit, sequence, revision, base_geometry_revision } = cur;
        let revision = revision + 1;
        let sequence = sequence + 1;
        let base_geometry_revision = if applied.scope.requires_static_rebuild() {
            base_geometry_revision + 1
        } else {
            base_geometry_revision
        };
        let AppliedCommand { command, inverse, description, scope, affected } = applied;
        let entry = HistoryEntry {
            sequence,
            revision,
            base_geometry_revision,
            description: description.clone(),
            scope,
            inverse,
            command: command.clone(),
        };
        let logged = CommandLogEntry { sequence, revision, description: description.clone(), scope, command };
        let ghost old_undo = undo@;
        undo.push(entry);
        if undo.len() > limit {
            undo.remove(0);
            assert(undo@ =~= old_undo.push(entry).subrange(old_undo.len() + 1 - limit, old_undo.len() + 1 as int));
        }
        let ghost old_log = log@;
        log.push(logged);
        proof {
            assert forall|i: int| 0 <= i < log@.len() implies (#[trigger] log@[i]).sequence == i + 1 by {
                if i < old_log.len() {
                    assert(log@[i] == old_log[i]);
                }
            }
        }
        *self = CommandHistory { undo, redo: Vec::new(), log, limit, sequence, revision, base_geometry_revision };
        CommandOutcome {
            sequence: self.sequence,
            revision: self.revision,
            base_geometry_revision: self.base_geometry_revision,
            description,
            scope,
            affected,
            can_undo: self.undo.len() > 0,
            can_redo: false,
            undo_depth: self.undo.len(),
            redo_depth: 0,
        }
    }

    /// Commits an undo: the caller applied `next_undo()`'s inverse, with the
    /// result `applied`. The entry moves to the redo stack and the revision
    /// advances. With nothing to undo, returns `None` and changes nothing.
    pub fn undo(&mut self, applied: AppliedCommand<C>) -> (r: Option<CommandOutcome>)
        requires
            old(self)@.revision < u64::MAX,
        ensures
            old(self)@.undo.len() == 0 ==> r is None && final(self)@ == old(self)@,
            old(self)@.undo.len() > 0 ==> final(self)@ == after_undo(old(self)@),
            old(self)@.undo.len() > 0 ==> final(self)@.base_geometry_revision == old(self)@.base_geometry_revision + (
            if old(self)@.undo.last().scope == ChangeScope::BaseGeometry {
                1int
            } else {
                0int
            }),
            old(self)@.undo.len() > 0 ==> final(self)@.revision == old(self)@.revision + 1,
            old(self)@.undo.len() > 0 ==> (r matches Some(o) && reports(
                o,
                final(self)@,
                "Undo "@ + old(self)@.undo.last().description@,
                applied.scope,
                applied.affected@,
            )),
            history_wf(final(self)@),
    {
        proof {
            use_type_invariant(&*self);
        }
        if self.undo.len() == 0 {
            return None;
        }
        let mut undo = Vec::new();
        std::mem::swap(&mut undo, &mut self.undo);
        let entry = undo.pop().unwrap();
        self.undo = undo;
        self.revision = self.revision + 1;
        if entry.scope.requires_static_rebuild() {
            self.base_geometry_revision = self.base_geometry_revision + 1;
        }
        let mut description = String::from_str("Undo ");
        description.append(entry.description.as_str());
        let mut redo = Vec::new();
        std::mem::swap(&mut redo, &mut self.redo);
        redo.push(entry);
        self.redo = redo;
        Some(
            CommandOutcome {
                sequence: self.sequence,
                revision: self.revision,
                base_geometry_revision: self.base_geometry_revision,
                description,
                scope: applied.scope,
                affected: applied.affected,
                can_undo: self.undo.len() > 0,
                can_redo: true,
                undo_depth: self.undo.len(),
                redo_depth: self.redo.len(),
            },
        )
    }

    /// Commits a redo: the caller re-applied `next_redo()`'s command, with the
    /// result `applied`. The entry moves back to the undo stack and the
    /// revision advances. With nothing to redo, returns `None` and changes
    /// nothing.
    pub fn redo(&mut self, applied: AppliedCommand<C>) -> (r: Option<CommandOutcome>)
        requires
            old(self)@.revision < u64::MAX,
        ensures
            old(self)@.redo.len() == 0 ==> r is None && final(self)@ == old(self)@,
            old(self)@.redo.len() > 0 ==> final(self)@ == after_redo(old(self)@),
            old(self)@.redo.len() > 0 ==> final(self)@.base_geometry_revision == old(self)@.base_geometry_revision + (
            if old(self)@.redo.last().scope == ChangeScope::BaseGeometry {
                1int
            } else {
                0int
            }),
            old(self)@.redo.len() > 0 ==> final(self)@.revision == old(self)@.revision + 1,
            old(self)@.redo.len() > 0 ==> (r matches Some(o) && reports(
                o,
                final(self)@,
                "Redo "@ + old(self)@.redo.last().description@,
                applied.scope,
                applied.affected@,
            )),
            history_wf(final(self)@),
    {
        proof {
            use_type_invariant(&*self);
        }
        if self.redo.len() == 0 {
            return None;
        }
        let mut redo = Vec::new();
        std::mem::swap(&mut redo, &mut self.redo);
        let entry = redo.pop().unwrap();
        self.redo = redo;
        self.revision = self.revision + 1;
        if entry.scope.requires_static_rebuild() {
            self.base_geometry_revision = self.base_geometry_revision + 1;
        }
        let mut description = String::from_str("Redo ");
        description.append(entry.description.as_str());
        let mut undo = Vec::new();
        std::mem::swap(&mut undo, &mut self.undo);
        undo.push(entry);
        self.undo = undo;
        Some(
            CommandOutcome {
                sequence: self.sequence,
                revision: self.revision,
                base_geometry_revision: self.base_geometry_revision,
                description,
                scope: applied.scope,
                affected: applied.affected,
                can_undo: true,
                can_redo: self.redo.len() > 0,
                undo_depth: self.undo.len(),
                redo_depth: self.redo.len(),
            },
        )
    }

    /// Clears both stacks and the session log, restarting the sequence
    /// (project load / new project). Revisions keep counting.
    pub fn clear(&mut self)
        ensures
            final(self)@ == after_clear(old(self)@),
            history_wf(final(self)@),
    {
        proof {
            use_type_invariant(&*self);
        }
        let mut cur = CommandHistory::new(1);
        std::mem::swap(self, &mut cur);
        *self = CommandHistory {
            undo: Vec::new(),
            redo: Vec::new(),
            log: Vec::new(),
            limit: cur.limit,
            sequence: 0,
            revision: cur.revision,
            base_geometry_revision: cur.base_geometry_revision,
        };
    }

    /// The accepted commands of the session as a persisted log.
    pub fn export_log(&self) -> (l: CommandLog<C>) where C: Clone
        ensures
            l.version == COMMAND_LOG_VERSION,
            l.entries.len() == self@.log.len(),
            forall|i: int| 0 <= i < self@.log.len() ==> copies_log_entry(#[trigger] l.entries@[i], self@.log[i]),
    {
        CommandLog { version: COMMAND_LOG_VERSION, entries: copy_entries(self.log.as_slice()) }
    }
}

/// `copy` carries the fields of `entry`, its command cloned.
pub open spec fn copies_log_entry<C: Clone>(copy: CommandLogEntry<C>, entry: CommandLogEntry<C>) -> bool {
    &&& copy.sequence == entry.sequence
    &&& copy.revision == entry.revision
    &&& copy.description@ == entry.description@
    &&& copy.scope == entry.scope
    &&& cloned(entry.command, copy.command)
}

/// Copies of log entries.
fn copy_entries<C: Clone>(entries: &[CommandLogEntry<C>]) -> (out: Vec<CommandLogEntry<C>>)
    ensures
        out.len() == entries.len(),
        forall|i: int| 0 <= i < entries.len() ==> copies_log_entry(#[trigger] out@[i], entries@[i]),
{
    let mut out: Vec<CommandLogEntry<C>> = Vec::new();
    let mut i: usize = 0;
    while i < entries.len()
        invariant
            i <= entries.len(),
            out.len() == i,
            forall|k: int| 0 <= k < i ==> copies_log_entry(#[trigger] out@[k], entries@[k]),
        decreases entries.len() - i,
    {
        let e = &entries[i];
        out.push(
            CommandLogEntry {
                sequence: e.sequence,
                revision: e.revision,
                description: e.description.clone(),
                scope: e.scope,
                command: e.command.clone(),
            },
        );
        i += 1;
    }
    out
}

/// Message refusing a log written by a newer format.
pub open spec fn newer_version_message(version: nat) -> Seq<char> {
    "command log version "@ + decimal(version) + " is newer than the supported "@ + decimal(
        COMMAND_LOG_VERSION as nat,
    )
}

/// Message refusing a log entry without a sequence number.
pub open spec fn missing_sequence_message(index: nat) -> Seq<char> {
    "command log entry "@ + decimal(index) + " has no sequence number"@
}

/// A log the check accepts: a version this build reads, and a sequence
/// number on every entry.
pub open spec fn log_accepted<C>(version: u32, entries: Seq<CommandLogEntry<C>>) -> bool {
    &&& version <= COMMAND_LOG_VERSION
    &&& forall|i: int| 0 <= i < entries.len() ==> (#[trigger] entries[i]).sequence != 0
}

impl<C> CommandLog<C> {
    /// Empty log at the current format version.
    pub fn new() -> (l: Self)
        ensures
            l.version == COMMAND_LOG_VERSION,
            l.entries.len() == 0,
    {
        CommandLog { version: COMMAND_LOG_VERSION, entries: Vec::new() }
    }

    /// Number of entries.
    pub fn len(&self) -> (n: usize)
        ensures
            n == self.entries.len(),
    {
        self.entries.len()
    }

    /// `true` when no command was recorded.
    pub fn is_empty(&self) -> (b: bool)
        ensures
            b == (self.entries.len() == 0),
    {
        self.entries.len() == 0
    }

    /// The command of every entry, in order.
    pub fn commands(&self) -> (out: Vec<C>) where C: Clone
        ensures
            out.len() == self.entries.len(),
            forall|i: int| 0 <= i < self.entries.len() ==> cloned(self.entries@[i].command, #[trigger] out@[i]),
    {
        let mut out: Vec<C> = Vec::new();
        let mut i: usize = 0;
        while i < self.entries.len()
            invariant
                i <= self.entries.len(),
                out.len() == i,
                forall|k: int| 0 <= k < i ==> cloned(self.entries@[k].command, #[trigger] out@[k]),
            decreases self.entries.len() - i,
        {
            out.push(self.entries[i].command.clone());
            i += 1;
        }
        out
    }

    /// Checks a parsed log: a version this build reads, and a sequence
    /// number on every entry. The message names the first problem.
    pub fn check(&self) -> (r: Result<(), String>)
        ensures
            r is Ok <==> log_accepted(self.version, self.entries@),
            self.version > COMMAND_LOG_VERSION ==> (r matches Err(m) && m@ == newer_version_message(
                self.version as nat,
            )),
            self.version <= COMMAND_LOG_VERSION ==> match r {
                Ok(_) => forall|i: int| 0 <= i < self.entries.len() ==> (#[trigger] self.entries@[i]).sequence != 0,
                Err(m) => exists|i: int|
                    0 <= i < self.entries.len() && (#[trigger] self.entries@[i]).sequence == 0 && (forall|k: int|
                        0 <= k < i ==> self.entries@[k].sequence != 0) && m@ == missing_sequence_message(i as nat),
            },
    {
        if self.version > COMMAND_LOG_VERSION {
            let mut m = String::from_str("command log version ");
            let v = decimal_string(self.version as u64);
            m.append(v.as_str());
            m.append(" is newer than the supported ");
            let w = decimal_string(COMMAND_LOG_VERSION as u64);
            m.append(w.as_str());
            assert(m@ =~= newer_version_message(self.version as nat));
            return Err(m);
        }
        let mut i: usize = 0;
        while i < self.entries.len()
            invariant
                i <= self.entries.len(),
                self.version <= COMMAND_LOG_VERSION,
                forall|k: int| 0 <= k < i ==> (#[trigger] self.entries@[k]).sequence != 0,
            decreases self.entries.len() - i,
        {
            if self.entries[i].sequence == 0 {
                let mut m = String::from_str("command log entry ");
                let v = decimal_string(i as u64);
                m.append(v.as_str());
                m.append(" has no sequence number");
                assert(m@ =~= missing_sequence_message(i as nat));
                return Err(m);
            }
            i += 1;
        }
        Ok(())
    }
}

// ---------------------------------------------------------------------------
// Laws
// ---------------------------------------------------------------------------

/// Undo followed by redo restores both stacks and the log; the revision
/// moves on by two.
pub proof fn law_undo_then_redo<C>(h: HistoryView<C>)
    requires
        h.undo.len() > 0,
    ensures
        after_redo(after_undo(h)).undo == h.undo,
        after_redo(after_undo(h)).redo == h.redo,
        after_redo(after_undo(h)).log == h.log,
        after_redo(after_undo(h)).sequence == h.sequence,
        after_redo(after_undo(h)).revision == h.revision + 2,
{
    assert(h.undo.drop_last().push(h.undo.last()) =~= h.undo);
    assert(h.redo.push(h.undo.last()).drop_last() =~= h.redo);
}

/// Redo followed by undo restores both stacks and the log; the revision
/// moves on by two.
pub proof fn law_redo_then_undo<C>(h: HistoryView<C>)
    requires
        h.redo.len() > 0,
    ensures
        after_undo(after_redo(h)).undo == h.undo,
        after_undo(after_redo(h)).redo == h.redo,
        after_undo(after_redo(h)).log == h.log,
        after_undo(after_redo(h)).sequence == h.sequence,
        after_undo(after_redo(h)).revision == h.revision + 2,
{
    assert(h.undo.push(h.redo.last()).drop_last() =~= h.undo);
    assert(h.redo.drop_last().push(h.redo.last()) =~= h.redo);
}

/// Executing a command empties the redo stack and puts the command on top
/// of the undo stack; past the limit the oldest entry is dropped.
pub proof fn law_execute_invalidates_redo<C>(h: HistoryView<C>, e: HistoryEntry<C>, l: CommandLogEntry<C>)
    requires
        history_wf(h),
    ensures
        after_execute(h, e, l).redo.len() == 0,
        after_execute(h, e, l).undo.last() == e,
        h.undo.len() < h.limit ==> after_execute(h, e, l).undo == h.undo.push(e),
        h.undo.len() == h.limit ==> after_execute(h, e, l).undo == h.undo.drop_first().push(e),
        after_execute(h, e, l).undo.len() <= h.limit,
{
    if h.undo.len() == h.limit {
        assert(h.undo.push(e).subrange(h.undo.len() + 1 - h.limit, h.undo.len() + 1 as int) =~= h.undo.drop_first().push(
            e,
        ));
    }
}

/// The session log grows by exactly one entry per executed command, and
/// undo and redo leave it as it is; every operation advances the revision
/// by one.
pub proof fn law_log_is_the_session<C>(h: HistoryView<C>, e: HistoryEntry<C>, l: CommandLogEntry<C>)
    ensures
        after_execute(h, e, l).log == h.log.push(l),
        after_undo(h).log == h.log,
        after_redo(h).log == h.log,
        after_execute(h, e, l).revision == h.revision + 1,
        after_undo(h).revision == h.revision + 1,
        after_redo(h).revision == h.revision + 1,
{
}

/// A log exported by a well-formed history passes the check: it carries
/// the current version and every entry is numbered from 1.
pub proof fn law_exported_log_passes_check<C: Clone>(h: HistoryView<C>, l: CommandLog<C>)
    requires
        history_wf(h),
        l.version == COMMAND_LOG_VERSION,
        l.entries.len() == h.log.len(),
        forall|i: int| 0 <= i < h.log.len() ==> copies_log_entry(#[trigger] l.entries@[i], h.log[i]),
    ensures
        log_accepted(l.version, l.entries@),
{
    assert forall|i: int| 0 <= i < l.entries@.len() implies (#[trigger] l.entries@[i]).sequence != 0 by {
        assert(copies_log_entry(l.entries@[i], h.log[i]));
        assert(h.log[i].sequence == i + 1);
    }
}

/// Every operation that changes the base geometry (executing, undoing or
/// redoing an entry of scope `BaseGeometry`) advances the base-geometry
/// revision by exactly one, so the static geometry is rebuilt; entries of any
/// other scope leave it alone. Undoing and redoing such an entry advances it
/// by two.
pub proof fn law_geometry_revision_tracks_rebuilds<C>(h: HistoryView<C>, e: HistoryEntry<C>, l: CommandLogEntry<C>)
    ensures
        after_execute(h, e, l).base_geometry_revision == h.base_geometry_revision + (if e.scope
            == ChangeScope::BaseGeometry {
            1int
        } else {
            0int
        }),
        h.undo.len() > 0 ==> after_undo(h).base_geometry_revision == h.base_geometry_revision + (if h.undo.last().scope
            == ChangeScope::BaseGeometry {
            1int
        } else {
            0int
        }),
        h.redo.len() > 0 ==> after_redo(h).base_geometry_revision == h.base_geometry_revision + (if h.redo.last().scope
            == ChangeScope::BaseGeometry {
            1int
        } else {
            0int
        }),
        h.undo.len() > 0 && h.undo.last().scope == ChangeScope::BaseGeometry ==> after_redo(
            after_undo(h),
        ).base_geometry_revision == h.base_geometry_revision + 2,
{
    if h.undo.len() > 0 {
        assert(after_undo(h).redo.last() == h.undo.last());
    }
}

/// Every operation keeps a well-formed history well formed.
pub proof fn law_operations_keep_wf<C>(h: HistoryView<C>, e: HistoryEntry<C>, l: CommandLogEntry<C>)
    requires
        history_wf(h),
        h.revision < u64::MAX,
        l.sequence == h.sequence + 1,
    ensures
        history_wf(after_execute(h, e, l)),
        h.undo.len() > 0 ==> history_wf(after_undo(h)),
        h.redo.len() > 0 ==> history_wf(after_redo(h)),
        history_wf(after_clear(h)),
{
    law_execute_invalidates_redo(h, e, l);
    let x = after_execute(h, e, l);
    assert forall|i: int| 0 <= i < x.log.len() implies (#[trigger] x.log[i]).sequence == i + 1 by {
        if i < h.log.len() {
            assert(x.log[i] == h.log[i]);
        }
    }
}

} // verus!
