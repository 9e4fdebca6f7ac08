//! The tree decisions of the node commands: whether a node can be added or
//! reparented, which nodes a removal takes with it, and how the removed
//! subtree is recreated by the inverse command.
use vstd::prelude::*;

use crate::hierarchy::{first_index, lemma_first_index_facts};
use crate::ids::NodeId;
use crate::scene_tree::{
    contains_id, descendants_of, descendants_spec, first_position, id_seq, link_ids, link_parents, opt_ref_view,
    subtree_finite, NodeLink,
};
use crate::text::{trim, trim_chars, chars_of};

verus! {

/// Why a command is refused by its checks.
#[derive(Debug, Clone, PartialEq, Eq)]
pub enum CommandError {
    /// The command targets an entity that does not exist.
    UnknownTarget { kind: &'static str, target: String },
    /// A value is outside its canonical domain.
    InvalidValue { field: String, detail: String },
    /// The command would change nothing.
    NoOp(String),
}

/// Mathematical view of a `CommandError`.
pub enum CommandErrorView {
    UnknownTarget { kind: Seq<char>, target: Seq<char> },
    InvalidValue { field: Seq<char>, detail: Seq<char> },
    NoOp(Seq<char>),
}

impl View for CommandError {
    type V = CommandErrorView;

    open spec fn view(&self) -> CommandErrorView {
        match self {
            CommandError::UnknownTarget { kind, target } => CommandErrorView::UnknownTarget {
                kind: kind@,
                target: target@,
            },
            CommandError::InvalidValue { field, detail } => CommandErrorView::InvalidValue {
                field: field@,
                detail: detail@,
            },
            CommandError::NoOp(m) => CommandErrorView::NoOp(m@),
        }
    }
}

/// The text of a command error.
pub open spec fn command_error_message(e: CommandErrorView) -> Seq<char> {
    match e {
        CommandErrorView::UnknownTarget { kind, target } => "unknown "@ + kind + " '"@ + target + "'"@,
        CommandErrorView::InvalidValue { field, detail } => "invalid value for '"@ + field + "': "@ + detail,
        CommandErrorView::NoOp(m) => "command has no effect: "@ + m,
    }
}

impl CommandError {
    /// The text of the error.
    pub fn message(&self) -> (m: String)
        ensures
            m@ == command_error_message(self@),
    {
        match self {
            CommandError::UnknownTarget { kind, target } => {
                let mut m = String::from_str("unknown ");
                m.append(kind);
                m.append(" '");
                m.append(target.as_str());
                m.append("'");
                m
            },
            CommandError::InvalidValue { field, detail } => {
                let mut m = String::from_str("invalid value for '");
                m.append(field.as_str());
                m.append("': ");
                m.append(detail.as_str());
                m
            },
            CommandError::NoOp(reason) => {
                let mut m = String::from_str("command has no effect: ");
                m.append(reason.as_str());
                m
            },
        }
    }
}

/// The error naming an unknown scene node.
pub open spec fn unknown_node(id: Seq<char>) -> CommandErrorView {
    CommandErrorView::UnknownTarget { kind: "scene node"@, target: id }
}

fn unknown_node_error(id: &NodeId) -> (e: CommandError)
    ensures
        e@ == unknown_node(id@),
{
    CommandError::UnknownTarget { kind: "scene node", target: id.duplicate().into_string() }
}

/// Position of the first node with the id, or `UnknownTarget`.
pub fn find_node(nodes: &[NodeLink], node_id: &NodeId) -> (r: Result<usize, CommandError>)
    ensures
        first_index(link_ids(nodes@), node_id@) >= 0 ==> r == Ok::<usize, CommandError>(
            first_index(link_ids(nodes@), node_id@) as usize,
        ),
        first_index(link_ids(nodes@), node_id@) < 0 ==> (r matches Err(e) && e@ == unknown_node(node_id@)),
{
    match first_position(nodes, node_id) {
        Some(i) => Ok(i),
        None => Err(unknown_node_error(node_id)),
    }
}

/// `a + b + c`.
fn join3(a: &str, b: &str, c: &str) -> (s: String)
    ensures
        s@ == a@ + b@ + c@,
{
    let mut s = String::from_str(a);
    s.append(b);
    s.append(c);
    s
}

/// The first problem with adding a node `id` named `name` under `parent`,
/// among the checks on the tree (`None`: it passes them).
pub open spec fn add_node_problem(
    ids: Seq<Seq<char>>,
    id: Seq<char>,
    name: Seq<char>,
    parent: Option<Seq<char>>,
) -> Option<CommandErrorView> {
    if first_index(ids, id) >= 0 {
        Some(
            CommandErrorView::InvalidValue {
                field: "node_id"@,
                detail: "node '"@ + id + "' already exists"@,
            },
        )
    } else if trim(name).len() == 0 {
        Some(CommandErrorView::InvalidValue { field: "name"@, detail: "node name must not be empty"@ })
    } else {
        match parent {
            Some(p) => if p == id {
                Some(
                    CommandErrorView::InvalidValue {
                        field: "parent_id"@,
                        detail: "a node cannot be its own parent"@,
                    },
                )
            } else if first_index(ids, p) < 0 {
                Some(unknown_node(p))
            } else {
                None
            },
            None => None,
        }
    }
}

/// Tree checks of adding a node: a new id, a non-blank name, and a parent
/// that is another existing node.
pub fn validate_add_node(nodes: &[NodeLink], node_id: &NodeId, name: &str, parent_id: Option<&NodeId>) -> (r: Result<
    (),
    CommandError,
>)
    ensures
        match r {
            Ok(_) => add_node_problem(link_ids(nodes@), node_id@, name@, opt_ref_view(parent_id)) is None,
            Err(e) => add_node_problem(link_ids(nodes@), node_id@, name@, opt_ref_view(parent_id)) == Some(e@),
        },
{
    if first_position(nodes, node_id).is_some() {
        return Err(
            CommandError::InvalidValue {
                field: String::from_str("node_id"),
                detail: join3("node '", node_id.as_str(), "' already exists"),
            },
        );
    }
    let chars = chars_of(name);
    let trimmed = trim_chars(chars.as_slice());
    if trimmed.len() == 0 {
        return Err(
            CommandError::InvalidValue {
                field: String::from_str("name"),
                detail: String::from_str("node name must not be empty"),
            },
        );
    }
    if let Some(parent) = parent_id {
        if parent.same_as(node_id) {
            return Err(
                CommandError::InvalidValue {
                    field: String::from_str("parent_id"),
                    detail: String::from_str("a node cannot be its own parent"),
                },
            );
        }
        if first_position(nodes, parent).is_none() {
            return Err(unknown_node_error(parent));
        }
    }
    Ok(())
}

/// The set-parent check reaches the subtree walk.
pub open spec fn set_parent_walks_subtree(ids: Seq<Seq<char>>, id: Seq<char>, parent: Option<Seq<char>>) -> bool {
    &&& first_index(ids, id) >= 0
    &&& parent matches Some(p) && first_index(ids, p) >= 0 && p != id
}

/// The first problem with reparenting node `id` under `parent` (`None`: the
/// command is valid).
pub open spec fn set_parent_problem(
    ids: Seq<Seq<char>>,
    par: Seq<Option<Seq<char>>>,
    id: Seq<char>,
    parent: Option<Seq<char>>,
) -> Option<CommandErrorView> {
    let f = first_index(ids, id);
    if f < 0 {
        Some(unknown_node(id))
    } else {
        match parent {
            Some(p) => if first_index(ids, p) < 0 {
                Some(unknown_node(p))
            } else if p == id {
                Some(
                    CommandErrorView::InvalidValue {
                        field: "parent_id"@,
                        detail: "a node cannot be its own parent"@,
                    },
                )
            } else if descendants_spec(ids, par, id).contains(p) {
                Some(
                    CommandErrorView::InvalidValue {
                        field: "parent_id"@,
                        detail: "'"@ + p + "' is a descendant of '"@ + id + "' (would create a cycle)"@,
                    },
                )
            } else if par[f] == Some(p) {
                Some(CommandErrorView::NoOp("node '"@ + id + "' is already parented to '"@ + p + "'"@))
            } else {
                None
            },
            None => if par[f] is None {
                Some(CommandErrorView::NoOp("node '"@ + id + "' is already parented to the scene root"@))
            } else {
                None
            },
        }
    }
}

/// Checks a reparent: both nodes exist, the parent is another node outside
/// the subtree of the node, and the parent actually changes.
pub fn validate_set_node_parent(nodes: &[NodeLink], node_id: &NodeId, parent_id: Option<&NodeId>) -> (r: Result<
    (),
    CommandError,
>)
    requires
        set_parent_walks_subtree(link_ids(nodes@), node_id@, opt_ref_view(parent_id)) ==> subtree_finite(
            link_ids(nodes@),
            link_parents(nodes@),
            node_id@,
        ),
    ensures
        match r {
            Ok(_) => set_parent_problem(link_ids(nodes@), link_parents(nodes@), node_id@, opt_ref_view(parent_id))
                is None,
            Err(e) => set_parent_problem(link_ids(nodes@), link_parents(nodes@), node_id@, opt_ref_view(parent_id))
                == Some(e@),
        },
{
    let index = match find_node(nodes, node_id) {
        Ok(i) => i,
        Err(e) => {
            return Err(e);
        },
    };
    proof {
        lemma_first_index_facts(link_ids(nodes@), node_id@);
    }
    match parent_id {
        Some(parent) => {
            if first_position(nodes, parent).is_none() {
                return Err(unknown_node_error(parent));
            }
            if parent.same_as(node_id) {
                return Err(
                    CommandError::InvalidValue {
                        field: String::from_str("parent_id"),
                        detail: String::from_str("a node cannot be its own parent"),
                    },
                );
            }
            let subtree = descendants_of(nodes, node_id);
            if contains_id(&subtree, parent) {
                let mut detail = join3("'", parent.as_str(), "' is a descendant of '");
                detail.append(node_id.as_str());
                detail.append("' (would create a cycle)");
                return Err(CommandError::InvalidValue { field: String::from_str("parent_id"), detail });
            }
            let same = match &nodes[index].parent_id {
                Some(q) => q.same_as(parent),
                None => false,
            };
            if same {
                let mut message = join3("node '", node_id.as_str(), "' is already parented to '");
                message.append(parent.as_str());
                message.append("'");
                return Err(CommandError::NoOp(message));
            }
            Ok(())
        },
        None => {
            if nodes[index].parent_id.is_none() {
                return Err(
                    CommandError::NoOp(
                        join3("node '", node_id.as_str(), "' is already parented to the scene root"),
                    ),
                );
            }
            Ok(())
        },
    }
}

/// The node named `x` goes away when the node `id` is removed: it is `id`
/// or one of its descendants.
pub open spec fn removed_with(ids: Seq<Seq<char>>, par: Seq<Option<Seq<char>>>, id: Seq<char>, x: Seq<char>) -> bool {
    x == id || descendants_spec(ids, par, id).contains(x)
}

/// Marks the nodes that removing `node_id` takes with it (the node and its
/// whole subtree).
pub fn removal_mask(nodes: &[NodeLink], node_id: &NodeId) -> (mask: Vec<bool>)
    requires
        subtree_finite(link_ids(nodes@), link_parents(nodes@), node_id@),
    ensures
        mask.len() == nodes.len(),
        forall|j: int|
            0 <= j < nodes.len() ==> mask@[j] == removed_with(
                link_ids(nodes@),
                link_parents(nodes@),
                node_id@,
                #[trigger] link_ids(nodes@)[j],
            ),
{
    let subtree = descendants_of(nodes, node_id);
    let mut mask: Vec<bool> = Vec::new();
    let mut j: usize = 0;
    while j < nodes.len()
        invariant
            j <= nodes.len(),
            mask.len() == j,
            id_seq(subtree@) == descendants_spec(link_ids(nodes@), link_parents(nodes@), node_id@),
            forall|k: int|
                0 <= k < j ==> mask@[k] == removed_with(
                    link_ids(nodes@),
                    link_parents(nodes@),
                    node_id@,
                    #[trigger] link_ids(nodes@)[k],
                ),
        decreases nodes.len() - j,
    {
        let gone = nodes[j].node_id.same_as(node_id) || contains_id(&subtree, &nodes[j].node_id);
        mask.push(gone);
        j += 1;
    }
    mask
}

/// One node of a removed subtree, as its re-creation needs it.
#[derive(Debug, Clone, Copy, PartialEq, Eq, Structural)]
pub struct RestoreStep {
    /// Position the node held before the removal.
    pub position: usize,
    /// Its parent was removed too: it is re-added as a root and relinked
    /// once the whole subtree exists again.
    pub parent_inside: bool,
}

/// The re-creation plan of the first `k` nodes: every removed node in
/// ascending position, with whether its parent was removed too.
pub open spec fn restore_steps_upto(
    ids: Seq<Seq<char>>,
    par: Seq<Option<Seq<char>>>,
    id: Seq<char>,
    k: int,
) -> Seq<RestoreStep>
    decreases k,
{
    if k <= 0 {
        Seq::empty()
    } else if removed_with(ids, par, id, ids[k - 1]) {
        restore_steps_upto(ids, par, id, k - 1).push(
            RestoreStep {
                position: (k - 1) as usize,
                parent_inside: match par[k - 1] {
                    Some(p) => removed_with(ids, par, id, p),
                    None => false,
                },
            },
        )
    } else {
        restore_steps_upto(ids, par, id, k - 1)
    }
}

/// How to recreate what removing `node_id` takes away: the removed nodes
/// in their former order, each flagged when its parent was removed too.
pub fn restore_plan(nodes: &[NodeLink], node_id: &NodeId) -> (r: Result<Vec<RestoreStep>, CommandError>)
    requires
        first_index(link_ids(nodes@), node_id@) >= 0 ==> subtree_finite(
            link_ids(nodes@),
            link_parents(nodes@),
            node_id@,
        ),
    ensures
        first_index(link_ids(nodes@), node_id@) < 0 ==> (r matches Err(e) && e@ == unknown_node(node_id@)),
        first_index(link_ids(nodes@), node_id@) >= 0 ==> (r matches Ok(steps) && steps@ == restore_steps_upto(
            link_ids(nodes@),
            link_parents(nodes@),
            node_id@,
            nodes.len() as int,
        )),
{
    if let Err(e) = find_node(nodes, node_id) {
        return Err(e);
    }
    let ghost ids = link_ids(nodes@);
    let ghost par = link_parents(nodes@);
    let subtree = descendants_of(nodes, node_id);
    let mut steps: Vec<RestoreStep> = Vec::new();
    let mut j: usize = 0;
    while j < nodes.len()
        invariant
            j <= nodes.len(),
            ids == link_ids(nodes@),
            par == link_parents(nodes@),
            id_seq(subtree@) == descendants_spec(ids, par, node_id@),
            steps@ == restore_steps_upto(ids, par, node_id@, j as int),
        decreases nodes.len() - j,
    {
        let gone = nodes[j].node_id.same_as(node_id) || contains_id(&subtree, &nodes[j].node_id);
        if gone {
            let parent_inside = match &nodes[j].parent_id {
                Some(p) => p.same_as(node_id) || contains_id(&subtree, p),
                None => false,
            };
            steps.push(RestoreStep { position: j, parent_inside });
        }
        j += 1;
    }
    Ok(steps)
}

// ---------------------------------------------------------------------------
// Removal and re-creation
// ---------------------------------------------------------------------------

/// The elements of `s` from position `i` on whose position is not in `excl`.
pub open spec fn sub_from<T>(s: Seq<T>, excl: Set<int>, i: int) -> Seq<T>
    decreases s.len() - i,
{
    if i < 0 || i >= s.len() {
        Seq::empty()
    } else if excl.contains(i) {
        sub_from(s, excl, i + 1)
    } else {
        seq![s[i]] + sub_from(s, excl, i + 1)
    }
}

/// What a removal keeps: the unmarked elements, in order.
pub open spec fn kept_nodes<T>(s: Seq<T>, mask: Seq<bool>) -> Seq<T> {
    sub_from(s, Set::new(|j: int| 0 <= j < mask.len() && mask[j]), 0)
}

/// `list` with `s[p]` inserted back at position `p` (or at the end when the
/// list is shorter) for every `p` of `positions`, in order.
pub open spec fn reinsert<T>(list: Seq<T>, s: Seq<T>, positions: Seq<int>) -> Seq<T>
    decreases positions.len(),
{
    if positions.len() == 0 {
        list
    } else {
        let l = reinsert(list, s, positions.drop_last());
        let p = positions.last();
        l.insert(if p <= l.len() { p } else { l.len() as int }, s[p])
    }
}

/// A stretch with no excluded position is kept whole.
pub proof fn lemma_sub_from_prefix<T>(s: Seq<T>, excl: Set<int>, i: int, p: int)
    requires
        0 <= i <= p <= s.len(),
        forall|e: int| excl.contains(e) ==> !(i <= e < p),
    ensures
        sub_from(s, excl, i) == s.subrange(i, p) + sub_from(s, excl, p),
    decreases p - i,
{
    if i < p {
        lemma_sub_from_prefix(s, excl, i + 1, p);
        assert(s.subrange(i, p) =~= seq![s[i]] + s.subrange(i + 1, p));
        assert(seq![s[i]] + (s.subrange(i + 1, p) + sub_from(s, excl, p)) =~= (seq![s[i]] + s.subrange(i + 1, p))
            + sub_from(s, excl, p));
    } else {
        assert(s.subrange(i, p) =~= Seq::<T>::empty());
        assert(Seq::<T>::empty() + sub_from(s, excl, p) =~= sub_from(s, excl, p));
    }
}

/// Exclusions that agree from `i` on keep the same elements from `i` on.
pub proof fn lemma_sub_from_same_tail<T>(s: Seq<T>, a: Set<int>, b: Set<int>, i: int)
    requires
        forall|e: int| i <= e < s.len() ==> (a.contains(e) <==> b.contains(e)),
    ensures
        sub_from(s, a, i) == sub_from(s, b, i),
    decreases s.len() - i,
{
    if 0 <= i < s.len() {
        lemma_sub_from_same_tail(s, a, b, i + 1);
    }
}

/// With nothing excluded, everything from `i` on is kept.
pub proof fn lemma_sub_from_all<T>(s: Seq<T>, i: int)
    requires
        0 <= i <= s.len(),
    ensures
        sub_from(s, Set::empty(), i) == s.subrange(i, s.len() as int),
    decreases s.len() - i,
{
    if i < s.len() {
        lemma_sub_from_all(s, i + 1);
        assert(s.subrange(i, s.len() as int) =~= seq![s[i]] + s.subrange(i + 1, s.len() as int));
    } else {
        assert(s.subrange(i, s.len() as int) =~= Seq::<T>::empty());
    }
}

/// The positions of `positions` from index `t` on.
pub open spec fn pending(positions: Seq<int>, t: int) -> Set<int> {
    Set::new(|e: int| exists|k: int| t <= k < positions.len() && positions[k] == e)
}

proof fn lemma_reinsert_step<T>(list: Seq<T>, s: Seq<T>, positions: Seq<int>, t: int)
    requires
        0 <= t <= positions.len(),
        forall|a: int, b: int| 0 <= a < b < positions.len() ==> positions[a] < positions[b],
        forall|k: int| 0 <= k < positions.len() ==> 0 <= #[trigger] positions[k] < s.len(),
        list == sub_from(s, pending(positions, 0), 0),
    ensures
        reinsert(list, s, positions.take(t)) == sub_from(s, pending(positions, t), 0),
    decreases t,
{
    if t == 0 {
        assert(positions.take(0) =~= Seq::<int>::empty());
    } else {
        lemma_reinsert_step(list, s, positions, t - 1);
        let pre = positions.take(t);
        assert(pre.drop_last() =~= positions.take(t - 1));
        let p = positions[t - 1];
        assert(pre.last() == p);
        let l = reinsert(list, s, positions.take(t - 1));
        let before = pending(positions, t - 1);
        let after = pending(positions, t);
        assert forall|e: int| before.contains(e) implies !(0 <= e < p) by {
            let k = choose|k: int| t - 1 <= k < positions.len() && positions[k] == e;
            if k > t - 1 {
                assert(positions[t - 1] < positions[k]);
            }
        }
        assert forall|e: int| after.contains(e) implies !(0 <= e < p + 1) by {
            let k = choose|k: int| t <= k < positions.len() && positions[k] == e;
            assert(positions[t - 1] < positions[k]);
        }
        lemma_sub_from_prefix(s, before, 0, p);
        lemma_sub_from_prefix(s, after, 0, p);
        assert(before.contains(p)) by {
            assert(t - 1 <= t - 1 < positions.len() && positions[t - 1] == p);
        }
        assert(!after.contains(p));
        lemma_sub_from_same_tail(s, before, after, p + 1);
        assert(sub_from(s, before, p) == sub_from(s, before, p + 1));
        assert(sub_from(s, after, p) == seq![s[p]] + sub_from(s, after, p + 1));
        assert(l.len() >= p);
        assert(l.insert(p, s[p]) =~= s.subrange(0, p) + (seq![s[p]] + sub_from(s, after, p + 1)));
    }
}

/// Re-inserting the removed elements at their former positions, in
/// ascending order, into what the removal kept gives back the starting
/// sequence.
pub proof fn law_reinsert_rebuilds<T>(s: Seq<T>, mask: Seq<bool>, positions: Seq<int>)
    requires
        mask.len() == s.len(),
        forall|a: int, b: int| 0 <= a < b < positions.len() ==> positions[a] < positions[b],
        forall|k: int| 0 <= k < positions.len() ==> 0 <= #[trigger] positions[k] < s.len(),
        forall|j: int| 0 <= j < s.len() ==> (mask[j] <==> positions.contains(j)),
    ensures
        reinsert(kept_nodes(s, mask), s, positions) == s,
{
    let marked = Set::new(|j: int| 0 <= j < mask.len() && mask[j]);
    assert forall|e: int| 0 <= e < s.len() implies (marked.contains(e) <==> pending(positions, 0).contains(e)) by {
        if positions.contains(e) {
            let k = choose|k: int| 0 <= k < positions.len() && positions[k] == e;
            assert(pending(positions, 0).contains(e));
        }
        if pending(positions, 0).contains(e) {
            let k = choose|k: int| 0 <= k < positions.len() && positions[k] == e;
            assert(positions.contains(e));
        }
    }
    lemma_sub_from_same_tail(s, marked, pending(positions, 0), 0);
    lemma_reinsert_step(kept_nodes(s, mask), s, positions, positions.len() as int);
    assert(positions.take(positions.len() as int) =~= positions);
    assert(pending(positions, positions.len() as int) =~= Set::<int>::empty());
    lemma_sub_from_all(s, 0);
    assert(s.subrange(0, s.len() as int) =~= s);
}

/// The positions of a re-creation plan.
pub open spec fn step_positions(steps: Seq<RestoreStep>) -> Seq<int> {
    steps.map_values(|st: RestoreStep| st.position as int)
}

/// The plan lists exactly the removed positions, in ascending order, and
/// flags exactly the nodes whose parent was removed too; so re-inserting the
/// planned nodes into what the removal kept rebuilds the list
/// (`law_reinsert_rebuilds`).
pub proof fn law_restore_plan_positions(ids: Seq<Seq<char>>, par: Seq<Option<Seq<char>>>, id: Seq<char>, k: int)
    requires
        0 <= k <= ids.len(),
        k <= usize::MAX,
    ensures
        ({
            let steps = restore_steps_upto(ids, par, id, k);
            let ps = step_positions(steps);
            &&& forall|a: int, b: int| 0 <= a < b < ps.len() ==> ps[a] < ps[b]
            &&& forall|i: int| 0 <= i < ps.len() ==> 0 <= #[trigger] ps[i] < k
            &&& forall|j: int| 0 <= j < k ==> (removed_with(ids, par, id, ids[j]) <==> ps.contains(j))
            &&& forall|i: int|
                0 <= i < steps.len() ==> (#[trigger] steps[i]).parent_inside == (par[steps[i].position as int] matches Some(
                    p,
                ) && removed_with(ids, par, id, p))
        }),
    decreases k,
{
    if k > 0 {
        law_restore_plan_positions(ids, par, id, k - 1);
        let prev = restore_steps_upto(ids, par, id, k - 1);
        let steps = restore_steps_upto(ids, par, id, k);
        let pp = step_positions(prev);
        let ps = step_positions(steps);
        if removed_with(ids, par, id, ids[k - 1]) {
            assert(ps =~= pp.push(k - 1));
            assert forall|j: int| 0 <= j < k implies (removed_with(ids, par, id, ids[j]) <==> ps.contains(j)) by {
                if j < k - 1 {
                    if pp.contains(j) {
                        let t = choose|t: int| 0 <= t < pp.len() && pp[t] == j;
                        assert(ps[t] == j);
                    }
                    if ps.contains(j) {
                        let t = choose|t: int| 0 <= t < ps.len() && ps[t] == j;
                        assert(t < pp.len());
                        assert(pp[t] == j);
                    }
                } else {
                    assert(ps[pp.len() as int] == j);
                }
            }
        } else {
            assert(ps =~= pp);
            assert forall|j: int| 0 <= j < k implies (removed_with(ids, par, id, ids[j]) <==> ps.contains(j)) by {
                if j == k - 1 && ps.contains(j) {
                    let t = choose|t: int| 0 <= t < ps.len() && ps[t] == j;
                    assert(pp[t] < k - 1);
                }
            }
        }
    }
}

} // verus!
