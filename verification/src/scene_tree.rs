//! Queries and edits over the parent links of persisted scene nodes.
//!
//! A `NodeLink` is what the hierarchy reads of a persisted node: its id and
//! the id of its parent. Validation and evaluation order go through the
//! topology of `hierarchy`; the walks up and down the tree and the guarded
//! reparenting live here.
use vstd::prelude::*;

use crate::hierarchy::{
    bfs_order, first_index, id_views, ints, lemma_distinct_indices_bounded, lemma_first_index_scan, parent_views, resolve_topology, topology_outcome, HierarchyError,
    HierarchyErrorView,
};
use crate::ids::NodeId;

verus! {

/// The hierarchy-relevant part of a persisted scene node.
#[derive(Debug, Clone, PartialEq, Eq)]
pub struct NodeLink {
    /// Id of the node.
    pub node_id: NodeId,
    /// Id of its parent (`None` for a scene root).
    pub parent_id: Option<NodeId>,
}

/// The view of an optional id.
pub open spec fn opt_view(o: Option<NodeId>) -> Option<Seq<char>> {
    match o {
        Some(id) => Some(id@),
        None => None,
    }
}

/// The ids of the nodes, in order.
pub open spec fn link_ids(nodes: Seq<NodeLink>) -> Seq<Seq<char>> {
    nodes.map_values(|n: NodeLink| n.node_id@)
}

/// The parent ids of the nodes, in order.
pub open spec fn link_parents(nodes: Seq<NodeLink>) -> Seq<Option<Seq<char>>> {
    nodes.map_values(|n: NodeLink| opt_view(n.parent_id))
}

impl NodeLink {
    /// A scene root.
    pub fn root(node_id: NodeId) -> (link: NodeLink)
        ensures
            link.node_id@ == node_id@,
            link.parent_id is None,
    {
        NodeLink { node_id, parent_id: None }
    }

    /// A node attached to `parent`.
    pub fn child_of(node_id: NodeId, parent: NodeId) -> (link: NodeLink)
        ensures
            link.node_id@ == node_id@,
            opt_view(link.parent_id) == Some(parent@),
    {
        NodeLink { node_id, parent_id: Some(parent) }
    }
}

/// The ids and parent ids of the nodes, as strings.
fn link_strings(nodes: &[NodeLink]) -> (r: (Vec<String>, Vec<Option<String>>))
    ensures
        id_views(r.0@) == link_ids(nodes@),
        parent_views(r.1@) == link_parents(nodes@),
        r.0.len() == r.1.len() == nodes.len(),
{
    let mut ids: Vec<String> = Vec::new();
    let mut parents: Vec<Option<String>> = Vec::new();
    let mut i: usize = 0;
    while i < nodes.len()
        invariant
            i <= nodes.len(),
            ids.len() == i,
            parents.len() == i,
            forall|k: int| 0 <= k < i ==> (#[trigger] ids@[k])@ == nodes@[k].node_id@,
            forall|k: int|
                0 <= k < i ==> parent_views(parents@)[k] == opt_view(#[trigger] nodes@[k].parent_id),
        decreases nodes.len() - i,
    {
        ids.push(nodes[i].node_id.duplicate().into_string());
        let p = match &nodes[i].parent_id {
            Some(p) => Some(p.duplicate().into_string()),
            None => None,
        };
        parents.push(p);
        proof {
            assert forall|k: int| 0 <= k < i + 1 implies parent_views(parents@)[k] == opt_view(
                #[trigger] nodes@[k].parent_id,
            ) by {
                if k < i {
                    assert(parent_views(parents@)[k] == parent_views(parents@.drop_last())[k]);
                }
            }
        }
        i += 1;
    }
    assert(id_views(ids@) =~= link_ids(nodes@));
    assert(parent_views(parents@) =~= link_parents(nodes@));
    (ids, parents)
}

/// Validates the persisted tree: unique ids, existing parents, no node its
/// own parent, no cycle.
pub fn validate_hierarchy(nodes: &[NodeLink]) -> (r: Result<(), HierarchyError>)
    ensures
        topology_outcome(
            link_ids(nodes@),
            link_parents(nodes@),
            match r {
                Ok(_) => Ok(bfs_order(link_ids(nodes@), link_parents(nodes@))),
                Err(e) => Err(e@),
            },
        ),
{
    let (ids, parents) = link_strings(nodes);
    match resolve_topology(ids.as_slice(), parents.as_slice()) {
        Ok(_) => Ok(()),
        Err(e) => Err(e),
    }
}

/// Evaluation order of the nodes (parents before children), as indices
/// into `nodes`.
pub fn hierarchy_order(nodes: &[NodeLink]) -> (r: Result<Vec<usize>, HierarchyError>)
    ensures
        topology_outcome(
            link_ids(nodes@),
            link_parents(nodes@),
            match r {
                Ok(order) => Ok(ints(order@)),
                Err(e) => Err(e@),
            },
        ),
{
    let (ids, parents) = link_strings(nodes);
    match resolve_topology(ids.as_slice(), parents.as_slice()) {
        Ok(t) => Ok(t.order),
        Err(e) => Err(e),
    }
}

/// `true` when the node declares no parent.
pub fn is_root(node: &NodeLink) -> (b: bool)
    ensures
        b == node.parent_id is None,
{
    node.parent_id.is_none()
}

// ---------------------------------------------------------------------------
// Walking up: ancestors and depth
// ---------------------------------------------------------------------------

/// The views of a list of ids.
pub open spec fn id_seq(v: Seq<NodeId>) -> Seq<Seq<char>> {
    v.map_values(|i: NodeId| i@)
}

/// Index of the last occurrence of `x`, or `-1`.
pub open spec fn last_index<A>(s: Seq<A>, x: A) -> int
    decreases s.len(),
{
    if s.len() == 0 {
        -1
    } else if s.last() == x {
        s.len() - 1
    } else {
        last_index(s.drop_last(), x)
    }
}

/// The parent recorded for the node named `x`; when several nodes carry the
/// name, the last one declared is the one looked up.
pub open spec fn recorded_parent(ids: Seq<Seq<char>>, par: Seq<Option<Seq<char>>>, x: Seq<char>) -> Option<
    Seq<char>,
> {
    if last_index(ids, x) >= 0 {
        par[last_index(ids, x)]
    } else {
        None
    }
}

/// `chain` is the walk up from the node named `x`: its parent, that node's
/// parent, and so on, stopping at a node with no recorded parent or before
/// the first name that would repeat.
pub open spec fn ancestor_chain(
    ids: Seq<Seq<char>>,
    par: Seq<Option<Seq<char>>>,
    x: Seq<char>,
    chain: Seq<Seq<char>>,
) -> bool {
    &&& chain.no_duplicates()
    &&& chain.len() == 0 ==> recorded_parent(ids, par, x) is None
    &&& chain.len() > 0 ==> recorded_parent(ids, par, x) == Some(chain[0])
    &&& forall|k: int|
        0 <= k < chain.len() - 1 ==> recorded_parent(ids, par, #[trigger] chain[k]) == Some(chain[k + 1])
    &&& chain.len() > 0 ==> match recorded_parent(ids, par, chain.last()) {
        Some(next) => chain.contains(next),
        None => true,
    }
}

/// `last_index` points at the last occurrence.
pub proof fn lemma_last_index_facts<A>(s: Seq<A>, x: A)
    ensures
        -1 <= last_index(s, x) < s.len(),
        last_index(s, x) >= 0 ==> s[last_index(s, x)] == x,
        forall|j: int| last_index(s, x) < j < s.len() ==> s[j] != x,
    decreases s.len(),
{
    if s.len() > 0 && s.last() != x {
        lemma_last_index_facts(s.drop_last(), x);
        assert forall|j: int| last_index(s, x) < j < s.len() implies s[j] != x by {
            if j < s.len() - 1 {
                assert(s[j] == s.drop_last()[j]);
            }
        }
    }
}

proof fn lemma_last_index_scan<A>(s: Seq<A>, x: A, k: int)
    requires
        0 <= k <= s.len(),
        forall|j: int| k <= j < s.len() ==> s[j] != x,
    ensures
        k > 0 && s[k - 1] == x ==> last_index(s, x) == k - 1,
        k == 0 ==> last_index(s, x) == -1,
    decreases s.len(),
{
    if s.len() > 0 && k < s.len() {
        lemma_last_index_scan(s.drop_last(), x, k);
    } else if s.len() > 0 && k == s.len() && s.last() != x {
        lemma_last_index_scan(s.drop_last(), x, k - 1);
    }
}

/// Two walks up from the same node are the same walk.
pub proof fn lemma_ancestor_chain_unique(
    ids: Seq<Seq<char>>,
    par: Seq<Option<Seq<char>>>,
    x: Seq<char>,
    a: Seq<Seq<char>>,
    b: Seq<Seq<char>>,
)
    requires
        ancestor_chain(ids, par, x, a),
        ancestor_chain(ids, par, x, b),
    ensures
        a == b,
{
    let m = if a.len() < b.len() { a.len() } else { b.len() };
    assert forall|k: int| 0 <= k < m implies a[k] == b[k] by {
        lemma_chain_prefix(ids, par, x, a, b, k);
    }
    if a.len() < b.len() {
        if a.len() == 0 {
            assert(false);
        } else {
            assert(recorded_parent(ids, par, a.last()) == Some(b[a.len() as int]));
            let t = choose|t: int| 0 <= t < a.len() && a[t] == b[a.len() as int];
            assert(b[t] == b[a.len() as int]);
            assert(false);
        }
    } else if b.len() < a.len() {
        if b.len() == 0 {
            assert(false);
        } else {
            assert(recorded_parent(ids, par, b.last()) == Some(a[b.len() as int]));
            let t = choose|t: int| 0 <= t < b.len() && b[t] == a[b.len() as int];
            assert(a[t] == a[b.len() as int]);
            assert(false);
        }
    }
    assert(a =~= b);
}

proof fn lemma_chain_prefix(
    ids: Seq<Seq<char>>,
    par: Seq<Option<Seq<char>>>,
    x: Seq<char>,
    a: Seq<Seq<char>>,
    b: Seq<Seq<char>>,
    k: int,
)
    requires
        ancestor_chain(ids, par, x, a),
        ancestor_chain(ids, par, x, b),
        0 <= k < a.len(),
        k < b.len(),
    ensures
        a[k] == b[k],
    decreases k,
{
    if k > 0 {
        lemma_chain_prefix(ids, par, x, a, b, k - 1);
        assert(recorded_parent(ids, par, a[k - 1]) == Some(a[k]));
        assert(recorded_parent(ids, par, b[k - 1]) == Some(b[k]));
    }
}

/// Position of the last node named `x`.
pub fn last_position(nodes: &[NodeLink], x: &NodeId) -> (r: Option<usize>)
    ensures
        match r {
            Some(i) => i < nodes.len() && last_index(link_ids(nodes@), x@) == i,
            None => last_index(link_ids(nodes@), x@) == -1,
        },
{
    let ghost ids = link_ids(nodes@);
    let mut i: usize = nodes.len();
    while i > 0
        invariant
            i <= nodes.len() == ids.len(),
            ids == link_ids(nodes@),
            forall|j: int| i <= j < ids.len() ==> ids[j] != x@,
        decreases i,
    {
        if nodes[i - 1].node_id.same_as(x) {
            proof {
                lemma_last_index_scan(ids, x@, i as int);
            }
            return Some(i - 1);
        }
        i -= 1;
    }
    proof {
        lemma_last_index_scan(ids, x@, 0);
    }
    None
}

/// The parent recorded for the node named `x`, and the position it was read from.
fn recorded_parent_of(nodes: &[NodeLink], x: &NodeId) -> (r: (Option<NodeId>, Ghost<int>))
    ensures
        opt_view(r.0) == recorded_parent(link_ids(nodes@), link_parents(nodes@), x@),
        r.0 is Some ==> 0 <= r.1@ < nodes.len() && link_parents(nodes@)[r.1@] == opt_view(r.0),
{
    match last_position(nodes, x) {
        Some(i) => {
            let p = match &nodes[i].parent_id {
                Some(p) => Some(p.duplicate()),
                None => None,
            };
            (p, Ghost(i as int))
        },
        None => (None, Ghost(0)),
    }
}

/// `true` when a node of `list` is named `x`.
pub fn contains_id(list: &Vec<NodeId>, x: &NodeId) -> (b: bool)
    ensures
        b == id_seq(list@).contains(x@),
{
    let mut i: usize = 0;
    while i < list.len()
        invariant
            i <= list.len(),
            forall|j: int| 0 <= j < i ==> id_seq(list@)[j] != x@,
        decreases list.len() - i,
    {
        if list[i].same_as(x) {
            assert(id_seq(list@)[i as int] == x@);
            return true;
        }
        i += 1;
    }
    false
}

/// Ancestors of a node, from its parent up to the root.
///
/// A defective chain (a cycle) stops before the first repeated name instead
/// of looping; reporting the defect is validation's job.
pub fn ancestors_of(nodes: &[NodeLink], id: &NodeId) -> (chain: Vec<NodeId>)
    ensures
        ancestor_chain(link_ids(nodes@), link_parents(nodes@), id@, id_seq(chain@)),
{
    let ghost ids = link_ids(nodes@);
    let ghost par = link_parents(nodes@);
    let ghost n = nodes.len() as int;
    let mut chain: Vec<NodeId> = Vec::new();
    let (first, Ghost(j0)) = recorded_parent_of(nodes, id);
    let mut cursor = first;
    let ghost mut jc: int = j0;
    let ghost mut js: Seq<int> = Seq::empty();
    loop
        invariant
            ids == link_ids(nodes@),
            par == link_parents(nodes@),
            n == nodes.len() == ids.len() == par.len(),
            id_seq(chain@).no_duplicates(),
            chain.len() <= n,
            js.len() == chain.len(),
            forall|k: int| 0 <= k < js.len() ==> 0 <= #[trigger] js[k] < n,
            forall|k: int| 0 <= k < js.len() ==> par[#[trigger] js[k]] == Some(id_seq(chain@)[k]),
            cursor is Some ==> 0 <= jc < n && par[jc] == opt_view(cursor),
            chain.len() == 0 ==> opt_view(cursor) == recorded_parent(ids, par, id@),
            chain.len() > 0 ==> recorded_parent(ids, par, id@) == Some(id_seq(chain@)[0]),
            chain.len() > 0 ==> opt_view(cursor) == recorded_parent(ids, par, id_seq(chain@).last()),
            forall|k: int|
                0 <= k < chain.len() - 1 ==> recorded_parent(ids, par, #[trigger] id_seq(chain@)[k]) == Some(
                    id_seq(chain@)[k + 1],
                ),
        ensures
            ancestor_chain(ids, par, id@, id_seq(chain@)),
        decreases n - chain.len(),
    {
        let parent = match cursor {
            Some(p) => p,
            None => {
                break;
            },
        };
        if contains_id(&chain, &parent) {
            break;
        }
        let (next, Ghost(jn)) = recorded_parent_of(nodes, &parent);
        let ghost before = id_seq(chain@);
        let ghost jp = jc;
        chain.push(parent);
        proof {
            assert(id_seq(chain@) =~= before.push(parent@));
            js = js.push(jp);
            jc = jn;
            assert forall|a: int, b: int| 0 <= a < js.len() && 0 <= b < js.len() && a != b implies js[a] != js[b] by {
                if js[a] == js[b] {
                    assert(id_seq(chain@)[a] == id_seq(chain@)[b]);
                }
            }
            assert(js.no_duplicates());
            lemma_distinct_indices_bounded(js, n);
        }
        cursor = next;
    }
    chain
}

/// Depth of a node in the tree (a root has depth 0): the length of its walk up.
pub fn depth_of(nodes: &[NodeLink], id: &NodeId) -> (d: usize)
    ensures
        exists|c: Seq<Seq<char>>|
            #[trigger] ancestor_chain(link_ids(nodes@), link_parents(nodes@), id@, c) && c.len() == d,
        forall|c: Seq<Seq<char>>|
            #[trigger] ancestor_chain(link_ids(nodes@), link_parents(nodes@), id@, c) ==> c.len() == d,
{
    let chain = ancestors_of(nodes, id);
    proof {
        assert forall|c: Seq<Seq<char>>|
            #[trigger] ancestor_chain(link_ids(nodes@), link_parents(nodes@), id@, c) implies c.len() == chain.len() by {
            lemma_ancestor_chain_unique(link_ids(nodes@), link_parents(nodes@), id@, c, id_seq(chain@));
        }
    }
    chain.len()
}

// ---------------------------------------------------------------------------
// Walking down: descendants
// ---------------------------------------------------------------------------

/// Names of the nodes, among the first `k`, whose parent is `x`, in
/// declaration order.
pub open spec fn child_names_upto(ids: Seq<Seq<char>>, par: Seq<Option<Seq<char>>>, x: Seq<char>, k: int) -> Seq<
    Seq<char>,
>
    decreases k,
{
    if k <= 0 {
        Seq::empty()
    } else if par[k - 1] == Some(x) {
        child_names_upto(ids, par, x, k - 1).push(ids[k - 1])
    } else {
        child_names_upto(ids, par, x, k - 1)
    }
}

/// Names of the nodes whose parent is `x`, in declaration order.
pub open spec fn child_names(ids: Seq<Seq<char>>, par: Seq<Option<Seq<char>>>, x: Seq<char>) -> Seq<Seq<char>> {
    child_names_upto(ids, par, x, ids.len() as int)
}

/// The children of every name of `xs`, in the order of `xs`.
pub open spec fn expand_names(ids: Seq<Seq<char>>, par: Seq<Option<Seq<char>>>, xs: Seq<Seq<char>>) -> Seq<
    Seq<char>,
>
    decreases xs.len(),
{
    if xs.len() == 0 {
        Seq::empty()
    } else {
        expand_names(ids, par, xs.drop_last()) + child_names(ids, par, xs.last())
    }
}

/// Breadth-first level `k` below the node named `root` (level 0 is `root`).
pub open spec fn name_level(ids: Seq<Seq<char>>, par: Seq<Option<Seq<char>>>, root: Seq<char>, k: nat) -> Seq<
    Seq<char>,
>
    decreases k,
{
    if k == 0 {
        seq![root]
    } else {
        expand_names(ids, par, name_level(ids, par, root, (k - 1) as nat))
    }
}

/// Levels `1 ..= k` below `root`, one after the other.
pub open spec fn descendants_upto(ids: Seq<Seq<char>>, par: Seq<Option<Seq<char>>>, root: Seq<char>, k: nat) -> Seq<
    Seq<char>,
>
    decreases k,
{
    if k == 0 {
        Seq::empty()
    } else {
        descendants_upto(ids, par, root, (k - 1) as nat) + name_level(ids, par, root, k)
    }
}

/// The breadth-first walk down from `root` comes to an end: some level is empty.
pub open spec fn subtree_finite(ids: Seq<Seq<char>>, par: Seq<Option<Seq<char>>>, root: Seq<char>) -> bool {
    exists|d: nat| #[trigger] name_level(ids, par, root, d).len() == 0
}

/// All descendants of `root`, breadth first, declaration order among siblings.
pub open spec fn descendants_spec(ids: Seq<Seq<char>>, par: Seq<Option<Seq<char>>>, root: Seq<char>) -> Seq<
    Seq<char>,
> {
    descendants_upto(ids, par, root, choose|d: nat| #[trigger] name_level(ids, par, root, d).len() == 0)
}

/// Once a level is empty, every later level is empty and the walk is complete.
pub proof fn lemma_empty_level_stays(ids: Seq<Seq<char>>, par: Seq<Option<Seq<char>>>, root: Seq<char>, k: nat, e: nat)
    requires
        name_level(ids, par, root, k).len() == 0,
        k <= e,
    ensures
        name_level(ids, par, root, e).len() == 0,
        descendants_upto(ids, par, root, e) == descendants_upto(ids, par, root, k),
    decreases e - k,
{
    if e > k {
        lemma_empty_level_stays(ids, par, root, k, (e - 1) as nat);
        assert(name_level(ids, par, root, e) =~= Seq::<Seq<char>>::empty());
        assert(descendants_upto(ids, par, root, e) =~= descendants_upto(ids, par, root, (e - 1) as nat));
    }
}

/// Any empty level gives the complete walk.
pub proof fn lemma_descendants_at_empty_level(ids: Seq<Seq<char>>, par: Seq<Option<Seq<char>>>, root: Seq<char>, k: nat)
    requires
        name_level(ids, par, root, k).len() == 0,
    ensures
        descendants_spec(ids, par, root) == descendants_upto(ids, par, root, k),
{
    let d = choose|d: nat| #[trigger] name_level(ids, par, root, d).len() == 0;
    if d <= k {
        lemma_empty_level_stays(ids, par, root, d, k);
    } else {
        lemma_empty_level_stays(ids, par, root, k, d);
    }
}

/// Ids of the nodes whose parent is `x`, in declaration order.
fn children_named(nodes: &[NodeLink], x: &NodeId) -> (out: Vec<NodeId>)
    ensures
        id_seq(out@) == child_names(link_ids(nodes@), link_parents(nodes@), x@),
{
    let ghost ids = link_ids(nodes@);
    let ghost par = link_parents(nodes@);
    let mut out: Vec<NodeId> = Vec::new();
    let mut j: usize = 0;
    while j < nodes.len()
        invariant
            j <= nodes.len(),
            ids == link_ids(nodes@),
            par == link_parents(nodes@),
            id_seq(out@) == child_names_upto(ids, par, x@, j as int),
        decreases nodes.len() - j,
    {
        let is_child = match &nodes[j].parent_id {
            Some(p) => p.same_as(x),
            None => false,
        };
        if is_child {
            out.push(nodes[j].node_id.duplicate());
            assert(id_seq(out@) =~= child_names_upto(ids, par, x@, j as int).push(ids[j as int]));
        }
        j += 1;
    }
    out
}

/// The children of every node of `level`, in order.
fn expand_level(nodes: &[NodeLink], level: &Vec<NodeId>) -> (out: Vec<NodeId>)
    ensures
        id_seq(out@) == expand_names(link_ids(nodes@), link_parents(nodes@), id_seq(level@)),
{
    let ghost ids = link_ids(nodes@);
    let ghost par = link_parents(nodes@);
    let mut out: Vec<NodeId> = Vec::new();
    let mut i: usize = 0;
    while i < level.len()
        invariant
            i <= level.len(),
            ids == link_ids(nodes@),
            par == link_parents(nodes@),
            id_seq(out@) == expand_names(ids, par, id_seq(level@).take(i as int)),
        decreases level.len() - i,
    {
        let children = children_named(nodes, &level[i]);
        let ghost before = id_seq(out@);
        let mut c: usize = 0;
        while c < children.len()
            invariant
                c <= children.len(),
                id_seq(out@) == before + id_seq(children@).take(c as int),
            decreases children.len() - c,
        {
            let ghost prev = id_seq(out@);
            out.push(children[c].duplicate());
            assert(id_seq(out@) =~= prev.push(id_seq(children@)[c as int]));
            assert(id_seq(children@).take(c as int + 1) =~= id_seq(children@).take(c as int).push(
                id_seq(children@)[c as int],
            ));
            assert(id_seq(out@) =~= before + id_seq(children@).take(c as int + 1));
            c += 1;
        }
        proof {
            let taken = id_seq(level@).take(i as int + 1);
            assert(taken.drop_last() =~= id_seq(level@).take(i as int));
            assert(taken.last() == level@[i as int]@);
            assert(id_seq(children@).take(children.len() as int) =~= id_seq(children@));
        }
        i += 1;
    }
    assert(id_seq(level@).take(level.len() as int) =~= id_seq(level@));
    out
}

/// Descendants of a node, breadth first, siblings in declaration order.
pub fn descendants_of(nodes: &[NodeLink], id: &NodeId) -> (out: Vec<NodeId>)
    requires
        subtree_finite(link_ids(nodes@), link_parents(nodes@), id@),
    ensures
        id_seq(out@) == descendants_spec(link_ids(nodes@), link_parents(nodes@), id@),
{
    let ghost ids = link_ids(nodes@);
    let ghost par = link_parents(nodes@);
    let ghost d = choose|d: nat| #[trigger] name_level(ids, par, id@, d).len() == 0;
    let mut out: Vec<NodeId> = Vec::new();
    let mut current: Vec<NodeId> = Vec::new();
    current.push(id.duplicate());
    let ghost mut k: nat = 0;
    assert(id_seq(current@) =~= name_level(ids, par, id@, 0));
    while current.len() > 0
        invariant
            ids == link_ids(nodes@),
            par == link_parents(nodes@),
            name_level(ids, par, id@, d).len() == 0,
            k <= d,
            id_seq(current@) == name_level(ids, par, id@, k),
            id_seq(out@) == descendants_upto(ids, par, id@, k),
        decreases d - k,
    {
        let next = expand_level(nodes, &current);
        let ghost before = id_seq(out@);
        let mut c: usize = 0;
        while c < next.len()
            invariant
                c <= next.len(),
                id_seq(out@) == before + id_seq(next@).take(c as int),
            decreases next.len() - c,
        {
            let ghost prev = id_seq(out@);
            out.push(next[c].duplicate());
            assert(id_seq(out@) =~= prev.push(id_seq(next@)[c as int]));
            assert(id_seq(next@).take(c as int + 1) =~= id_seq(next@).take(c as int).push(id_seq(next@)[c as int]));
            assert(id_seq(out@) =~= before + id_seq(next@).take(c as int + 1));
            c += 1;
        }
        proof {
            assert(id_seq(next@).take(next.len() as int) =~= id_seq(next@));
            k = k + 1;
        }
        current = next;
    }
    proof {
        lemma_descendants_at_empty_level(ids, par, id@, k);
    }
    out
}

// ---------------------------------------------------------------------------
// Reparenting
// ---------------------------------------------------------------------------

/// The view of an optional borrowed id.
pub open spec fn opt_ref_view(o: Option<&NodeId>) -> Option<Seq<char>> {
    match o {
        Some(id) => Some(id@),
        None => None,
    }
}

/// The path reported when a reparent would close a cycle.
pub open spec fn reparent_cycle_path(id: Seq<char>, parent: Seq<char>) -> Seq<char> {
    id + " -> ... -> "@ + parent + " -> "@ + id
}

/// What reparenting the node named `id` under `parent` answers: the previous
/// parent of the first node so named, or the first check that fails.
pub open spec fn reparent_outcome(
    ids: Seq<Seq<char>>,
    par: Seq<Option<Seq<char>>>,
    id: Seq<char>,
    parent: Option<Seq<char>>,
) -> Result<Option<Seq<char>>, HierarchyErrorView> {
    if first_index(ids, id) < 0 {
        Err(HierarchyErrorView::UnknownNode { node: id })
    } else {
        match parent {
            Some(p) => if p == id {
                Err(HierarchyErrorView::SelfParent { node: id })
            } else if first_index(ids, p) < 0 {
                Err(HierarchyErrorView::UnknownParent { node: id, parent: p })
            } else if descendants_spec(ids, par, id).contains(p) {
                Err(HierarchyErrorView::Cycle { path: reparent_cycle_path(id, p) })
            } else {
                Ok(par[first_index(ids, id)])
            },
            None => Ok(par[first_index(ids, id)]),
        }
    }
}

/// The reparent reaches the subtree walk: the node exists and the new
/// parent is another existing node.
pub open spec fn reparent_walks_subtree(ids: Seq<Seq<char>>, id: Seq<char>, parent: Option<Seq<char>>) -> bool {
    &&& first_index(ids, id) >= 0
    &&& parent matches Some(p) && p != id && first_index(ids, p) >= 0
}

/// Position of the first node named `x`.
pub fn first_position(nodes: &[NodeLink], x: &NodeId) -> (r: Option<usize>)
    ensures
        match r {
            Some(i) => i < nodes.len() && first_index(link_ids(nodes@), x@) == i,
            None => first_index(link_ids(nodes@), x@) == -1,
        },
{
    let ghost ids = link_ids(nodes@);
    let mut i: usize = 0;
    while i < nodes.len()
        invariant
            i <= nodes.len() == ids.len(),
            ids == link_ids(nodes@),
            forall|j: int| 0 <= j < i ==> ids[j] != x@,
        decreases nodes.len() - i,
    {
        if nodes[i].node_id.same_as(x) {
            proof {
                lemma_first_index_scan(ids, x@, i as int);
            }
            return Some(i);
        }
        i += 1;
    }
    proof {
        lemma_first_index_scan(ids, x@, i as int);
    }
    None
}

/// Reparents a node, guaranteeing that no cycle is born.
///
/// Fails, leaving the nodes untouched, when the node is unknown, when the new
/// parent is the node itself, is unknown, or lies in the node's subtree. On
/// success the first node with that id takes the new parent and the previous
/// one is returned (what an undo needs).
pub fn reparent_checked(nodes: &mut [NodeLink], id: &NodeId, parent: Option<&NodeId>) -> (r: Result<
    Option<NodeId>,
    HierarchyError,
>)
    requires
        reparent_walks_subtree(link_ids(old(nodes)@), id@, opt_ref_view(parent)) ==> subtree_finite(
            link_ids(old(nodes)@),
            link_parents(old(nodes)@),
            id@,
        ),
    ensures
        match r {
            Ok(previous) => reparent_outcome(
                link_ids(old(nodes)@),
                link_parents(old(nodes)@),
                id@,
                opt_ref_view(parent),
            ) == Ok::<Option<Seq<char>>, HierarchyErrorView>(opt_view(previous)),
            Err(e) => reparent_outcome(link_ids(old(nodes)@), link_parents(old(nodes)@), id@, opt_ref_view(parent))
                == Err::<Option<Seq<char>>, HierarchyErrorView>(e@),
        },
        r is Err ==> final(nodes)@ == old(nodes)@,
        r is Ok ==> link_ids(final(nodes)@) == link_ids(old(nodes)@),
        r is Ok ==> link_parents(final(nodes)@) == link_parents(old(nodes)@).update(
            first_index(link_ids(old(nodes)@), id@),
            opt_ref_view(parent),
        ),
{
    let ghost ids = link_ids(nodes@);
    let ghost par = link_parents(nodes@);
    let index = match first_position(nodes, id) {
        Some(i) => i,
        None => {
            return Err(HierarchyError::UnknownNode { node: id.duplicate().into_string() });
        },
    };
    if let Some(p) = parent {
        if p.same_as(id) {
            return Err(HierarchyError::SelfParent { node: id.duplicate().into_string() });
        }
        if first_position(nodes, p).is_none() {
            return Err(
                HierarchyError::UnknownParent {
                    node: id.duplicate().into_string(),
                    parent: p.duplicate().into_string(),
                },
            );
        }
        let subtree = descendants_of(nodes, id);
        if contains_id(&subtree, p) {
            let mut path = String::new();
            path.append(id.as_str());
            path.append(" -> ... -> ");
            path.append(p.as_str());
            path.append(" -> ");
            path.append(id.as_str());
            return Err(HierarchyError::Cycle { path });
        }
    }
    let previous = match &nodes[index].parent_id {
        Some(q) => Some(q.duplicate()),
        None => None,
    };
    let new_parent = match parent {
        Some(p) => Some(p.duplicate()),
        None => None,
    };
    let link = NodeLink { node_id: nodes[index].node_id.duplicate(), parent_id: new_parent };
    nodes[index] = link;
    proof {
        assert(link_ids(nodes@) =~= ids);
        assert(link_parents(nodes@) =~= par.update(index as int, opt_ref_view(parent)));
    }
    Ok(previous)
}

// ---------------------------------------------------------------------------
// Direct children
// ---------------------------------------------------------------------------

/// Positions, among the first `k` nodes, of those whose parent is `parent`
/// (`None`: the roots), in declaration order.
pub open spec fn children_positions(par: Seq<Option<Seq<char>>>, parent: Option<Seq<char>>, k: int) -> Seq<int>
    decreases k,
{
    if k <= 0 {
        Seq::empty()
    } else if par[k - 1] == parent {
        children_positions(par, parent, k - 1).push(k - 1)
    } else {
        children_positions(par, parent, k - 1)
    }
}

/// Positions of the direct children of `parent` (`None`: the roots), in
/// declaration order. The list is derived from the parent links alone.
pub fn children_of(nodes: &[NodeLink], parent: Option<&NodeId>) -> (out: Vec<usize>)
    ensures
        ints(out@) == children_positions(link_parents(nodes@), opt_ref_view(parent), nodes.len() as int),
{
    let ghost par = link_parents(nodes@);
    let mut out: Vec<usize> = Vec::new();
    let mut j: usize = 0;
    while j < nodes.len()
        invariant
            j <= nodes.len(),
            par == link_parents(nodes@),
            ints(out@) == children_positions(par, opt_ref_view(parent), j as int),
        decreases nodes.len() - j,
    {
        let matches_parent = match (&nodes[j].parent_id, parent) {
            (Some(p), Some(q)) => p.same_as(q),
            (None, None) => true,
            _ => false,
        };
        if matches_parent {
            out.push(j);
            assert(ints(out@) =~= children_positions(par, opt_ref_view(parent), j as int).push(j as int));
        }
        j += 1;
    }
    out
}

/// Positions of the root nodes (no parent declared), in declaration order.
pub fn roots(nodes: &[NodeLink]) -> (out: Vec<usize>)
    ensures
        ints(out@) == children_positions(link_parents(nodes@), None, nodes.len() as int),
{
    children_of(nodes, None)
}

impl NodeLink {
    /// `true` when this node is the direct parent of `candidate`.
    pub fn is_parent_of(&self, candidate: &NodeLink) -> (b: bool)
        ensures
            b == (opt_view(candidate.parent_id) == Some(self.node_id@)),
    {
        match &candidate.parent_id {
            Some(p) => p.same_as(&self.node_id),
            None => false,
        }
    }
}

// ---------------------------------------------------------------------------
// Child lists
// ---------------------------------------------------------------------------

/// Position of the node that the parent id of node `j` names (the last
/// node so named), or `-1` for a root or an unknown parent.
pub open spec fn resolved_parent(ids: Seq<Seq<char>>, par: Seq<Option<Seq<char>>>, j: int) -> int {
    match par[j] {
        Some(x) => last_index(ids, x),
        None => -1,
    }
}

/// Names of the children recorded for the node at position `p` among the
/// first `k` nodes, in declaration order.
pub open spec fn child_list_upto(ids: Seq<Seq<char>>, par: Seq<Option<Seq<char>>>, p: int, k: int) -> Seq<
    Seq<char>,
>
    decreases k,
{
    if k <= 0 {
        Seq::empty()
    } else if resolved_parent(ids, par, k - 1) == p {
        child_list_upto(ids, par, p, k - 1).push(ids[k - 1])
    } else {
        child_list_upto(ids, par, p, k - 1)
    }
}

/// The child list of every node, derived from the parent links alone: node
/// `j` is listed under the node its parent id names, in declaration order;
/// a parent id that names no node lists it nowhere.
pub fn rebuild_children(nodes: &[NodeLink]) -> (children: Vec<Vec<NodeId>>)
    ensures
        children.len() == nodes.len(),
        forall|p: int|
            0 <= p < nodes.len() ==> id_seq(#[trigger] children@[p]@) == child_list_upto(
                link_ids(nodes@),
                link_parents(nodes@),
                p,
                nodes.len() as int,
            ),
{
    let ghost ids = link_ids(nodes@);
    let ghost par = link_parents(nodes@);
    let n = nodes.len();
    let mut children: Vec<Vec<NodeId>> = Vec::new();
    let mut i: usize = 0;
    while i < n
        invariant
            i <= n == nodes.len(),
            children.len() == i,
            forall|p: int| 0 <= p < i ==> (#[trigger] children@[p]@).len() == 0,
        decreases n - i,
    {
        children.push(Vec::new());
        i += 1;
    }
    let mut j: usize = 0;
    while j < n
        invariant
            j <= n == nodes.len() == ids.len() == par.len(),
            ids == link_ids(nodes@),
            par == link_parents(nodes@),
            children.len() == n,
            forall|p: int|
                0 <= p < n ==> id_seq(#[trigger] children@[p]@) == child_list_upto(ids, par, p, j as int),
        decreases n - j,
    {
        let resolved = match &nodes[j].parent_id {
            Some(x) => last_position(nodes, x),
            None => None,
        };
        let ghost before = children@;
        if let Some(pi) = resolved {
            let id = nodes[j].node_id.duplicate();
            children[pi].push(id);
            proof {
                assert forall|p: int| 0 <= p < n implies id_seq(#[trigger] children@[p]@) == child_list_upto(
                    ids,
                    par,
                    p,
                    j as int + 1,
                ) by {
                    if p == pi {
                        assert(id_seq(children@[p]@) =~= id_seq(before[p]@).push(ids[j as int]));
                    } else {
                        assert(children@[p] == before[p]);
                    }
                }
            }
        } else {
            proof {
                assert forall|p: int| 0 <= p < n implies id_seq(#[trigger] children@[p]@) == child_list_upto(
                    ids,
                    par,
                    p,
                    j as int + 1,
                ) by {
                    assert(resolved_parent(ids, par, j as int) == -1);
                }
            }
        }
        j += 1;
    }
    children
}

/// With distinct ids, the child list recorded for node `p` is exactly the
/// nodes whose parent id is the id of `p`, in declaration order: the lists
/// are a cache of the parent links and say nothing more.
pub proof fn law_child_lists_follow_parent_links(
    ids: Seq<Seq<char>>,
    par: Seq<Option<Seq<char>>>,
    p: int,
    k: int,
)
    requires
        crate::hierarchy::unique_ids(ids),
        ids.len() == par.len(),
        0 <= p < ids.len(),
        0 <= k <= ids.len(),
    ensures
        child_list_upto(ids, par, p, k) == children_positions(par, Some(ids[p]), k).map_values(|j: int| ids[j]),
    decreases k,
{
    if k > 0 {
        law_child_lists_follow_parent_links(ids, par, p, k - 1);
        let prev = children_positions(par, Some(ids[p]), k - 1);
        match par[k - 1] {
            Some(x) => {
                lemma_last_index_facts(ids, x);
                if x == ids[p] {
                    assert(last_index(ids, x) == p) by {
                        if last_index(ids, x) != p {
                            assert(last_index(ids, x) >= 0);
                            if last_index(ids, x) < p {
                                assert(ids[last_index(ids, x)] == ids[p]);
                            }
                        }
                    }
                } else if last_index(ids, x) == p {
                    assert(ids[p] == x);
                }
            },
            None => {},
        }
        if par[k - 1] == Some(ids[p]) {
            assert(children_positions(par, Some(ids[p]), k) == prev.push(k - 1));
            assert(prev.push(k - 1).map_values(|j: int| ids[j]) =~= prev.map_values(|j: int| ids[j]).push(
                ids[k - 1],
            ));
        }
    }
}

} // verus!
