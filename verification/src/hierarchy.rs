//! Scene hierarchy: the parent/child topology of scene nodes.
//!
//! A node names its parent by id (`None` = scene root). The tree is valid when
//! ids are unique, every parent exists, no node is its own parent and every
//! parent chain ends at a root. Evaluation order is breadth first from the
//! roots, roots and siblings in declaration order, so that every consumer
//! composes world transforms in the same, reproducible order.
use vstd::prelude::*;

use crate::text::{chars_eq, chars_of, decimal, decimal_string, lower_all, push_char, to_ascii_lower, trim, trim_chars};

verus! {

// ---------------------------------------------------------------------------
// Node kinds
// ---------------------------------------------------------------------------

/// Specialised type of a scene node.
#[derive(Debug, Clone, Copy, PartialEq, Eq, Hash)]
pub enum NodeKind {
    /// Root of the character: owner of the deformed mesh and canonical material.
    CharacterRoot,
    /// Bone of the humanoid skeleton.
    HumanoidBone,
    /// Garment that follows the body bones.
    Clothing,
    /// Hair strands that follow the head.
    Hair,
    /// Accessory attached to a bone or node.
    Accessory,
    /// Loose/static mesh: set dressing, props, blocking.
    Mesh,
    /// Scene light.
    Light,
    /// Scene camera.
    Camera,
    /// Grouping node without geometry of its own.
    Group,
}


impl Default for NodeKind {
    fn default() -> (k: Self)
        ensures
            k == NodeKind::Mesh,
    {
        NodeKind::Mesh
    }
}

/// Canonical `snake_case` name of a node kind (the JSON/TypeScript name).
pub open spec fn kind_name(k: NodeKind) -> Seq<char> {
    match k {
        NodeKind::CharacterRoot => "character_root"@,
        NodeKind::HumanoidBone => "humanoid_bone"@,
        NodeKind::Clothing => "clothing"@,
        NodeKind::Hair => "hair"@,
        NodeKind::Accessory => "accessory"@,
        NodeKind::Mesh => "mesh"@,
        NodeKind::Light => "light"@,
        NodeKind::Camera => "camera"@,
        NodeKind::Group => "group"@,
    }
}

/// Tolerant normalization used by `NodeKind::parse`: trimmed, ASCII
/// lower-cased, `-` and space become `_`.
pub open spec fn kind_key(value: Seq<char>) -> Seq<char> {
    lower_all(trim(value)).map_values(|c: char| if c == '-' || c == ' ' { '_' } else { c })
}

impl NodeKind {
    /// Every kind, in canonical order.
    pub const ALL: [NodeKind; 9] = [
        NodeKind::CharacterRoot,
        NodeKind::HumanoidBone,
        NodeKind::Clothing,
        NodeKind::Hair,
        NodeKind::Accessory,
        NodeKind::Mesh,
        NodeKind::Light,
        NodeKind::Camera,
        NodeKind::Group,
    ];

    /// Canonical name in `snake_case` (the same as the JSON and TypeScript).
    pub fn as_str(self) -> (s: &'static str)
        ensures
            s@ == kind_name(self),
    {
        match self {
            NodeKind::CharacterRoot => "character_root",
            NodeKind::HumanoidBone => "humanoid_bone",
            NodeKind::Clothing => "clothing",
            NodeKind::Hair => "hair",
            NodeKind::Accessory => "accessory",
            NodeKind::Mesh => "mesh",
            NodeKind::Light => "light",
            NodeKind::Camera => "camera",
            NodeKind::Group => "group",
        }
    }

    /// Tolerant parse (case-insensitive, `-`/space accepted as `_`).
    pub fn parse(value: &str) -> (r: Option<NodeKind>)
        ensures
            match r {
                Some(k) => kind_name(k) == kind_key(value@),
                None => forall|k: NodeKind| kind_name(k) != kind_key(value@),
            },
    {
        let raw = chars_of(value);
        let trimmed = trim_chars(raw.as_slice());
        let mut key: Vec<char> = Vec::new();
        let mut i: usize = 0;
        while i < trimmed.len()
            invariant
                i <= trimmed.len(),
                key@ =~= lower_all(trimmed@.take(i as int)).map_values(
                    |c: char| if c == '-' || c == ' ' { '_' } else { c },
                ),
            decreases trimmed.len() - i,
        {
            let c = to_ascii_lower(trimmed[i]);
            key.push(if c == '-' || c == ' ' { '_' } else { c });
            i += 1;
        }
        assert(trimmed@.take(trimmed.len() as int) =~= trimmed@);
        assert(key@ == kind_key(value@));
        let mut j: usize = 0;
        while j < 9
            invariant
                j <= 9,
                key@ == kind_key(value@),
                forall|t: int| 0 <= t < j ==> kind_name(#[trigger] Self::ALL@[t]) != key@,
            decreases 9 - j,
        {
            let kind = Self::ALL[j];
            let name = chars_of(kind.as_str());
            if chars_eq(name.as_slice(), key.as_slice()) {
                return Some(kind);
            }
            j += 1;
        }
        proof {
            assert forall|k: NodeKind| kind_name(k) != kind_key(value@) by {
                let t: int = match k {
                    NodeKind::CharacterRoot => 0,
                    NodeKind::HumanoidBone => 1,
                    NodeKind::Clothing => 2,
                    NodeKind::Hair => 3,
                    NodeKind::Accessory => 4,
                    NodeKind::Mesh => 5,
                    NodeKind::Light => 6,
                    NodeKind::Camera => 7,
                    NodeKind::Group => 8,
                };
                assert(Self::ALL@[t] == k);
            }
        }
        None
    }

    /// `true` for nodes dressed on / attached to the body (clothing, hair,
    /// accessory): they follow the armature.
    pub fn is_attachment(self) -> (b: bool)
        ensures
            b == (self == NodeKind::Clothing || self == NodeKind::Hair || self
                == NodeKind::Accessory),
    {
        match self {
            NodeKind::Clothing | NodeKind::Hair | NodeKind::Accessory => true,
            _ => false,
        }
    }

    /// `true` for nodes that carry geometry of their own.
    pub fn carries_geometry(self) -> (b: bool)
        ensures
            b == !(self == NodeKind::Light || self == NodeKind::Camera || self == NodeKind::Group),
    {
        match self {
            NodeKind::CharacterRoot | NodeKind::HumanoidBone | NodeKind::Clothing
            | NodeKind::Hair | NodeKind::Accessory | NodeKind::Mesh => true,
            _ => false,
        }
    }
}


// ---------------------------------------------------------------------------
// Errors
// ---------------------------------------------------------------------------

/// Structural failure of the scene tree.
#[derive(Debug, Clone, PartialEq, Eq)]
pub enum HierarchyError {
    /// Two nodes declare the same id (also used for inconsistent input lengths).
    DuplicateNodeId(String),
    /// The node named does not exist in the scene.
    UnknownNode { node: String },
    /// `parent_id` names the node itself.
    SelfParent { node: String },
    /// `parent_id` names a node that does not exist in the scene.
    UnknownParent { node: String, parent: String },
    /// The parent chain closes a cycle (`a -> b -> c -> a`).
    Cycle { path: String },
}

// ---------------------------------------------------------------------------
// Topology model: `ids[i]` is the id of node `i`, `par[i]` its parent's id.
// ---------------------------------------------------------------------------

/// Index of the first occurrence of `x`, or `-1`.
pub open spec fn first_index<A>(s: Seq<A>, x: A) -> int
    decreases s.len(),
{
    if s.len() == 0 {
        -1
    } else if s[0] == x {
        0
    } else {
        let rest = first_index(s.drop_first(), x);
        if rest < 0 {
            -1
        } else {
            rest + 1
        }
    }
}

/// Node `j` repeats the id of an earlier node.
pub open spec fn repeats_earlier(ids: Seq<Seq<char>>, j: int) -> bool {
    exists|i: int| 0 <= i < j && ids[i] == ids[j]
}

/// All ids are distinct.
pub open spec fn unique_ids(ids: Seq<Seq<char>>) -> bool {
    forall|i: int, j: int| 0 <= i < j < ids.len() ==> ids[i] != ids[j]
}

/// Node `i` names itself as parent.
pub open spec fn self_parent(ids: Seq<Seq<char>>, par: Seq<Option<Seq<char>>>, i: int) -> bool {
    par[i] == Some(ids[i])
}

/// Node `i` names a parent that is not a node of the scene.
pub open spec fn unknown_parent(ids: Seq<Seq<char>>, par: Seq<Option<Seq<char>>>, i: int) -> bool {
    match par[i] {
        Some(p) => first_index(ids, p) < 0,
        None => false,
    }
}

/// Node `i` has a parent reference that cannot be resolved.
pub open spec fn parent_fault(ids: Seq<Seq<char>>, par: Seq<Option<Seq<char>>>, i: int) -> bool {
    self_parent(ids, par, i) || unknown_parent(ids, par, i)
}

/// No node has an unresolvable parent reference.
pub open spec fn parents_resolve(ids: Seq<Seq<char>>, par: Seq<Option<Seq<char>>>) -> bool {
    forall|i: int| 0 <= i < ids.len() ==> !parent_fault(ids, par, i)
}

/// Index of the parent of node `i` (`None` for a root or an unknown parent).
pub open spec fn parent_of(ids: Seq<Seq<char>>, par: Seq<Option<Seq<char>>>, i: int) -> Option<int> {
    match par[i] {
        Some(p) => if first_index(ids, p) >= 0 {
            Some(first_index(ids, p))
        } else {
            None
        },
        None => None,
    }
}

/// The `k`-th ancestor of node `i` (`Some(i)` for `k == 0`).
pub open spec fn ancestor_at(ids: Seq<Seq<char>>, par: Seq<Option<Seq<char>>>, i: int, k: nat) -> Option<int>
    decreases k,
{
    if k == 0 {
        Some(i)
    } else {
        match parent_of(ids, par, i) {
            Some(p) => ancestor_at(ids, par, p, (k - 1) as nat),
            None => None,
        }
    }
}

/// The `d`-th ancestor of node `i` exists and is a root.
pub open spec fn root_at(ids: Seq<Seq<char>>, par: Seq<Option<Seq<char>>>, i: int, d: nat) -> bool {
    ancestor_at(ids, par, i, d) matches Some(a) && par[a] is None
}

/// The parent chain of node `i` ends at a root within `ids.len()` steps.
pub open spec fn reaches_root(ids: Seq<Seq<char>>, par: Seq<Option<Seq<char>>>, i: int) -> bool {
    exists|d: nat|
        d < ids.len() && #[trigger] root_at(ids, par, i, d)
}

/// Every parent chain ends at a root: the parent relation has no cycle.
pub open spec fn acyclic(ids: Seq<Seq<char>>, par: Seq<Option<Seq<char>>>) -> bool {
    forall|i: int| 0 <= i < ids.len() ==> reaches_root(ids, par, i)
}

/// A valid scene tree.
pub open spec fn valid_tree(ids: Seq<Seq<char>>, par: Seq<Option<Seq<char>>>) -> bool {
    &&& ids.len() == par.len()
    &&& unique_ids(ids)
    &&& parents_resolve(ids, par)
    &&& acyclic(ids, par)
}

/// Children of node `p` among the first `k` nodes, in declaration order.
pub open spec fn children_upto(ids: Seq<Seq<char>>, par: Seq<Option<Seq<char>>>, p: int, k: int) -> Seq<int>
    decreases k,
{
    if k <= 0 {
        Seq::empty()
    } else if parent_of(ids, par, k - 1) == Some(p) {
        children_upto(ids, par, p, k - 1).push(k - 1)
    } else {
        children_upto(ids, par, p, k - 1)
    }
}

/// Children of node `p`, in declaration order.
pub open spec fn children_of_index(ids: Seq<Seq<char>>, par: Seq<Option<Seq<char>>>, p: int) -> Seq<int> {
    children_upto(ids, par, p, ids.len() as int)
}

/// Roots among the first `k` nodes, in declaration order.
pub open spec fn roots_upto(par: Seq<Option<Seq<char>>>, k: int) -> Seq<int>
    decreases k,
{
    if k <= 0 {
        Seq::empty()
    } else if par[k - 1] is None {
        roots_upto(par, k - 1).push(k - 1)
    } else {
        roots_upto(par, k - 1)
    }
}

/// The children of every node of `ps`, in the order of `ps`.
pub open spec fn expand(ids: Seq<Seq<char>>, par: Seq<Option<Seq<char>>>, ps: Seq<int>) -> Seq<int>
    decreases ps.len(),
{
    if ps.len() == 0 {
        Seq::empty()
    } else {
        expand(ids, par, ps.drop_last()) + children_of_index(ids, par, ps.last())
    }
}

/// Breadth-first level `d`: the roots, then the children of level `d - 1`.
pub open spec fn level(ids: Seq<Seq<char>>, par: Seq<Option<Seq<char>>>, d: nat) -> Seq<int>
    decreases d,
{
    if d == 0 {
        roots_upto(par, par.len() as int)
    } else {
        expand(ids, par, level(ids, par, (d - 1) as nat))
    }
}

/// Levels `0 .. d` one after the other.
pub open spec fn levels_upto(ids: Seq<Seq<char>>, par: Seq<Option<Seq<char>>>, d: nat) -> Seq<int>
    decreases d,
{
    if d == 0 {
        Seq::empty()
    } else {
        levels_upto(ids, par, (d - 1) as nat) + level(ids, par, (d - 1) as nat)
    }
}

/// Evaluation order: breadth first from the roots, declaration order among
/// roots and among siblings.
pub open spec fn bfs_order(ids: Seq<Seq<char>>, par: Seq<Option<Seq<char>>>) -> Seq<int> {
    levels_upto(ids, par, ids.len() as nat)
}

/// `usize` indices as integers.
pub open spec fn ints(v: Seq<usize>) -> Seq<int> {
    v.map_values(|x: usize| x as int)
}

/// Views of a list of string ids.
pub open spec fn id_views(v: Seq<String>) -> Seq<Seq<char>> {
    v.map_values(|s: String| s@)
}

/// Views of a list of optional string ids.
pub open spec fn parent_views(v: Seq<Option<String>>) -> Seq<Option<Seq<char>>> {
    v.map_values(|o: Option<String>| match o {
        Some(s) => Some(s@),
        None => None,
    })
}

// ---------------------------------------------------------------------------
// Topology lemmas
// ---------------------------------------------------------------------------

pub proof fn lemma_first_index_scan<A>(s: Seq<A>, x: A, k: int)
    requires
        0 <= k <= s.len(),
        forall|j: int| 0 <= j < k ==> s[j] != x,
    ensures
        k < s.len() && s[k] == x ==> first_index(s, x) == k,
        k == s.len() ==> first_index(s, x) == -1,
    decreases k,
{
    if k > 0 {
        lemma_first_index_scan(s.drop_first(), x, k - 1);
    }
}

/// `first_index` points at the first occurrence.
pub proof fn lemma_first_index_facts<A>(s: Seq<A>, x: A)
    ensures
        -1 <= first_index(s, x) < s.len(),
        first_index(s, x) >= 0 ==> s[first_index(s, x)] == x,
        first_index(s, x) < 0 ==> forall|j: int| 0 <= j < s.len() ==> s[j] != x,
        forall|j: int| 0 <= j < first_index(s, x) ==> s[j] != x,
    decreases s.len(),
{
    if s.len() > 0 {
        lemma_first_index_facts(s.drop_first(), x);
        if s[0] != x {
            assert forall|j: int| 0 <= j < s.len() && first_index(s, x) < 0 implies s[j] != x by {
                if j > 0 {
                    assert(s[j] == s.drop_first()[j - 1]);
                }
            }
            assert forall|j: int| 0 <= j < first_index(s, x) implies s[j] != x by {
                if j > 0 {
                    assert(s[j] == s.drop_first()[j - 1]);
                }
            }
        }
    }
}

/// Membership in `children_upto`.
proof fn lemma_children_upto(ids: Seq<Seq<char>>, par: Seq<Option<Seq<char>>>, p: int, k: int, c: int)
    requires
        0 <= k,
    ensures
        children_upto(ids, par, p, k).contains(c) <==> (0 <= c < k && parent_of(ids, par, c) == Some(p)),
        forall|a: int| 0 <= a < children_upto(ids, par, p, k).len() ==> 0 <= #[trigger] children_upto(ids, par, p, k)[a] < k,
    decreases k,
{
    if k > 0 {
        lemma_children_upto(ids, par, p, k - 1, c);
        let prev = children_upto(ids, par, p, k - 1);
        if parent_of(ids, par, k - 1) == Some(p) {
            assert(prev.push(k - 1).contains(c) <==> (prev.contains(c) || c == k - 1)) by {
                if c == k - 1 {
                    assert(prev.push(k - 1)[prev.len() as int] == c);
                }
                if prev.push(k - 1).contains(c) && c != k - 1 {
                    let a = choose|a: int| 0 <= a < prev.push(k - 1).len() && #[trigger] prev.push(k - 1)[a] == c;
                    assert(prev[a] == c);
                }
                if prev.contains(c) {
                    let a = choose|a: int| 0 <= a < prev.len() && #[trigger] prev[a] == c;
                    assert(prev.push(k - 1)[a] == c);
                }
            }
        }
    }
}

/// Membership in `roots_upto`.
proof fn lemma_roots_upto(par: Seq<Option<Seq<char>>>, k: int, c: int)
    requires
        0 <= k <= par.len(),
    ensures
        roots_upto(par, k).contains(c) <==> (0 <= c < k && par[c] is None),
        forall|a: int| 0 <= a < roots_upto(par, k).len() ==> 0 <= #[trigger] roots_upto(par, k)[a] < k,
    decreases k,
{
    if k > 0 {
        lemma_roots_upto(par, k - 1, c);
        let prev = roots_upto(par, k - 1);
        if par[k - 1] is None {
            assert(prev.push(k - 1).contains(c) <==> (prev.contains(c) || c == k - 1)) by {
                if c == k - 1 {
                    assert(prev.push(k - 1)[prev.len() as int] == c);
                }
                if prev.push(k - 1).contains(c) && c != k - 1 {
                    let a = choose|a: int| 0 <= a < prev.push(k - 1).len() && #[trigger] prev.push(k - 1)[a] == c;
                    assert(prev[a] == c);
                }
                if prev.contains(c) {
                    let a = choose|a: int| 0 <= a < prev.len() && #[trigger] prev[a] == c;
                    assert(prev.push(k - 1)[a] == c);
                }
            }
        }
    }
}

/// Membership in `expand`.
proof fn lemma_expand(ids: Seq<Seq<char>>, par: Seq<Option<Seq<char>>>, ps: Seq<int>, c: int)
    ensures
        expand(ids, par, ps).contains(c) <==> (0 <= c < ids.len() && exists|p: int|
            #[trigger] ps.contains(p) && parent_of(ids, par, c) == Some(p)),
    decreases ps.len(),
{
    if ps.len() > 0 {
        let front = ps.drop_last();
        let last = ps.last();
        lemma_expand(ids, par, front, c);
        lemma_children_upto(ids, par, last, ids.len() as int, c);
        let a = expand(ids, par, front);
        let b = children_of_index(ids, par, last);
        assert((a + b).contains(c) <==> (a.contains(c) || b.contains(c))) by {
            if (a + b).contains(c) {
                let t = choose|t: int| 0 <= t < (a + b).len() && #[trigger] (a + b)[t] == c;
                if t < a.len() {
                    assert(a[t] == c);
                } else {
                    assert(b[t - a.len()] == c);
                }
            }
            if a.contains(c) {
                let t = choose|t: int| 0 <= t < a.len() && #[trigger] a[t] == c;
                assert((a + b)[t] == c);
            }
            if b.contains(c) {
                let t = choose|t: int| 0 <= t < b.len() && #[trigger] b[t] == c;
                assert((a + b)[t + a.len()] == c);
            }
        }
        if exists|p: int| #[trigger] ps.contains(p) && parent_of(ids, par, c) == Some(p) {
            let p = choose|p: int| #[trigger] ps.contains(p) && parent_of(ids, par, c) == Some(p);
            if p != last {
                let t = choose|t: int| 0 <= t < ps.len() && #[trigger] ps[t] == p;
                assert(t < ps.len() - 1);
                assert(front[t] == p);
                assert(front.contains(p));
            }
        }
        if a.contains(c) {
            let p = choose|p: int| #[trigger] front.contains(p) && parent_of(ids, par, c) == Some(p);
            let t = choose|t: int| 0 <= t < front.len() && #[trigger] front[t] == p;
            assert(ps[t] == p);
            assert(ps.contains(p));
        }
        if b.contains(c) {
            assert(ps[ps.len() - 1] == last);
            assert(ps.contains(last));
        }
    }
}

/// Node `c` is on breadth-first level `d` exactly when its `d`-th ancestor
/// is a root.
pub proof fn lemma_level_membership(ids: Seq<Seq<char>>, par: Seq<Option<Seq<char>>>, d: nat, c: int)
    requires
        ids.len() == par.len(),
    ensures
        level(ids, par, d).contains(c) <==> (0 <= c < ids.len() && root_at(ids, par, c, d)),
    decreases d,
{
    if d == 0 {
        lemma_roots_upto(par, par.len() as int, c);
    } else {
        let prev = level(ids, par, (d - 1) as nat);
        lemma_expand(ids, par, prev, c);
        if 0 <= c < ids.len() {
            match parent_of(ids, par, c) {
                Some(p) => {
                    lemma_level_membership(ids, par, (d - 1) as nat, p);
                    lemma_first_index_facts(ids, par[c]->0);
                    if level(ids, par, d).contains(c) {
                        let q = choose|q: int| #[trigger] prev.contains(q) && parent_of(ids, par, c) == Some(q);
                        assert(q == p);
                    }
                },
                None => {},
            }
        }
    }
}

/// Node `c` appears among levels `0 .. d` exactly when its parent chain
/// reaches a root in fewer than `d` steps.
pub proof fn lemma_levels_upto_membership(ids: Seq<Seq<char>>, par: Seq<Option<Seq<char>>>, d: nat, c: int)
    requires
        ids.len() == par.len(),
    ensures
        levels_upto(ids, par, d).contains(c) <==> (0 <= c < ids.len() && exists|e: nat|
            e < d && #[trigger] root_at(ids, par, c, e)),
    decreases d,
{
    if d > 0 {
        let front = levels_upto(ids, par, (d - 1) as nat);
        let last = level(ids, par, (d - 1) as nat);
        lemma_levels_upto_membership(ids, par, (d - 1) as nat, c);
        lemma_level_membership(ids, par, (d - 1) as nat, c);
        assert((front + last).contains(c) <==> (front.contains(c) || last.contains(c))) by {
            if (front + last).contains(c) {
                let t = choose|t: int| 0 <= t < (front + last).len() && #[trigger] (front + last)[t] == c;
                if t < front.len() {
                    assert(front[t] == c);
                } else {
                    assert(last[t - front.len()] == c);
                }
            }
            if front.contains(c) {
                let t = choose|t: int| 0 <= t < front.len() && #[trigger] front[t] == c;
                assert((front + last)[t] == c);
            }
            if last.contains(c) {
                let t = choose|t: int| 0 <= t < last.len() && #[trigger] last[t] == c;
                assert((front + last)[t + front.len()] == c);
            }
        }
        if 0 <= c < ids.len() && exists|e: nat| e < d && #[trigger] root_at(ids, par, c, e) {
            let e = choose|e: nat| e < d && #[trigger] root_at(ids, par, c, e);
            if e < d - 1 {
                assert(front.contains(c));
            } else {
                assert(last.contains(c));
            }
        }
    }
}


/// Mathematical view of a `HierarchyError`.
pub enum HierarchyErrorView {
    DuplicateNodeId(Seq<char>),
    UnknownNode { node: Seq<char> },
    SelfParent { node: Seq<char> },
    UnknownParent { node: Seq<char>, parent: Seq<char> },
    Cycle { path: Seq<char> },
}

impl View for HierarchyError {
    type V = HierarchyErrorView;

    open spec fn view(&self) -> HierarchyErrorView {
        match self {
            HierarchyError::DuplicateNodeId(id) => HierarchyErrorView::DuplicateNodeId(id@),
            HierarchyError::UnknownNode { node } => HierarchyErrorView::UnknownNode { node: node@ },
            HierarchyError::SelfParent { node } => HierarchyErrorView::SelfParent { node: node@ },
            HierarchyError::UnknownParent { node, parent } => HierarchyErrorView::UnknownParent {
                node: node@,
                parent: parent@,
            },
            HierarchyError::Cycle { path } => HierarchyErrorView::Cycle { path: path@ },
        }
    }
}

/// The text of a hierarchy error.
pub open spec fn hierarchy_message(e: HierarchyErrorView) -> Seq<char> {
    match e {
        HierarchyErrorView::DuplicateNodeId(id) => "duplicated scene node id '"@ + id + "'"@,
        HierarchyErrorView::UnknownNode { node } => "unknown scene node '"@ + node + "'"@,
        HierarchyErrorView::SelfParent { node } => "node '"@ + node + "' cannot be its own parent"@,
        HierarchyErrorView::UnknownParent { node, parent } => "node '"@ + node + "' references unknown parent '"@
            + parent + "'"@,
        HierarchyErrorView::Cycle { path } => "cyclic scene hierarchy: "@ + path,
    }
}

impl HierarchyError {
    /// The text of the error.
    pub fn message(&self) -> (m: String)
        ensures
            m@ == hierarchy_message(self@),
    {
        match self {
            HierarchyError::DuplicateNodeId(id) => {
                let mut m = String::from_str("duplicated scene node id '");
                m.append(id.as_str());
                m.append("'");
                m
            },
            HierarchyError::UnknownNode { node } => {
                let mut m = String::from_str("unknown scene node '");
                m.append(node.as_str());
                m.append("'");
                m
            },
            HierarchyError::SelfParent { node } => {
                let mut m = String::from_str("node '");
                m.append(node.as_str());
                m.append("' cannot be its own parent");
                m
            },
            HierarchyError::UnknownParent { node, parent } => {
                let mut m = String::from_str("node '");
                m.append(node.as_str());
                m.append("' references unknown parent '");
                m.append(parent.as_str());
                m.append("'");
                m
            },
            HierarchyError::Cycle { path } => {
                let mut m = String::from_str("cyclic scene hierarchy: ");
                m.append(path.as_str());
                m
            },
        }
    }
}

/// Evaluation order and resolved parent indices of a valid scene tree.
pub struct Topology {
    /// Node indices, parents before children (breadth first).
    pub order: Vec<usize>,
    /// Index of each node's parent (`None` for roots).
    pub parent_index: Vec<Option<usize>>,
}

/// The ids met walking up from `start`: ancestors `0 .. len`.
pub open spec fn walk_names(ids: Seq<Seq<char>>, par: Seq<Option<Seq<char>>>, start: int, len: nat) -> Seq<Seq<char>> {
    Seq::new(len, |k: int| ids[ancestor_at(ids, par, start, k as nat)->0])
}

/// The separator of a cycle report.
pub open spec fn arrow() -> Seq<char> {
    seq![' ', '-', '>', ' ']
}

/// Names joined with `" -> "`.
pub open spec fn join_arrows(names: Seq<Seq<char>>) -> Seq<char>
    decreases names.len(),
{
    if names.len() == 0 {
        Seq::empty()
    } else if names.len() == 1 {
        names[0]
    } else {
        join_arrows(names.drop_last()) + arrow() + names.last()
    }
}

/// `path` names the parent chain that starts at `start`: the chain is walked
/// up until a node repeats (the repeated node closes the report) or a node
/// has no parent, and the names are listed from the top of the walk down to
/// `start`.
pub open spec fn cycle_report(ids: Seq<Seq<char>>, par: Seq<Option<Seq<char>>>, start: int, path: Seq<char>) -> bool {
    exists|m: nat|
        {
            &&& m >= 1
            &&& forall|k: nat| k < m ==> (#[trigger] ancestor_at(ids, par, start, k)) is Some
            &&& forall|a: nat, b: nat| a < b < m ==> #[trigger] ancestor_at(ids, par, start, a) != #[trigger] ancestor_at(ids, par, start, b)
            &&& {
                ||| (ancestor_at(ids, par, start, m) is None && path == join_arrows(walk_names(ids, par, start, m).reverse()))
                ||| (ancestor_at(ids, par, start, m) is Some && (exists|a: nat| a < m && ancestor_at(ids, par, start, a) == ancestor_at(ids, par, start, m))
                    && path == join_arrows(walk_names(ids, par, start, m + 1).reverse()))
            }
        }
}

/// What the first structural check that fails reports, when one fails.
pub open spec fn topology_outcome(ids: Seq<Seq<char>>, par: Seq<Option<Seq<char>>>, r: Result<Seq<int>, HierarchyErrorView>) -> bool {
    &&& !unique_ids(ids) ==> exists|j: int|
        0 <= j < ids.len() && #[trigger] repeats_earlier(ids, j) && (forall|t: int| 0 <= t < j ==> !repeats_earlier(ids, t))
            && r == Err::<Seq<int>, HierarchyErrorView>(HierarchyErrorView::DuplicateNodeId(ids[j]))
    &&& (unique_ids(ids) && !parents_resolve(ids, par)) ==> exists|i: int|
        0 <= i < ids.len() && #[trigger] parent_fault(ids, par, i) && (forall|t: int| 0 <= t < i ==> !parent_fault(ids, par, t))
            && r == (if self_parent(ids, par, i) {
                Err::<Seq<int>, HierarchyErrorView>(HierarchyErrorView::SelfParent { node: ids[i] })
            } else {
                Err::<Seq<int>, HierarchyErrorView>(HierarchyErrorView::UnknownParent { node: ids[i], parent: par[i]->0 })
            })
    &&& (unique_ids(ids) && parents_resolve(ids, par) && !acyclic(ids, par)) ==> exists|start: int|
        0 <= start < ids.len() && !#[trigger] reaches_root(ids, par, start) && (forall|t: int| 0 <= t < start ==> reaches_root(ids, par, t))
            && r is Err && r->Err_0 is Cycle && cycle_report(ids, par, start, r->Err_0->path)
    &&& (unique_ids(ids) && parents_resolve(ids, par) && acyclic(ids, par)) ==> r == Ok::<Seq<int>, HierarchyErrorView>(bfs_order(ids, par))
}

/// Index of the first node whose id repeats an earlier one.
fn first_repeated_id(ids: &[String]) -> (r: Option<usize>)
    ensures
        match r {
            Some(j) => j < ids.len() && repeats_earlier(id_views(ids@), j as int) && forall|t: int|
                0 <= t < j ==> !repeats_earlier(id_views(ids@), t),
            None => unique_ids(id_views(ids@)),
        },
{
    let n = ids.len();
    let ghost iv = id_views(ids@);
    let mut j: usize = 0;
    while j < n
        invariant
            j <= n == ids.len() == iv.len(),
            iv == id_views(ids@),
            forall|t: int| 0 <= t < j ==> !repeats_earlier(iv, t),
        decreases n - j,
    {
        let mut i: usize = 0;
        while i < j
            invariant
                i <= j < n == ids.len() == iv.len(),
                iv == id_views(ids@),
                forall|t: int| 0 <= t < i ==> iv[t] != iv[j as int],
                forall|t: int| 0 <= t < j ==> !repeats_earlier(iv, t),
            decreases j - i,
        {
            if ids[i] == ids[j] {
                proof {
                    assert(iv[i as int] == ids@[i as int]@);
                    assert(iv[j as int] == ids@[j as int]@);
                    assert(repeats_earlier(iv, j as int));
                }
                return Some(j);
            }
            proof {
                assert(iv[i as int] == ids@[i as int]@);
                assert(iv[j as int] == ids@[j as int]@);
            }
            i += 1;
        }
        j += 1;
    }
    assert(unique_ids(iv)) by {
        assert forall|a: int, b: int| 0 <= a < b < iv.len() implies iv[a] != iv[b] by {
            assert(!repeats_earlier(iv, b));
        }
    }
    None
}

/// `t`-th resolved parent index as an integer option.
pub open spec fn opt_int(o: Option<usize>) -> Option<int> {
    match o {
        Some(p) => Some(p as int),
        None => None,
    }
}

/// Resolves every parent reference to an index, or reports the first faulty one.
fn resolve_parent_indices(ids: &[String], parents: &[Option<String>]) -> (r: Result<Vec<Option<usize>>, HierarchyError>)
    requires
        ids.len() == parents.len(),
    ensures
        match r {
            Ok(pi) => parents_resolve(id_views(ids@), parent_views(parents@)) && pi.len() == ids.len()
                && (forall|t: int| 0 <= t < ids.len() ==> opt_int(#[trigger] pi@[t]) == parent_of(id_views(ids@), parent_views(parents@), t))
                && (forall|t: int| 0 <= t < ids.len() && (#[trigger] pi@[t]) is Some ==> pi@[t]->0 < ids.len()),
            Err(e) => exists|i: int|
                0 <= i < ids.len() && #[trigger] parent_fault(id_views(ids@), parent_views(parents@), i)
                && (forall|t: int| 0 <= t < i ==> !parent_fault(id_views(ids@), parent_views(parents@), t))
                && e@ == (if self_parent(id_views(ids@), parent_views(parents@), i) {
                    HierarchyErrorView::SelfParent { node: id_views(ids@)[i] }
                } else {
                    HierarchyErrorView::UnknownParent { node: id_views(ids@)[i], parent: parent_views(parents@)[i]->0 }
                }),
        },
{
    let n = ids.len();
    let ghost iv = id_views(ids@);
    let ghost pv = parent_views(parents@);
    let mut parent_index: Vec<Option<usize>> = Vec::new();
    let mut i: usize = 0;
    while i < n
        invariant
            i <= n == ids.len() == parents.len() == iv.len() == pv.len(),
            iv == id_views(ids@),
            pv == parent_views(parents@),
            parent_index.len() == i,
            forall|t: int| 0 <= t < i ==> !parent_fault(iv, pv, t),
            forall|t: int| 0 <= t < i ==> opt_int(#[trigger] parent_index@[t]) == parent_of(iv, pv, t),
            forall|t: int| 0 <= t < i && (#[trigger] parent_index@[t]) is Some ==> parent_index@[t]->0 < n,
        decreases n - i,
    {
        proof {
            assert(iv[i as int] == ids@[i as int]@);
        }
        match &parents[i] {
            Some(p) => {
                assert(pv[i as int] == Some(p@));
                if *p == ids[i] {
                    assert(self_parent(id_views(ids@), parent_views(parents@), i as int));
                    assert(parent_fault(id_views(ids@), parent_views(parents@), i as int));
                    return Err(HierarchyError::SelfParent { node: ids[i].clone() });
                }
                let mut k: usize = 0;
                while k < n && !(ids[k] == *p)
                    invariant
                        k <= n == ids.len() == iv.len(),
                        iv == id_views(ids@),
                        forall|t: int| 0 <= t < k ==> iv[t] != p@,
                        i < n == parents.len() == pv.len(),
                        pv == parent_views(parents@),
                        forall|t: int| 0 <= t < i ==> !parent_fault(iv, pv, t),
                    decreases n - k,
                {
                    assert(iv[k as int] == ids@[k as int]@);
                    k += 1;
                }
                proof {
                    if k < n {
                        assert(iv[k as int] == ids@[k as int]@);
                    }
                    lemma_first_index_scan(iv, p@, k as int);
                }
                if k == n {
                    assert(!self_parent(id_views(ids@), parent_views(parents@), i as int));
                    assert(parent_fault(id_views(ids@), parent_views(parents@), i as int));
                    return Err(HierarchyError::UnknownParent { node: ids[i].clone(), parent: p.clone() });
                }
                parent_index.push(Some(k));
            },
            None => {
                assert(pv[i as int] == None::<Seq<char>>);
                parent_index.push(None);
            },
        }
        i += 1;
    }
    Ok(parent_index)
}

/// Children of every node, in declaration order.
fn children_lists(parent_index: &[Option<usize>], Ghost(iv): Ghost<Seq<Seq<char>>>, Ghost(pv): Ghost<Seq<Option<Seq<char>>>>) -> (children: Vec<Vec<usize>>)
    requires
        parent_index.len() == iv.len() == pv.len(),
        forall|t: int| 0 <= t < iv.len() ==> opt_int(#[trigger] parent_index@[t]) == parent_of(iv, pv, t),
    ensures
        children.len() == iv.len(),
        forall|q: int| 0 <= q < iv.len() ==> ints(#[trigger] children@[q]@) == children_of_index(iv, pv, q),
{
    let n = parent_index.len();
    let mut children: Vec<Vec<usize>> = Vec::new();
    let mut p: usize = 0;
    while p < n
        invariant
            p <= n == parent_index.len() == iv.len(),
            forall|t: int| 0 <= t < n ==> opt_int(#[trigger] parent_index@[t]) == parent_of(iv, pv, t),
            children.len() == p,
            forall|q: int| 0 <= q < p ==> ints(#[trigger] children@[q]@) == children_of_index(iv, pv, q),
        decreases n - p,
    {
        let mut list: Vec<usize> = Vec::new();
        let mut c: usize = 0;
        while c < n
            invariant
                c <= n == parent_index.len() == iv.len(),
                p < n,
                forall|t: int| 0 <= t < n ==> opt_int(#[trigger] parent_index@[t]) == parent_of(iv, pv, t),
                ints(list@) == children_upto(iv, pv, p as int, c as int),
            decreases n - c,
        {
            let hit = match parent_index[c] {
                Some(q) => q == p,
                None => false,
            };
            proof {
                assert(opt_int(parent_index@[c as int]) == parent_of(iv, pv, c as int));
            }
            if hit {
                list.push(c);
                assert(ints(list@) =~= children_upto(iv, pv, p as int, c as int).push(c as int));
            }
            c += 1;
        }
        children.push(list);
        p += 1;
    }
    children
}

/// Roots in declaration order.
fn root_list(parents: &[Option<String>]) -> (roots: Vec<usize>)
    ensures
        ints(roots@) == roots_upto(parent_views(parents@), parents.len() as int),
{
    let n = parents.len();
    let ghost pv = parent_views(parents@);
    let mut roots: Vec<usize> = Vec::new();
    let mut c: usize = 0;
    while c < n
        invariant
            c <= n == parents.len() == pv.len(),
            pv == parent_views(parents@),
            ints(roots@) == roots_upto(pv, c as int),
        decreases n - c,
    {
        let is_root = parents[c].is_none();
        assert(is_root == (pv[c as int] is None));
        if is_root {
            roots.push(c);
            assert(ints(roots@) =~= roots_upto(pv, c as int).push(c as int));
        }
        c += 1;
    }
    roots
}

/// Breadth-first levels `0 .. n` and the set of nodes they reach.
fn bfs_levels(children: &Vec<Vec<usize>>, roots: Vec<usize>, Ghost(iv): Ghost<Seq<Seq<char>>>, Ghost(pv): Ghost<Seq<Option<Seq<char>>>>) -> (r: (Vec<usize>, Vec<bool>))
    requires
        children.len() == iv.len() == pv.len(),
        forall|q: int| 0 <= q < iv.len() ==> ints(#[trigger] children@[q]@) == children_of_index(iv, pv, q),
        ints(roots@) == level(iv, pv, 0),
    ensures
        ints(r.0@) == bfs_order(iv, pv),
        r.1.len() == iv.len(),
        forall|t: int| 0 <= t < iv.len() ==> (#[trigger] r.1@[t] <==> bfs_order(iv, pv).contains(t)),
{
    let n = children.len();
    let mut level_now = roots;
    let mut order: Vec<usize> = Vec::new();
    let mut visited: Vec<bool> = Vec::new();
    let mut v: usize = 0;
    while v < n
        invariant
            v <= n,
            visited.len() == v,
            forall|t: int| 0 <= t < v ==> !visited@[t],
        decreases n - v,
    {
        visited.push(false);
        v += 1;
    }
    assert(levels_upto(iv, pv, 0) =~= Seq::<int>::empty());
    let mut d: usize = 0;
    while d < n
        invariant
            d <= n == visited.len() == children.len() == iv.len() == pv.len(),
            forall|q: int| 0 <= q < n ==> ints(#[trigger] children@[q]@) == children_of_index(iv, pv, q),
            ints(order@) == levels_upto(iv, pv, d as nat),
            ints(level_now@) == level(iv, pv, d as nat),
            forall|t: int| 0 <= t < n ==> (#[trigger] visited@[t] <==> ints(order@).contains(t)),
        decreases n - d,
    {
        let mut next: Vec<usize> = Vec::new();
        let mut a: usize = 0;
        while a < level_now.len()
            invariant
                a <= level_now.len(),
                n == visited.len() == children.len() == iv.len() == pv.len(),
                forall|q: int| 0 <= q < n ==> ints(#[trigger] children@[q]@) == children_of_index(iv, pv, q),
                ints(level_now@) == level(iv, pv, d as nat),
                ints(order@) == levels_upto(iv, pv, d as nat) + ints(level_now@).take(a as int),
                ints(next@) == expand(iv, pv, ints(level_now@).take(a as int)),
                forall|t: int| 0 <= t < n ==> (#[trigger] visited@[t] <==> ints(order@).contains(t)),
            decreases level_now.len() - a,
        {
            let x = level_now[a];
            proof {
                assert(ints(level_now@)[a as int] == x as int);
                assert(ints(level_now@).contains(x as int));
                lemma_level_membership(iv, pv, d as nat, x as int);
            }
            let ghost old_order = ints(order@);
            order.push(x);
            visited.set(x, true);
            let kids = &children[x];
            let ghost base = expand(iv, pv, ints(level_now@).take(a as int));
            let mut b: usize = 0;
            while b < kids.len()
                invariant
                    b <= kids.len(),
                    ints(kids@) == children_of_index(iv, pv, x as int),
                    ints(next@) == base + ints(kids@).take(b as int),
                decreases kids.len() - b,
            {
                let ghost old_next = next@;
                next.push(kids[b]);
                assert(ints(next@) =~= ints(old_next).push(kids@[b as int] as int));
                assert(ints(kids@)[b as int] == kids@[b as int] as int);
                assert(ints(kids@).take(b + 1) =~= ints(kids@).take(b as int).push(kids@[b as int] as int));
                assert(ints(next@) =~= base + ints(kids@).take(b + 1));
                b += 1;
            }
            proof {
                let taken = ints(level_now@).take(a + 1);
                assert(taken.drop_last() =~= ints(level_now@).take(a as int));
                assert(taken.last() == x as int);
                assert(ints(kids@).take(kids.len() as int) =~= ints(kids@));
                assert(ints(next@) == expand(iv, pv, taken));
                assert(ints(order@) =~= old_order.push(x as int));
                assert(ints(order@) =~= levels_upto(iv, pv, d as nat) + taken);
                assert forall|t: int| 0 <= t < n implies (#[trigger] visited@[t] <==> ints(order@).contains(t)) by {
                    if t == x as int {
                        assert(ints(order@)[old_order.len() as int] == t);
                    } else {
                        if ints(order@).contains(t) {
                            let w = choose|w: int| 0 <= w < ints(order@).len() && #[trigger] ints(order@)[w] == t;
                            assert(old_order[w] == t);
                        }
                        if old_order.contains(t) {
                            let w = choose|w: int| 0 <= w < old_order.len() && #[trigger] old_order[w] == t;
                            assert(ints(order@)[w] == t);
                        }
                    }
                }
            }
            a += 1;
        }
        proof {
            assert(ints(level_now@).take(level_now.len() as int) =~= ints(level_now@));
        }
        level_now = next;
        d += 1;
    }
    (order, visited)
}

/// One more step up the parent chain.
pub proof fn lemma_ancestor_step(ids: Seq<Seq<char>>, par: Seq<Option<Seq<char>>>, i: int, k: nat)
    ensures
        ancestor_at(ids, par, i, k + 1) == (match ancestor_at(ids, par, i, k) {
            Some(a) => parent_of(ids, par, a),
            None => None,
        }),
    decreases k,
{
    assert(((k + 1) - 1) as nat == k);
    if k == 0 {
        match parent_of(ids, par, i) {
            Some(p) => {
                assert(ancestor_at(ids, par, p, 0) == Some(p));
            },
            None => {},
        }
    } else {
        match parent_of(ids, par, i) {
            Some(p) => {
                lemma_ancestor_step(ids, par, p, (k - 1) as nat);
                assert(((k - 1) + 1) as nat == k);
            },
            None => {},
        }
    }
}

/// A duplicate-free sequence of indices below `n` has at most `n` elements.
pub proof fn lemma_distinct_indices_bounded(s: Seq<int>, n: int)
    requires
        0 <= n,
        s.no_duplicates(),
        forall|k: int| 0 <= k < s.len() ==> 0 <= #[trigger] s[k] < n,
    ensures
        s.len() <= n,
{
    s.unique_seq_to_set();
    vstd::set_lib::lemma_int_range(0, n);
    assert(s.to_set().subset_of(vstd::set_lib::set_int_range(0, n))) by {
        assert forall|x: int| s.to_set().contains(x) implies vstd::set_lib::set_int_range(0, n).contains(x) by {
            let k = choose|k: int| 0 <= k < s.len() && s[k] == x;
            assert(0 <= s[k] < n);
        }
    }
    vstd::set_lib::lemma_len_subset(s.to_set(), vstd::set_lib::set_int_range(0, n));
}

/// Facts about the walk up from `start` that `cycle_report` needs.
pub open spec fn walk_facts(iv: Seq<Seq<char>>, pv: Seq<Option<Seq<char>>>, start: int, walk: Seq<int>, repeated: bool) -> bool {
    &&& forall|k: int| 0 <= k < walk.len() ==> ancestor_at(iv, pv, start, k as nat) == Some(#[trigger] walk[k])
    &&& !repeated ==> walk.len() >= 1 && walk.no_duplicates() && ancestor_at(iv, pv, start, walk.len() as nat) is None
    &&& repeated ==> walk.len() >= 2 && walk.drop_last().no_duplicates() && walk.drop_last().contains(walk.last())
}

/// Walks up the parent chain from `start` until a node repeats or has no parent.
fn chain_walk(parent_index: &[Option<usize>], start: usize, Ghost(iv): Ghost<Seq<Seq<char>>>, Ghost(pv): Ghost<Seq<Option<Seq<char>>>>) -> (r: (Vec<usize>, bool))
    requires
        parent_index.len() == iv.len() == pv.len(),
        start < iv.len(),
        forall|t: int| 0 <= t < iv.len() ==> opt_int(#[trigger] parent_index@[t]) == parent_of(iv, pv, t),
        forall|t: int| 0 <= t < iv.len() && (#[trigger] parent_index@[t]) is Some ==> parent_index@[t]->0 < iv.len(),
    ensures
        walk_facts(iv, pv, start as int, ints(r.0@), r.1),
        forall|k: int| 0 <= k < r.0.len() ==> (#[trigger] r.0@[k]) < iv.len(),
{
    let n = parent_index.len();
    let mut seen: Vec<bool> = Vec::new();
    let mut v: usize = 0;
    while v < n
        invariant
            v <= n,
            seen.len() == v,
            forall|t: int| 0 <= t < v ==> !seen@[t],
        decreases n - v,
    {
        seen.push(false);
        v += 1;
    }
    let mut walk: Vec<usize> = Vec::new();
    let mut cursor: usize = start;
    let mut done = false;
    let mut repeated = false;
    while !done
        invariant
            n == parent_index.len() == seen.len() == iv.len() == pv.len(),
            forall|t: int| 0 <= t < n ==> opt_int(#[trigger] parent_index@[t]) == parent_of(iv, pv, t),
            forall|t: int| 0 <= t < n && (#[trigger] parent_index@[t]) is Some ==> parent_index@[t]->0 < n,
            cursor < n,
            walk.len() <= n + 1,
            !done ==> walk.len() <= n,
            !done ==> ancestor_at(iv, pv, start as int, walk.len() as nat) == Some(cursor as int),
            !done ==> !repeated,
            forall|k: int| 0 <= k < walk.len() ==> ancestor_at(iv, pv, start as int, k as nat) == Some(#[trigger] ints(walk@)[k]),
            forall|k: int| 0 <= k < walk.len() ==> (#[trigger] walk@[k]) < n,
            !repeated ==> ints(walk@).no_duplicates(),
            !repeated ==> forall|t: int| 0 <= t < n ==> (#[trigger] seen@[t] <==> ints(walk@).contains(t)),
            done ==> walk_facts(iv, pv, start as int, ints(walk@), repeated),
        decreases n + 1 - walk.len() + (if done { 0int } else { 1int }),
    {
        let ghost old_walk = ints(walk@);
        if seen[cursor] {
            walk.push(cursor);
            proof {
                assert(ints(walk@) =~= old_walk.push(cursor as int));
                assert(ints(walk@).drop_last() =~= old_walk);
                assert(old_walk.contains(cursor as int));
                let w = choose|w: int| 0 <= w < old_walk.len() && old_walk[w] == cursor as int;
                assert(old_walk.len() >= 1);
            }
            repeated = true;
            done = true;
        } else {
            walk.push(cursor);
            seen.set(cursor, true);
            proof {
                assert(ints(walk@) =~= old_walk.push(cursor as int));
                assert(!old_walk.contains(cursor as int));
                assert forall|t: int| 0 <= t < n implies (#[trigger] seen@[t] <==> ints(walk@).contains(t)) by {
                    if t == cursor as int {
                        assert(ints(walk@)[old_walk.len() as int] == t);
                    } else {
                        if ints(walk@).contains(t) {
                            let w = choose|w: int| 0 <= w < ints(walk@).len() && #[trigger] ints(walk@)[w] == t;
                            assert(old_walk[w] == t);
                        }
                        if old_walk.contains(t) {
                            let w = choose|w: int| 0 <= w < old_walk.len() && #[trigger] old_walk[w] == t;
                            assert(ints(walk@)[w] == t);
                        }
                    }
                }
                assert forall|k: int| 0 <= k < ints(walk@).len() implies 0 <= #[trigger] ints(walk@)[k] < n by {
                    assert(ints(walk@)[k] == walk@[k] as int);
                }
                lemma_distinct_indices_bounded(ints(walk@), n as int);
                lemma_ancestor_step(iv, pv, start as int, old_walk.len() as nat);
                assert(opt_int(parent_index@[cursor as int]) == parent_of(iv, pv, cursor as int));
            }
            match parent_index[cursor] {
                Some(p) => {
                    cursor = p;
                },
                None => {
                    done = true;
                },
            }
        }
    }
    (walk, repeated)
}

/// `ids[walk[len-1]] -> … -> ids[walk[0]]`.
fn join_reversed(ids: &[String], walk: &[usize]) -> (out: String)
    requires
        walk.len() >= 1,
        forall|k: int| 0 <= k < walk.len() ==> (#[trigger] walk@[k]) < ids.len(),
    ensures
        out@ == join_arrows(Seq::new(walk.len() as nat, |k: int| ids@[walk@[k] as int]@).reverse()),
{
    let len = walk.len();
    let ghost names = Seq::new(len as nat, |k: int| ids@[walk@[k] as int]@);
    let ghost rev = names.reverse();
    let mut out = String::new();
    out.append(ids[walk[len - 1]].as_str());
    assert(rev.take(1) =~= seq![rev[0]]);
    let mut t: usize = 1;
    while t < len
        invariant
            1 <= t <= len == walk.len(),
            forall|k: int| 0 <= k < len ==> (#[trigger] walk@[k]) < ids.len(),
            names == Seq::new(len as nat, |k: int| ids@[walk@[k] as int]@),
            rev == names.reverse(),
            out@ == join_arrows(rev.take(t as int)),
        decreases len - t,
    {
        let ghost before = out@;
        push_char(&mut out, ' ');
        push_char(&mut out, '-');
        push_char(&mut out, '>');
        push_char(&mut out, ' ');
        out.append(ids[walk[len - 1 - t]].as_str());
        proof {
            let taken = rev.take(t + 1);
            assert(taken.drop_last() =~= rev.take(t as int));
            assert(taken.last() == names[len - 1 - t]);
            assert(out@ =~= before + arrow() + taken.last());
        }
        t += 1;
    }
    assert(rev.take(len as int) =~= rev);
    out
}

/// Walks up from `start` and names the chain (see `cycle_report`).
fn cycle_path(ids: &[String], parent_index: &[Option<usize>], start: usize, Ghost(pv): Ghost<Seq<Option<Seq<char>>>>) -> (path: String)
    requires
        parent_index.len() == ids.len() == pv.len(),
        start < ids.len(),
        forall|t: int| 0 <= t < ids.len() ==> opt_int(#[trigger] parent_index@[t]) == parent_of(id_views(ids@), pv, t),
        forall|t: int| 0 <= t < ids.len() && (#[trigger] parent_index@[t]) is Some ==> parent_index@[t]->0 < ids.len(),
    ensures
        cycle_report(id_views(ids@), pv, start as int, path@),
{
    let ghost iv = id_views(ids@);
    let (walk, repeated) = chain_walk(parent_index, start, Ghost(iv), Ghost(pv));
    let out = join_reversed(ids, walk.as_slice());
    proof {
        let w = ints(walk@);
        let len = walk.len();
        let names = Seq::new(len as nat, |k: int| ids@[walk@[k] as int]@);
        assert(names =~= walk_names(iv, pv, start as int, len as nat)) by {
            assert forall|k: int| 0 <= k < len implies #[trigger] names[k] == walk_names(iv, pv, start as int, len as nat)[k] by {
                assert(ancestor_at(iv, pv, start as int, k as nat) == Some(w[k]));
                assert(iv[walk@[k] as int] == ids@[walk@[k] as int]@);
            }
        }
        if repeated {
            let m = (len - 1) as nat;
            assert forall|k: nat| k < m implies (#[trigger] ancestor_at(iv, pv, start as int, k)) is Some by {
                assert(ancestor_at(iv, pv, start as int, k) == Some(w[k as int]));
            }
            assert forall|a: nat, b: nat| a < b < m implies #[trigger] ancestor_at(iv, pv, start as int, a) != #[trigger] ancestor_at(iv, pv, start as int, b) by {
                assert(ancestor_at(iv, pv, start as int, a) == Some(w[a as int]));
                assert(ancestor_at(iv, pv, start as int, b) == Some(w[b as int]));
                assert(w.drop_last()[a as int] == w[a as int]);
                assert(w.drop_last()[b as int] == w[b as int]);
            }
            let a = choose|a: int| 0 <= a < w.drop_last().len() && w.drop_last()[a] == w.last();
            assert(ancestor_at(iv, pv, start as int, a as nat) == Some(w[a]));
            assert(ancestor_at(iv, pv, start as int, m) == Some(w[m as int]));
            assert(m + 1 == len);
            assert(cycle_report(iv, pv, start as int, out@));
        } else {
            let m = len as nat;
            assert forall|k: nat| k < m implies (#[trigger] ancestor_at(iv, pv, start as int, k)) is Some by {
                assert(ancestor_at(iv, pv, start as int, k) == Some(w[k as int]));
            }
            assert forall|a: nat, b: nat| a < b < m implies #[trigger] ancestor_at(iv, pv, start as int, a) != #[trigger] ancestor_at(iv, pv, start as int, b) by {
                assert(ancestor_at(iv, pv, start as int, a) == Some(w[a as int]));
                assert(ancestor_at(iv, pv, start as int, b) == Some(w[b as int]));
            }
            assert(cycle_report(iv, pv, start as int, out@));
        }
    }
    out
}

/// Validates the topology and computes its breadth-first evaluation order.
pub fn resolve_topology(ids: &[String], parents: &[Option<String>]) -> (r: Result<Topology, HierarchyError>)
    requires
        ids.len() == parents.len(),
    ensures
        topology_outcome(id_views(ids@), parent_views(parents@), match r {
            Ok(t) => Ok(ints(t.order@)),
            Err(e) => Err(e@),
        }),
        r matches Ok(t) ==> t.parent_index.len() == ids.len() && forall|i: int| 0 <= i < ids.len() ==>
            opt_int(#[trigger] t.parent_index@[i]) == parent_of(id_views(ids@), parent_views(parents@), i),
{
    let n = ids.len();
    let ghost iv = id_views(ids@);
    let ghost pv = parent_views(parents@);
    if let Some(j) = first_repeated_id(ids) {
        assert(iv[j as int] == ids@[j as int]@);
        return Err(HierarchyError::DuplicateNodeId(ids[j].clone()));
    }
    let parent_index = match resolve_parent_indices(ids, parents) {
        Ok(pi) => pi,
        Err(e) => {
            return Err(e);
        },
    };
    let children = children_lists(parent_index.as_slice(), Ghost(iv), Ghost(pv));
    let roots = root_list(parents);
    let (order, visited) = bfs_levels(&children, roots, Ghost(iv), Ghost(pv));
    let mut s: usize = 0;
    while s < n && visited[s]
        invariant
            s <= n == visited.len() == ids.len() == iv.len(),
            forall|t: int| 0 <= t < s ==> visited@[t],
        decreases n - s,
    {
        s += 1;
    }
    if s < n {
        proof {
            lemma_levels_upto_membership(iv, pv, n as nat, s as int);
            assert(!reaches_root(iv, pv, s as int));
            assert forall|t: int| 0 <= t < s implies reaches_root(iv, pv, t) by {
                assert(visited@[t]);
                lemma_levels_upto_membership(iv, pv, n as nat, t);
            }
        }
        return Err(HierarchyError::Cycle { path: cycle_path(ids, parent_index.as_slice(), s, Ghost(pv)) });
    }
    proof {
        assert forall|t: int| 0 <= t < n implies reaches_root(iv, pv, t) by {
            assert(visited@[t]);
            lemma_levels_upto_membership(iv, pv, n as nat, t);
        }
    }
    Ok(Topology { order, parent_index })
}

/// The message reported when the three per-node lists differ in length.
pub open spec fn length_mismatch_message(ids: nat, parents: nat, transforms: nat) -> Seq<char> {
    "resolve_indexed: "@ + decimal(ids) + " ids, "@ + decimal(parents) + " parents, "@ + decimal(transforms)
        + " transforms"@
}

/// Resolves the evaluation order of nodes given by index: `ids[i]` and
/// `parents[i]` describe node `i`, and `transform_count` is the number of
/// local transforms supplied with them.
///
/// Lists of different lengths are reported as `DuplicateNodeId` carrying
/// the three lengths; otherwise the outcome is that of `resolve_topology`.
pub fn resolve_indexed(ids: &[String], parents: &[Option<String>], transform_count: usize) -> (r: Result<
    Topology,
    HierarchyError,
>)
    ensures
        (ids.len() != parents.len() || ids.len() != transform_count) ==> (r matches Err(e) && e@
            == HierarchyErrorView::DuplicateNodeId(
            length_mismatch_message(ids.len() as nat, parents.len() as nat, transform_count as nat),
        )),
        (ids.len() == parents.len() && ids.len() == transform_count) ==> topology_outcome(
            id_views(ids@),
            parent_views(parents@),
            match r {
                Ok(t) => Ok(ints(t.order@)),
                Err(e) => Err(e@),
            },
        ),
        (ids.len() == parents.len() && ids.len() == transform_count) ==> (r matches Ok(t) ==> t.parent_index.len()
            == ids.len() && forall|i: int|
            0 <= i < ids.len() ==> opt_int(#[trigger] t.parent_index@[i]) == parent_of(
                id_views(ids@),
                parent_views(parents@),
                i,
            )),
{
    if ids.len() != parents.len() || ids.len() != transform_count {
        let mut message = String::from_str("resolve_indexed: ");
        let a = decimal_string(ids.len() as u64);
        message.append(a.as_str());
        message.append(" ids, ");
        let b = decimal_string(parents.len() as u64);
        message.append(b.as_str());
        message.append(" parents, ");
        let c = decimal_string(transform_count as u64);
        message.append(c.as_str());
        message.append(" transforms");
        return Err(HierarchyError::DuplicateNodeId(message));
    }
    resolve_topology(ids, parents)
}

} // verus!
