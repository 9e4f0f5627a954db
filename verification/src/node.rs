//! The scene-graph node arena.
//!
//! Nodes are held in an id-indexed arena: a node's id is its index,
//! children are lists of indices, and parent links are back-references.
//! A node's parent is always created before the node itself, so every
//! child index is strictly greater than its parent's — which also makes
//! every downward walk terminate.

use vstd::prelude::*;

use crate::scheduler::TimingPriority;
use crate::timing_target::TimingProperties;
use crate::transform::{
    fx_add, fx_mul, fx_per_second, fx_sub, spec_fx_add, spec_fx_mul, spec_fx_per_second,
    spec_fx_sub, spec_inv_of_transform, spec_mat_of_transform, Mat3, Transform,
};

verus! {

/// The kind tag of a node.
#[derive(Debug, Clone, Copy, PartialEq, Eq, Structural)]
pub enum NodeType {
    Nil,
    Node,
    Group,
    Scene,
    SceneTransition,
}

/// Which concrete behavior a node carries: how it draws, updates and
/// filters inherited transforms.
#[derive(Debug, Clone, Copy, PartialEq, Eq, Structural)]
pub enum NodeBehavior {
    /// No behavior of its own.
    Plain,
    /// A leaf that renders a "+" glyph.
    Cross,
    /// A leaf that renders a line of vector text.
    VectorText,
    /// A grouping node that continuously rotates its children.
    OrbitAnchor,
    /// A grouping node that blocks inherited transform components.
    Filter,
    /// A scene that immediately requests its replacement.
    Boot,
}

/// A continuously animated angle: the value before and after the last
/// discrete update, and the step rate, all in thousandths of a degree
/// (the rate per second).
#[derive(Debug, Clone, Copy, PartialEq, Eq, Structural)]
pub struct AngularMotion {
    pub prev: i64,
    pub cur: i64,
    pub step: i64,
}

/// The motion after one discrete update over `dt_ns` nanoseconds.
pub open spec fn spec_motion_updated(m: AngularMotion, dt_ns: int) -> AngularMotion {
    AngularMotion {
        prev: m.cur,
        cur: spec_fx_add(m.cur as int, spec_fx_per_second(m.step as int, dt_ns)) as i64,
        step: m.step,
    }
}

/// The angle blended between the last and the next discrete update
/// step; `t` is a fraction in thousandths.
pub open spec fn spec_motion_interp(m: AngularMotion, t: int) -> int {
    spec_fx_add(m.prev as int, spec_fx_mul(spec_fx_sub(m.cur as int, m.prev as int), t))
}

impl AngularMotion {
    pub fn new() -> (r: AngularMotion)
        ensures
            r.prev == 0 && r.cur == 0 && r.step == 0,
    {
        AngularMotion { prev: 0, cur: 0, step: 0 }
    }

    pub fn set_step_value(&mut self, step: i64)
        ensures
            *final(self) == (AngularMotion { step, ..*old(self) }),
    {
        self.step = step;
    }

    /// Advance by `dt_ns` nanoseconds of simulated time.
    pub fn update(&mut self, dt_ns: i64)
        ensures
            *final(self) == spec_motion_updated(*old(self), dt_ns as int),
    {
        self.prev = self.cur;
        self.cur = fx_add(self.cur, fx_per_second(self.step, dt_ns));
    }

    /// Blend between the last and the next update step.
    pub fn interpolate(&self, t: i64) -> (r: i64)
        ensures
            r as int == spec_motion_interp(*self, t as int),
    {
        fx_add(self.prev, fx_mul(fx_sub(self.cur, self.prev), t))
    }
}

/// Which inherited transform components a filter node blocks.
#[derive(Debug, Clone, Copy, PartialEq, Eq, Structural)]
pub struct FilterFlags {
    pub exclude_translation: bool,
    pub exclude_rotation: bool,
    pub exclude_scale: bool,
}

/// A node of the scene graph.
pub struct Node {
    pub id: usize,
    pub name: String,
    pub kind: NodeType,
    pub behavior: NodeBehavior,
    pub visible: bool,
    pub dirty: bool,
    pub timing: TimingProperties,
    pub is_timing_target: bool,
    pub parent: Option<usize>,
    pub children: Option<Vec<usize>>,
    pub transform: Transform,
    pub cached: Mat3,
    pub cached_inv: Mat3,
    pub motion: AngularMotion,
    pub filter: FilterFlags,
    pub replacement: Option<usize>,
    pub text: String,
}

/// The child index list of a node; empty for leaves.
pub open spec fn kids(n: Node) -> Seq<usize> {
    match n.children {
        Option::Some(v) => v@,
        Option::None => Seq::empty(),
    }
}

/// Whether the node owns a children collection.
pub open spec fn is_container(n: Node) -> bool {
    n.children is Some
}

/// Everything of a node except its dirty flag and cached matrices.
pub open spec fn core_eq(a: Node, b: Node) -> bool {
    &&& a.id == b.id
    &&& a.name@ == b.name@
    &&& a.kind == b.kind
    &&& a.behavior == b.behavior
    &&& a.visible == b.visible
    &&& a.timing == b.timing
    &&& a.is_timing_target == b.is_timing_target
    &&& a.parent == b.parent
    &&& is_container(a) == is_container(b)
    &&& kids(a) == kids(b)
    &&& a.transform == b.transform
    &&& a.motion == b.motion
    &&& a.filter == b.filter
    &&& a.replacement == b.replacement
    &&& a.text@ == b.text@
}

/// A node with only its dirty flag replaced.
pub open spec fn with_dirty(n: Node, dirty: bool) -> Node {
    Node { dirty, ..n }
}

/// The well-formedness of one arena slot.
pub open spec fn wf_node(s: Seq<Node>, i: int) -> bool {
    let n = s[i];
    &&& n.id == i
    &&& (match n.parent {
        Option::Some(p) => p < i,
        Option::None => true,
    })
    &&& (n.behavior == NodeBehavior::Filter ==> n.parent is Some)
    &&& (i != 0 ==> n.kind != NodeType::Nil)
    &&& (match n.replacement {
        Option::Some(r) => r < s.len(),
        Option::None => true,
    })
    &&& (forall|k: int|
        0 <= k < kids(n).len() ==> i < #[trigger] kids(n)[k] < s.len() && s[kids(
            n,
        )[k] as int].parent == Option::Some(n.id))
    &&& (forall|k1: int, k2: int|
        0 <= k1 < k2 < kids(n).len() ==> #[trigger] kids(n)[k1] != #[trigger] kids(n)[k2])
}

/// The arena invariant: slot 0 is the Nil sentinel, ids equal indices,
/// parents precede their children, child lists agree with parent links
/// and hold no duplicates, and every filter node has a parent.
pub open spec fn wf_arena(s: Seq<Node>) -> bool {
    &&& 1 <= s.len()
    &&& s[0].kind == NodeType::Nil
    &&& forall|i: int| 0 <= i < s.len() ==> #[trigger] wf_node(s, i)
}

/// A clean node's cached matrices agree with its transform.
pub open spec fn cache_ok(n: Node) -> bool {
    !n.dirty ==> n.cached == spec_mat_of_transform(n.transform) && n.cached_inv
        == spec_inv_of_transform(n.transform)
}

/// Every clean node's cached matrices agree with its transform.
pub open spec fn wf_cache(s: Seq<Node>) -> bool {
    forall|i: int| 0 <= i < s.len() ==> cache_ok(#[trigger] s[i])
}

/// Two arenas with the same graph structure (same children everywhere).
pub open spec fn same_shape(s1: Seq<Node>, s2: Seq<Node>) -> bool {
    &&& s1.len() == s2.len()
    &&& forall|i: int| 0 <= i < s1.len() ==> kids(s1[i]) == kids(#[trigger] s2[i])
}

/// Whether `j` lies in the subtree rooted at `i` (including `i`).
pub open spec fn in_subtree(s: Seq<Node>, i: int, j: int) -> bool
    decreases s.len() - i, 1int, 0int,
{
    if !(0 <= i < s.len()) {
        false
    } else {
        i == j || in_kids_prefix(s, i, kids(s[i]), kids(s[i]).len() as int, j)
    }
}

/// Whether `j` lies in the subtree of one of the first `k` children of `i`.
pub open spec fn in_kids_prefix(s: Seq<Node>, i: int, ks: Seq<usize>, k: int, j: int) -> bool
    decreases s.len() - i, 0int, k,
{
    if k <= 0 || k > ks.len() {
        false
    } else {
        in_kids_prefix(s, i, ks, k - 1, j) || (i < ks[k - 1] < s.len() && in_subtree(
            s,
            ks[k - 1] as int,
            j,
        ))
    }
}

/// Subtree membership depends only on the graph structure.
pub proof fn lemma_in_subtree_same_shape(s1: Seq<Node>, s2: Seq<Node>, i: int, j: int)
    requires
        same_shape(s1, s2),
    ensures
        in_subtree(s1, i, j) == in_subtree(s2, i, j),
    decreases s1.len() - i, 1int, 0int,
{
    if 0 <= i < s1.len() {
        lemma_in_kids_prefix_same_shape(s1, s2, i, kids(s1[i]), kids(s1[i]).len() as int, j);
    }
}

proof fn lemma_in_kids_prefix_same_shape(
    s1: Seq<Node>,
    s2: Seq<Node>,
    i: int,
    ks: Seq<usize>,
    k: int,
    j: int,
)
    requires
        same_shape(s1, s2),
    ensures
        in_kids_prefix(s1, i, ks, k, j) == in_kids_prefix(s2, i, ks, k, j),
    decreases s1.len() - i, 0int, k,
{
    if 0 < k <= ks.len() {
        lemma_in_kids_prefix_same_shape(s1, s2, i, ks, k - 1, j);
        if i < ks[k - 1] < s1.len() {
            lemma_in_subtree_same_shape(s1, s2, ks[k - 1] as int, j);
        }
    }
}

/// Every member of a subtree lies at or beyond the root's index and
/// inside the arena.
pub proof fn lemma_subtree_above(s: Seq<Node>, i: int, j: int)
    requires
        wf_arena(s),
        0 <= i < s.len(),
        in_subtree(s, i, j),
    ensures
        i <= j < s.len(),
    decreases s.len() - i, 1int, 0int,
{
    assert(wf_node(s, i));
    if i != j {
        lemma_subtree_above_kids(s, i, kids(s[i]), kids(s[i]).len() as int, j);
    }
}

proof fn lemma_subtree_above_kids(s: Seq<Node>, i: int, ks: Seq<usize>, k: int, j: int)
    requires
        wf_arena(s),
        0 <= i < s.len(),
        ks == kids(s[i]),
        0 <= k <= ks.len(),
        in_kids_prefix(s, i, ks, k, j),
    ensures
        i < j < s.len(),
    decreases s.len() - i, 0int, k,
{
    assert(wf_node(s, i));
    if in_kids_prefix(s, i, ks, k - 1, j) {
        lemma_subtree_above_kids(s, i, ks, k - 1, j);
    } else {
        lemma_subtree_above(s, ks[k - 1] as int, j);
    }
}

/// A member of some child-prefix subtree names the child it sits under.
pub proof fn lemma_kids_prefix_to_child(s: Seq<Node>, i: int, ks: Seq<usize>, k: int, j: int) -> (kw:
    int)
    requires
        in_kids_prefix(s, i, ks, k, j),
    ensures
        0 <= kw < k,
        kw < ks.len(),
        i < ks[kw] < s.len(),
        in_subtree(s, ks[kw] as int, j),
    decreases k,
{
    if in_kids_prefix(s, i, ks, k - 1, j) {
        lemma_kids_prefix_to_child(s, i, ks, k - 1, j)
    } else {
        k - 1
    }
}

/// Membership in a child-prefix is monotone in the prefix length.
proof fn lemma_kids_prefix_mono(s: Seq<Node>, i: int, ks: Seq<usize>, k1: int, k2: int, j: int)
    requires
        in_kids_prefix(s, i, ks, k1, j),
        k1 <= k2 <= ks.len(),
    ensures
        in_kids_prefix(s, i, ks, k2, j),
    decreases k2,
{
    if k1 < k2 {
        lemma_kids_prefix_mono(s, i, ks, k1, k2 - 1, j);
    }
}

/// A child's subtree is part of its parent's subtree.
pub proof fn lemma_child_subtree_in_parent(s: Seq<Node>, i: int, k: int, j: int)
    requires
        wf_arena(s),
        0 <= i < s.len(),
        0 <= k < kids(s[i]).len(),
        in_subtree(s, kids(s[i])[k] as int, j),
    ensures
        in_subtree(s, i, j),
{
    assert(wf_node(s, i));
    let ks = kids(s[i]);
    assert(in_kids_prefix(s, i, ks, k + 1, j));
    lemma_kids_prefix_mono(s, i, ks, k + 1, ks.len() as int, j);
}

/// Climbing one step: a strict subtree member's parent is also in the
/// subtree.
pub proof fn lemma_subtree_climb(s: Seq<Node>, i: int, j: int)
    requires
        wf_arena(s),
        0 <= i < s.len(),
        in_subtree(s, i, j),
        i != j,
    ensures
        0 <= j < s.len(),
        (match s[j].parent {
            Option::Some(p) => in_subtree(s, i, p as int) && i <= p,
            Option::None => false,
        }),
    decreases s.len() - i,
{
    assert(wf_node(s, i));
    lemma_subtree_above(s, i, j);
    let ks = kids(s[i]);
    let kw = lemma_kids_prefix_to_child(s, i, ks, ks.len() as int, j);
    let c = ks[kw] as int;
    if j == c {
        assert(s[j].parent == Option::Some(s[i].id));
        assert(in_subtree(s, i, i));
    } else {
        lemma_subtree_climb(s, c, j);
        match s[j].parent {
            Option::Some(p) => {
                lemma_child_subtree_in_parent(s, i, kw, p as int);
                lemma_subtree_above(s, c, p as int);
            },
            Option::None => {},
        }
    }
}

/// Two roots whose subtrees share a member are comparable: the lower
/// one's subtree holds the higher one.
pub proof fn lemma_ancestors_comparable(s: Seq<Node>, c1: int, c2: int, j: int)
    requires
        wf_arena(s),
        0 <= c1 < s.len(),
        0 <= c2 < s.len(),
        c1 < c2,
        in_subtree(s, c1, j),
        in_subtree(s, c2, j),
    ensures
        in_subtree(s, c1, c2),
    decreases j,
{
    lemma_subtree_above(s, c2, j);
    if j != c2 {
        lemma_subtree_climb(s, c2, j);
        assert(j != c1);
        lemma_subtree_climb(s, c1, j);
        match s[j].parent {
            Option::Some(p) => {
                assert(wf_node(s, j));
                lemma_ancestors_comparable(s, c1, c2, p as int);
            },
            Option::None => {},
        }
    }
}

/// The subtrees of two distinct children of one node are disjoint.
pub proof fn lemma_sibling_subtrees_disjoint(s: Seq<Node>, i: int, k1: int, k2: int, j: int)
    requires
        wf_arena(s),
        0 <= i < s.len(),
        0 <= k1 < kids(s[i]).len(),
        0 <= k2 < kids(s[i]).len(),
        k1 != k2,
        in_subtree(s, kids(s[i])[k1] as int, j),
    ensures
        !in_subtree(s, kids(s[i])[k2] as int, j),
{
    assert(wf_node(s, i));
    let c1 = kids(s[i])[k1] as int;
    let c2 = kids(s[i])[k2] as int;
    assert(c1 != c2);
    if in_subtree(s, c2, j) {
        if c1 < c2 {
            lemma_ancestors_comparable(s, c1, c2, j);
            lemma_subtree_climb(s, c1, c2);
            assert(s[c2 as int].parent == Option::Some(s[i].id));
            lemma_subtree_above(s, c1, i);
        } else {
            lemma_ancestors_comparable(s, c2, c1, j);
            lemma_subtree_climb(s, c2, c1);
            assert(s[c1 as int].parent == Option::Some(s[i].id));
            lemma_subtree_above(s, c2, i);
        }
    }
}

/// First leaf with the given id in traversal order under `i`, by the
/// search rule of `find_node`: container nodes are never matched
/// themselves, only scanned.
pub open spec fn spec_find_node(s: Seq<Node>, id: int, i: int) -> int
    decreases s.len() - i, 1int, 0int,
{
    if !(0 <= i < s.len()) {
        0
    } else if is_container(s[i]) {
        spec_find_in_kids(s, i, kids(s[i]), 0, id)
    } else if s[i].id == id {
        i
    } else {
        0
    }
}

/// Scan children from position `k` for the first matching leaf.
pub open spec fn spec_find_in_kids(s: Seq<Node>, i: int, ks: Seq<usize>, k: int, id: int) -> int
    decreases s.len() - i, 0int, ks.len() - k,
{
    if !(0 <= k < ks.len()) {
        0
    } else {
        let c = ks[k] as int;
        let f = if i < c < s.len() {
            spec_find_node(s, id, c)
        } else {
            0
        };
        if f != 0 {
            f
        } else {
            spec_find_in_kids(s, i, ks, k + 1, id)
        }
    }
}

/// The node arena: the owning container of the whole scene graph.
pub struct NodeArena {
    pub nodes: Vec<Node>,
}

impl NodeArena {
    pub open spec fn wf(self) -> bool {
        wf_arena(self.nodes@)
    }

    /// A fresh arena holding only the Nil sentinel at index 0.
    pub fn new() -> (r: NodeArena)
        ensures
            r.wf(),
            wf_cache(r.nodes@),
            r.nodes@.len() == 1,
            r.nodes@[0].kind == NodeType::Nil,
            r.nodes@[0].name@ == "Nil"@,
            r.nodes@[0].id == 0,
    {
        let nil = Node {
            id: 0,
            name: "Nil".to_owned(),
            kind: NodeType::Nil,
            behavior: NodeBehavior::Plain,
            visible: true,
            dirty: true,
            timing: TimingProperties::new(),
            is_timing_target: false,
            parent: Option::None,
            children: Option::None,
            transform: Transform::new(),
            cached: Mat3::identity(),
            cached_inv: Mat3::identity(),
            motion: AngularMotion::new(),
            filter: FilterFlags {
                exclude_translation: false,
                exclude_rotation: true,
                exclude_scale: true,
            },
            replacement: Option::None,
            text: String::new(),
        };
        let mut nodes: Vec<Node> = Vec::new();
        nodes.push(nil);
        let r = NodeArena { nodes };
        proof {
            assert(kids(r.nodes@[0]) =~= Seq::<usize>::empty());
            assert(wf_node(r.nodes@, 0));
        }
        r
    }

    pub fn len(&self) -> (r: usize)
        ensures
            r == self.nodes@.len(),
    {
        self.nodes.len()
    }

    /// Append a fresh node; it is not yet attached to its parent's
    /// child list (see `NodeGroup::attach_parent`).
    pub fn create_node(
        &mut self,
        name: &str,
        kind: NodeType,
        behavior: NodeBehavior,
        parent: Option<usize>,
        container: bool,
    ) -> (idx: usize)
        requires
            old(self).wf(),
            match parent {
                Option::Some(p) => p < old(self).nodes@.len(),
                Option::None => true,
            },
            behavior == NodeBehavior::Filter ==> parent is Some,
            kind != NodeType::Nil,
        ensures
            final(self).wf(),
            wf_cache(old(self).nodes@) ==> wf_cache(final(self).nodes@),
            idx == old(self).nodes@.len(),
            final(self).nodes@.len() == old(self).nodes@.len() + 1,
            forall|j: int|
                0 <= j < old(self).nodes@.len() ==> final(self).nodes@[j] == old(self).nodes@[j],
            ({
                let n = final(self).nodes@[idx as int];
                &&& n.id == idx
                &&& n.name@ == name@
                &&& n.kind == kind
                &&& n.behavior == behavior
                &&& n.visible
                &&& n.dirty
                &&& n.timing == (TimingProperties { priority: TimingPriority::Normal, paused: false })
                &&& n.is_timing_target == (behavior == NodeBehavior::OrbitAnchor)
                &&& n.parent == parent
                &&& is_container(n) == container
                &&& kids(n) == Seq::<usize>::empty()
                &&& n.transform == crate::transform::spec_transform_identity()
                &&& n.motion == (AngularMotion { prev: 0, cur: 0, step: 0 })
                &&& n.filter == (FilterFlags {
                    exclude_translation: false,
                    exclude_rotation: true,
                    exclude_scale: true,
                })
                &&& n.replacement is None
                &&& n.text@ == Seq::<char>::empty()
            }),
    {
        let idx = self.nodes.len();
        let is_orbit = match behavior {
            NodeBehavior::OrbitAnchor => true,
            _ => false,
        };
        let n = Node {
            id: idx,
            name: name.to_owned(),
            kind,
            behavior,
            visible: true,
            dirty: true,
            timing: TimingProperties::new(),
            is_timing_target: is_orbit,
            parent,
            children: if container {
                Option::Some(Vec::new())
            } else {
                Option::None
            },
            transform: Transform::new(),
            cached: Mat3::identity(),
            cached_inv: Mat3::identity(),
            motion: AngularMotion::new(),
            filter: FilterFlags {
                exclude_translation: false,
                exclude_rotation: true,
                exclude_scale: true,
            },
            replacement: Option::None,
            text: String::new(),
        };
        self.nodes.push(n);
        proof {
            let s0 = old(self).nodes@;
            let s1 = self.nodes@;
            assert(kids(s1[idx as int]) =~= Seq::<usize>::empty());
            assert forall|i: int| 0 <= i < s1.len() implies #[trigger] wf_node(s1, i) by {
                if i < idx {
                    assert(wf_node(s0, i));
                    assert(kids(s1[i]) == kids(s0[i]));
                    assert forall|k: int| 0 <= k < kids(s1[i]).len() implies i < #[trigger] kids(
                        s1[i],
                    )[k] < s1.len() && s1[kids(s1[i])[k] as int].parent == Option::Some(
                        s1[i].id,
                    ) by {
                        assert(kids(s0[i])[k] == kids(s1[i])[k]);
                    }
                }
            }
        }
        idx
    }

    // ----------------------------------------------------------------
    // Property accessors.
    // ----------------------------------------------------------------

    pub fn id(&self, idx: usize) -> (r: usize)
        requires
            idx < self.nodes@.len(),
        ensures
            r == self.nodes@[idx as int].id,
    {
        self.nodes[idx].id
    }

    pub fn name(&self, idx: usize) -> (r: String)
        requires
            idx < self.nodes@.len(),
        ensures
            r@ == self.nodes@[idx as int].name@,
    {
        self.nodes[idx].name.clone()
    }

    pub fn get_node_type(&self, idx: usize) -> (r: NodeType)
        requires
            idx < self.nodes@.len(),
        ensures
            r == self.nodes@[idx as int].kind,
    {
        self.nodes[idx].kind
    }

    pub fn is_node_type(&self, idx: usize, n_type: NodeType) -> (r: bool)
        requires
            idx < self.nodes@.len(),
        ensures
            r == (self.nodes@[idx as int].kind == n_type),
    {
        self.nodes[idx].kind == n_type
    }

    pub fn is_nil(&self, idx: usize) -> (r: bool)
        requires
            idx < self.nodes@.len(),
        ensures
            r == (self.nodes@[idx as int].kind == NodeType::Nil),
    {
        self.is_node_type(idx, NodeType::Nil)
    }

    pub fn is_visible(&self, idx: usize) -> (r: bool)
        requires
            idx < self.nodes@.len(),
        ensures
            r == self.nodes@[idx as int].visible,
    {
        self.nodes[idx].visible
    }

    pub fn set_visible(&mut self, idx: usize, visible: bool)
        requires
            idx < old(self).nodes@.len(),
        ensures
            final(self).nodes@ == old(self).nodes@.update(
                idx as int,
                (Node { visible, ..old(self).nodes@[idx as int] }),
            ),
    {
        let n = &mut self.nodes[idx];
        n.visible = visible;
    }

    pub fn paused(&self, idx: usize) -> (r: bool)
        requires
            idx < self.nodes@.len(),
        ensures
            r == self.nodes@[idx as int].timing.paused,
    {
        self.nodes[idx].timing.paused()
    }

    pub fn pause(&mut self, idx: usize, paused: bool)
        requires
            idx < old(self).nodes@.len(),
        ensures
            final(self).nodes@ == old(self).nodes@.update(
                idx as int,
                (Node {
                    timing: (TimingProperties { paused, ..old(self).nodes@[idx as int].timing }),
                    ..old(self).nodes@[idx as int]
                }),
            ),
    {
        let n = &mut self.nodes[idx];
        n.timing.pause(paused);
    }

    pub fn is_node_dirty(&self, idx: usize) -> (r: bool)
        requires
            idx < self.nodes@.len(),
        ensures
            r == self.nodes@[idx as int].dirty,
    {
        self.nodes[idx].dirty
    }

    pub fn set_node_dirty(&mut self, idx: usize, dirty: bool)
        requires
            idx < old(self).nodes@.len(),
        ensures
            final(self).nodes@ == old(self).nodes@.update(
                idx as int,
                with_dirty(old(self).nodes@[idx as int], dirty),
            ),
    {
        let n = &mut self.nodes[idx];
        n.dirty = dirty;
    }

    /// Number of children of a node; zero for leaves.
    pub fn child_count(&self, idx: usize) -> (r: usize)
        requires
            idx < self.nodes@.len(),
        ensures
            r == kids(self.nodes@[idx as int]).len(),
    {
        match &self.nodes[idx].children {
            Option::Some(v) => v.len(),
            Option::None => 0,
        }
    }

    /// The k-th child of a node.
    pub fn child_at(&self, idx: usize, k: usize) -> (r: usize)
        requires
            idx < self.nodes@.len(),
            k < kids(self.nodes@[idx as int]).len(),
        ensures
            r == kids(self.nodes@[idx as int])[k as int],
    {
        match &self.nodes[idx].children {
            Option::Some(v) => v[k],
            Option::None => 0,
        }
    }

    /// Append `child` to the children of `parent`. Attaching is a
    /// paired operation: the child's parent link must already name
    /// `parent`, and the child must not be attached yet.
    pub fn add_child(&mut self, parent: usize, child: usize)
        requires
            old(self).wf(),
            parent < old(self).nodes@.len(),
            child < old(self).nodes@.len(),
            old(self).nodes@[child as int].parent == Option::Some(parent),
            forall|k: int|
                0 <= k < kids(old(self).nodes@[parent as int]).len() ==> kids(
                    old(self).nodes@[parent as int],
                )[k] != child,
        ensures
            final(self).wf(),
            wf_cache(old(self).nodes@) ==> wf_cache(final(self).nodes@),
            final(self).nodes@.len() == old(self).nodes@.len(),
            forall|j: int|
                0 <= j < old(self).nodes@.len() && j != parent ==> final(self).nodes@[j] == old(
                    self,
                ).nodes@[j],
            !is_container(old(self).nodes@[parent as int]) ==> final(self).nodes@ == old(
                self,
            ).nodes@,
            is_container(old(self).nodes@[parent as int]) ==> {
                let po = old(self).nodes@[parent as int];
                let pn = final(self).nodes@[parent as int];
                &&& core_eq(pn, po) == false || true
                &&& pn == (Node { children: pn.children, ..po })
                &&& is_container(pn)
                &&& kids(pn) == kids(po).push(child)
            },
    {
        proof {
            assert(wf_node(old(self).nodes@, parent as int));
            assert(wf_node(old(self).nodes@, child as int));
        }
        let n = &mut self.nodes[parent];
        match &mut n.children {
            Option::Some(v) => {
                v.push(child);
            },
            Option::None => {},
        }
        proof {
            let s0 = old(self).nodes@;
            let s1 = self.nodes@;
            if is_container(s0[parent as int]) {
                assert(kids(s1[parent as int]) =~= kids(s0[parent as int]).push(child));
                assert forall|i: int| 0 <= i < s1.len() implies #[trigger] wf_node(s1, i) by {
                    assert(wf_node(s0, i));
                    if i == parent {
                        let ks0 = kids(s0[i]);
                        let ks1 = kids(s1[i]);
                        assert(ks1 == ks0.push(child));
                        assert forall|k: int| 0 <= k < ks1.len() implies i < #[trigger] ks1[k]
                            < s1.len() && s1[ks1[k] as int].parent == Option::Some(s1[i].id) by {
                            if k < ks0.len() {
                                assert(ks1[k] == ks0[k]);
                            } else {
                                assert(ks1[k] == child);
                            }
                        }
                        assert forall|k1: int, k2: int|
                            0 <= k1 < k2 < ks1.len() implies #[trigger] ks1[k1] != #[trigger] ks1[k2] by {
                            if k2 < ks0.len() {
                                assert(ks1[k1] == ks0[k1] && ks1[k2] == ks0[k2]);
                            } else {
                                assert(ks1[k2] == child && ks1[k1] == ks0[k1]);
                            }
                        }
                    } else {
                        assert(s1[i] == s0[i]);
                        assert(kids(s1[i]) == kids(s0[i]));
                        assert forall|k: int| 0 <= k < kids(s1[i]).len() implies i < #[trigger] kids(
                            s1[i],
                        )[k] < s1.len() && s1[kids(s1[i])[k] as int].parent == Option::Some(
                            s1[i].id,
                        ) by {
                            let c = kids(s0[i])[k];
                            assert(i < c < s0.len() && s0[c as int].parent == Option::Some(
                                s0[i].id,
                            ));
                            if c == parent {
                                assert(s1[c as int].parent == s0[c as int].parent);
                            }
                        }
                    }
                }
            } else {
                assert(s1 =~= s0);
            }
        }
    }

    // ----------------------------------------------------------------
    // Dirty-state rippling and transform mutators.
    // ----------------------------------------------------------------

    /// Set the dirty flag of this node and of every descendant.
    #[verifier::loop_isolation(false)]
    pub fn ripple_node_dirty(&mut self, idx: usize, dirty: bool)
        requires
            old(self).wf(),
            idx < old(self).nodes@.len(),
        ensures
            final(self).wf(),
            final(self).nodes@.len() == old(self).nodes@.len(),
            forall|j: int|
                0 <= j < old(self).nodes@.len() ==> final(self).nodes@[j] == if in_subtree(
                    old(self).nodes@,
                    idx as int,
                    j,
                ) {
                    with_dirty(old(self).nodes@[j], dirty)
                } else {
                    old(self).nodes@[j]
                },
        decreases old(self).nodes@.len() - idx,
    {
        let ghost s0 = self.nodes@;
        proof {
            assert(wf_node(s0, idx as int));
        }
        let n = &mut self.nodes[idx];
        n.dirty = dirty;
        proof {
            let s1 = self.nodes@;
            assert forall|i: int| 0 <= i < s1.len() implies #[trigger] wf_node(s1, i) by {
                assert(wf_node(s0, i));
                assert(kids(s1[i]) == kids(s0[i]));
                assert forall|k: int| 0 <= k < kids(s1[i]).len() implies i < #[trigger] kids(
                    s1[i],
                )[k] < s1.len() && s1[kids(s1[i])[k] as int].parent == Option::Some(s1[i].id) by {
                    assert(kids(s0[i])[k] == kids(s1[i])[k]);
                }
            }
        }
        let ghost ks = kids(s0[idx as int]);
        let kn = self.child_count(idx);
        let mut k: usize = 0;
        while k < kn
            invariant
                self.wf(),
                k <= kn,
                idx < s0.len(),
                wf_arena(s0),
                kn == ks.len(),
                ks == kids(s0[idx as int]),
                self.nodes@.len() == s0.len(),
                forall|j: int|
                    0 <= j < s0.len() ==> self.nodes@[j] == if j == idx as int || in_kids_prefix(
                        s0,
                        idx as int,
                        ks,
                        k as int,
                        j,
                    ) {
                        with_dirty(s0[j], dirty)
                    } else {
                        s0[j]
                    },
            decreases kn - k,
        {
            let ghost sk = self.nodes@;
            proof {
                assert(wf_node(s0, idx as int));
                assert(ks[k as int] == kids(s0[idx as int])[k as int]);
                assert((idx as int) < ks[k as int] < s0.len());
                assert(kids(self.nodes@[idx as int]) == kids(s0[idx as int]));
            }
            let c = self.child_at(idx, k);
            proof {
                assert(c == ks[k as int]);
                assert((idx as int) < (c as int) && (c as int) < s0.len());
            }
            self.ripple_node_dirty(c, dirty);
            proof {
                let s1 = self.nodes@;
                assert(same_shape(s0, sk)) by {
                    assert forall|i: int| 0 <= i < s0.len() implies kids(s0[i]) == kids(
                        #[trigger] sk[i],
                    ) by {
                        if sk[i] == with_dirty(s0[i], dirty) {
                            assert(kids(with_dirty(s0[i], dirty)) == kids(s0[i]));
                        }
                    }
                }
                assert forall|j: int| 0 <= j < s0.len() implies s1[j] == (if j == idx as int
                    || in_kids_prefix(s0, idx as int, ks, k as int + 1, j) {
                    with_dirty(s0[j], dirty)
                } else {
                    s0[j]
                }) by {
                    lemma_in_subtree_same_shape(sk, s0, c as int, j);
                    if in_subtree(sk, c as int, j) {
                        assert(s1[j] == with_dirty(sk[j], dirty));
                        assert(with_dirty(with_dirty(s0[j], dirty), dirty) == with_dirty(
                            s0[j],
                            dirty,
                        ));
                    }
                }
            }
            k = k + 1;
        }
        proof {
            assert(wf_node(s0, idx as int));
            assert forall|j: int| 0 <= j < s0.len() implies self.nodes@[j] == (if in_subtree(
                s0,
                idx as int,
                j,
            ) {
                with_dirty(s0[j], dirty)
            } else {
                s0[j]
            }) by {
                assert(in_subtree(s0, idx as int, j) == (idx as int == j || in_kids_prefix(
                    s0,
                    idx as int,
                    kids(s0[idx as int]),
                    kids(s0[idx as int]).len() as int,
                    j,
                )));
            }
        }
    }

    /// Replace the transform of `idx` by `f(transform)` and mark the
    /// whole subtree dirty. Shared by all transform mutators.
    fn set_transform_and_ripple(&mut self, idx: usize, t: Transform)
        requires
            old(self).wf(),
            idx < old(self).nodes@.len(),
        ensures
            final(self).wf(),
            wf_cache(old(self).nodes@) ==> wf_cache(final(self).nodes@),
            final(self).nodes@.len() == old(self).nodes@.len(),
            final(self).nodes@[idx as int] == (Node {
                transform: t,
                dirty: true,
                ..old(self).nodes@[idx as int]
            }),
            forall|j: int|
                0 <= j < old(self).nodes@.len() && j != idx ==> final(self).nodes@[j] == if
                    in_subtree(old(self).nodes@, idx as int, j) {
                    with_dirty(old(self).nodes@[j], true)
                } else {
                    old(self).nodes@[j]
                },
    {
        let ghost s0 = self.nodes@;
        let n = &mut self.nodes[idx];
        n.transform = t;
        let ghost sm = self.nodes@;
        proof {
            assert forall|i: int| 0 <= i < sm.len() implies #[trigger] wf_node(sm, i) by {
                assert(wf_node(s0, i));
                assert(kids(sm[i]) == kids(s0[i]));
                assert forall|k: int| 0 <= k < kids(sm[i]).len() implies i < #[trigger] kids(
                    sm[i],
                )[k] < sm.len() && sm[kids(sm[i])[k] as int].parent == Option::Some(sm[i].id) by {
                    assert(kids(s0[i])[k] == kids(sm[i])[k]);
                }
            }
            assert(same_shape(sm, s0)) by {
                assert forall|i: int| 0 <= i < sm.len() implies kids(sm[i]) == kids(
                    #[trigger] s0[i],
                ) by {}
            }
        }
        self.ripple_node_dirty(idx, true);
        proof {
            assert forall|j: int|
                0 <= j < s0.len() && j != idx implies final(self).nodes@[j] == (if in_subtree(
                s0,
                idx as int,
                j,
            ) {
                with_dirty(s0[j], true)
            } else {
                s0[j]
            }) by {
                lemma_in_subtree_same_shape(sm, s0, idx as int, j);
            }
            assert(in_subtree(sm, idx as int, idx as int));
            assert forall|i: int| 0 <= i < self.nodes@.len() implies cache_ok(
                #[trigger] self.nodes@[i],
            ) || !wf_cache(s0) by {
                if wf_cache(s0) {
                    assert(cache_ok(s0[i]));
                    lemma_in_subtree_same_shape(sm, s0, idx as int, i);
                }
            }
        }
    }

    /// Set the position of a node; the node and all descendants become
    /// dirty.
    pub fn set_position(&mut self, idx: usize, x: i64, y: i64)
        requires
            old(self).wf(),
            idx < old(self).nodes@.len(),
        ensures
            final(self).wf(),
            wf_cache(old(self).nodes@) ==> wf_cache(final(self).nodes@),
            final(self).nodes@.len() == old(self).nodes@.len(),
            final(self).nodes@[idx as int] == (Node {
                transform: (Transform { px: x, py: y, ..old(self).nodes@[idx as int].transform }),
                dirty: true,
                ..old(self).nodes@[idx as int]
            }),
            forall|j: int|
                0 <= j < old(self).nodes@.len() && j != idx ==> final(self).nodes@[j] == if
                    in_subtree(old(self).nodes@, idx as int, j) {
                    with_dirty(old(self).nodes@[j], true)
                } else {
                    old(self).nodes@[j]
                },
    {
        let t = self.nodes[idx].transform;
        self.set_transform_and_ripple(idx, Transform { px: x, py: y, ..t });
    }

    /// Set the rotation of a node, in thousandths of a degree; the node
    /// and all descendants become dirty.
    pub fn set_rotation_degrees(&mut self, idx: usize, millideg: i64)
        requires
            old(self).wf(),
            idx < old(self).nodes@.len(),
        ensures
            final(self).wf(),
            wf_cache(old(self).nodes@) ==> wf_cache(final(self).nodes@),
            final(self).nodes@.len() == old(self).nodes@.len(),
            final(self).nodes@[idx as int] == (Node {
                transform: (Transform {
                    deg: millideg,
                    ..old(self).nodes@[idx as int].transform
                }),
                dirty: true,
                ..old(self).nodes@[idx as int]
            }),
            forall|j: int|
                0 <= j < old(self).nodes@.len() && j != idx ==> final(self).nodes@[j] == if
                    in_subtree(old(self).nodes@, idx as int, j) {
                    with_dirty(old(self).nodes@[j], true)
                } else {
                    old(self).nodes@[j]
                },
    {
        let t = self.nodes[idx].transform;
        self.set_transform_and_ripple(idx, Transform { deg: millideg, ..t });
    }

    /// Set a uniform scale, in thousandths; the node and all
    /// descendants become dirty.
    pub fn set_scale(&mut self, idx: usize, s: i64)
        requires
            old(self).wf(),
            idx < old(self).nodes@.len(),
        ensures
            final(self).wf(),
            wf_cache(old(self).nodes@) ==> wf_cache(final(self).nodes@),
            final(self).nodes@.len() == old(self).nodes@.len(),
            final(self).nodes@[idx as int] == (Node {
                transform: (Transform { sx: s, sy: s, ..old(self).nodes@[idx as int].transform }),
                dirty: true,
                ..old(self).nodes@[idx as int]
            }),
            forall|j: int|
                0 <= j < old(self).nodes@.len() && j != idx ==> final(self).nodes@[j] == if
                    in_subtree(old(self).nodes@, idx as int, j) {
                    with_dirty(old(self).nodes@[j], true)
                } else {
                    old(self).nodes@[j]
                },
    {
        let t = self.nodes[idx].transform;
        self.set_transform_and_ripple(idx, Transform { sx: s, sy: s, ..t });
    }

    /// Set a nonuniform scale, in thousandths; the node and all
    /// descendants become dirty.
    pub fn set_nonuniform_scale(&mut self, idx: usize, sx: i64, sy: i64)
        requires
            old(self).wf(),
            idx < old(self).nodes@.len(),
        ensures
            final(self).wf(),
            wf_cache(old(self).nodes@) ==> wf_cache(final(self).nodes@),
            final(self).nodes@.len() == old(self).nodes@.len(),
            final(self).nodes@[idx as int] == (Node {
                transform: (Transform { sx, sy, ..old(self).nodes@[idx as int].transform }),
                dirty: true,
                ..old(self).nodes@[idx as int]
            }),
            forall|j: int|
                0 <= j < old(self).nodes@.len() && j != idx ==> final(self).nodes@[j] == if
                    in_subtree(old(self).nodes@, idx as int, j) {
                    with_dirty(old(self).nodes@[j], true)
                } else {
                    old(self).nodes@[j]
                },
    {
        let t = self.nodes[idx].transform;
        self.set_transform_and_ripple(idx, Transform { sx, sy, ..t });
    }
}

impl NodeArena {
    /// Create a fresh node and attach it to its parent's child list in
    /// one step, as every constructor does.
    pub fn create_and_attach(
        &mut self,
        name: &str,
        kind: NodeType,
        behavior: NodeBehavior,
        parent: Option<usize>,
        container: bool,
    ) -> (idx: usize)
        requires
            old(self).wf(),
            match parent {
                Option::Some(p) => p < old(self).nodes@.len(),
                Option::None => true,
            },
            behavior == NodeBehavior::Filter ==> parent is Some,
            kind != NodeType::Nil,
        ensures
            final(self).wf(),
            wf_cache(old(self).nodes@) ==> wf_cache(final(self).nodes@),
            idx == old(self).nodes@.len(),
            final(self).nodes@.len() == old(self).nodes@.len() + 1,
            forall|j: int|
                0 <= j < old(self).nodes@.len() && (match parent {
                    Option::Some(p) => j != p,
                    Option::None => true,
                }) ==> final(self).nodes@[j] == old(self).nodes@[j],
            match parent {
                Option::Some(p) => {
                    &&& (is_container(old(self).nodes@[p as int]) ==> kids(
                        final(self).nodes@[p as int],
                    ) == kids(old(self).nodes@[p as int]).push(idx) && final(self).nodes@[p as int]
                        == (Node {
                        children: final(self).nodes@[p as int].children,
                        ..old(self).nodes@[p as int]
                    }))
                    &&& (!is_container(old(self).nodes@[p as int])
                        ==> final(self).nodes@[p as int] == old(self).nodes@[p as int])
                },
                Option::None => true,
            },
            ({
                let n = final(self).nodes@[idx as int];
                &&& n.id == idx
                &&& n.name@ == name@
                &&& n.kind == kind
                &&& n.behavior == behavior
                &&& n.visible
                &&& n.dirty
                &&& n.timing == (TimingProperties { priority: TimingPriority::Normal, paused: false })
                &&& n.is_timing_target == (behavior == NodeBehavior::OrbitAnchor)
                &&& n.parent == parent
                &&& is_container(n) == container
                &&& kids(n) == Seq::<usize>::empty()
                &&& n.transform == crate::transform::spec_transform_identity()
                &&& n.motion == (AngularMotion { prev: 0, cur: 0, step: 0 })
                &&& n.filter == (FilterFlags {
                    exclude_translation: false,
                    exclude_rotation: true,
                    exclude_scale: true,
                })
                &&& n.replacement is None
                &&& n.text@ == Seq::<char>::empty()
            }),
    {
        let ghost s0 = self.nodes@;
        let idx = self.create_node(name, kind, behavior, parent, container);
        proof {
            match parent {
                Option::Some(p) => {
                    assert(wf_node(s0, p as int));
                    assert(self.nodes@[p as int] == s0[p as int]);
                    assert forall|k: int|
                        0 <= k < kids(self.nodes@[p as int]).len() implies #[trigger] kids(
                        self.nodes@[p as int],
                    )[k] != idx by {
                        assert(kids(s0[p as int])[k] == kids(self.nodes@[p as int])[k]);
                        assert((kids(s0[p as int])[k] as int) < s0.len());
                    }
                },
                Option::None => {},
            }
        }
        NodeGroup::attach_parent(self, idx);
        idx
    }
}

/// Free helpers over whole trees, mirroring the uniform node protocol.
pub struct Nodes;

impl Nodes {
    /// Whether the node at `idx` has the given id.
    pub fn id_equal_node(arena: &NodeArena, id: usize, idx: usize) -> (r: bool)
        requires
            idx < arena.nodes@.len(),
        ensures
            r == (arena.nodes@[idx as int].id == id),
    {
        id == arena.id(idx)
    }

    /// Find the first leaf with the given id under `idx`; containers
    /// themselves are scanned, never matched. Returns the Nil index 0
    /// when nothing matches.
    #[verifier::loop_isolation(false)]
    pub fn find_node(arena: &NodeArena, id: usize, idx: usize) -> (r: usize)
        requires
            arena.wf(),
            idx < arena.nodes@.len(),
        ensures
            r as int == spec_find_node(arena.nodes@, id as int, idx as int),
            r < arena.nodes@.len(),
        decreases arena.nodes@.len() - idx,
    {
        let s = Ghost(arena.nodes@);
        proof {
            assert(wf_node(s@, idx as int));
        }
        let container = match &arena.nodes[idx].children {
            Option::Some(_) => true,
            Option::None => false,
        };
        if container {
            let kn = arena.child_count(idx);
            let ghost ks = kids(s@[idx as int]);
            let mut k: usize = 0;
            while k < kn
                invariant
                    arena.wf(),
                    idx < s@.len(),
                    s@ == arena.nodes@,
                    wf_node(s@, idx as int),
                    is_container(s@[idx as int]),
                    kn == ks.len(),
                    ks == kids(s@[idx as int]),
                    k <= kn,
                    spec_find_in_kids(s@, idx as int, ks, 0, id as int) == spec_find_in_kids(
                        s@,
                        idx as int,
                        ks,
                        k as int,
                        id as int,
                    ),
                decreases kn - k,
            {
                let c = arena.child_at(idx, k);
                proof {
                    assert(c == ks[k as int]);
                    assert((idx as int) < (c as int) && (c as int) < s@.len());
                }
                let f = Nodes::find_node(arena, id, c);
                if !arena.is_nil(f) {
                    proof {
                        assert(spec_find_node(s@, id as int, c as int) == f as int);
                        assert(wf_node(s@, f as int));
                        assert(f != 0);
                    }
                    return f;
                }
                proof {
                    // The result was the Nil sentinel, so nothing was
                    // found under this child: a nonzero find result is
                    // a node whose kind is never Nil.
                    assert(wf_node(s@, f as int));
                    assert(f == 0);
                }
                k = k + 1;
            }
            0
        } else {
            if Nodes::id_equal_node(arena, id, idx) {
                return idx;
            }
            0
        }
    }
}

/// Pairing helper: attach a node, whose parent link is already set, as
/// a child of that parent.
pub struct NodeGroup;

impl NodeGroup {
    /// Attach `idx` to the parent named by its own parent link. A node
    /// without a parent, or whose parent is a leaf, stays unattached.
    pub fn attach_parent(arena: &mut NodeArena, idx: usize)
        requires
            old(arena).wf(),
            idx < old(arena).nodes@.len(),
            match old(arena).nodes@[idx as int].parent {
                Option::Some(p) => forall|k: int|
                    0 <= k < kids(old(arena).nodes@[p as int]).len() ==> kids(
                        old(arena).nodes@[p as int],
                    )[k] != idx,
                Option::None => true,
            },
        ensures
            final(arena).wf(),
            wf_cache(old(arena).nodes@) ==> wf_cache(final(arena).nodes@),
            final(arena).nodes@.len() == old(arena).nodes@.len(),
            match old(arena).nodes@[idx as int].parent {
                Option::Some(p) => {
                    &&& forall|j: int|
                        0 <= j < old(arena).nodes@.len() && j != p ==> final(arena).nodes@[j] == old(
                            arena,
                        ).nodes@[j]
                    &&& (is_container(old(arena).nodes@[p as int]) ==> kids(
                        final(arena).nodes@[p as int],
                    ) == kids(old(arena).nodes@[p as int]).push(idx) && final(arena).nodes@[p as int]
                        == (Node {
                        children: final(arena).nodes@[p as int].children,
                        ..old(arena).nodes@[p as int]
                    }))
                    &&& (!is_container(old(arena).nodes@[p as int]) ==> final(arena).nodes@ == old(
                        arena,
                    ).nodes@)
                },
                Option::None => final(arena).nodes@ == old(arena).nodes@,
            },
    {
        proof {
            assert(wf_node(old(arena).nodes@, idx as int));
        }
        let parent_opt = arena.nodes[idx].parent;
        match parent_opt {
            Option::Some(p) => {
                arena.add_child(p, idx);
            },
            Option::None => {},
        }
    }
}

} // verus!
