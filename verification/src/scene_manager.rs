//! The scene manager: the scene stack, the transition state machine,
//! scene lifecycle (enter, exit, flush), and the per-frame visit.
//!
//! Lifecycle hooks append to a journal, so the order in which scenes
//! received their enter, exit and flush calls is part of the state the
//! contracts pin down.

use vstd::prelude::*;

use crate::context::{Context, Palette};
use crate::node::{
    in_subtree, is_container, kids, wf_arena, wf_cache, wf_node, Node, NodeArena, NodeBehavior,
    NodeType, Nodes,
};
use crate::timing_target::TimingProperties;
use crate::transform::{fx_div, spec_fx_div, spec_inv_of_transform, spec_mat_apply, Point, Transform};
use crate::visit::{core_same, lemma_visit_recs_core, spec_visit_recs};
use crate::world::{props_eq, WorldProperties};

verus! {

/// What the running scene asks of the manager this frame.
#[allow(non_camel_case_types)]
#[derive(Debug, Clone, Copy, PartialEq, Eq, Structural)]
pub enum SceneActions {
    NO_ACTION,
    REPLACE,
    REPLACE_TAKE,
    REPLACE_TAKE_UNREGISTER,
}

/// The source of an input event.
#[allow(non_camel_case_types)]
#[derive(Debug, Clone, Copy, PartialEq, Eq, Structural)]
pub enum IOEvent {
    NONE,
    MOUSE,
    JOYSTICK,
    KEYBOARD,
}

/// One input event with device coordinates and an optional target.
#[derive(Debug, Clone, Copy)]
pub struct IOEventData {
    pub event: IOEvent,
    pub coord: (i32, i32),
    pub node: usize,
}

impl IOEventData {
    pub fn new() -> (r: IOEventData)
        ensures
            r.event == IOEvent::NONE,
            r.coord.0 == 0 && r.coord.1 == 0,
            r.node == 0,
    {
        IOEventData { event: IOEvent::NONE, coord: (0, 0), node: 0 }
    }

    pub fn new_mouse_event(x: i32, y: i32) -> (r: IOEventData)
        ensures
            r.event == IOEvent::MOUSE,
            r.coord.0 == x && r.coord.1 == y,
            r.node == 0,
    {
        IOEventData { event: IOEvent::MOUSE, coord: (x, y), node: 0 }
    }
}

/// One lifecycle or input delivery, in the order it happened.
#[derive(Debug, Clone, Copy, PartialEq, Eq, Structural)]
pub enum SceneEvent {
    StartExit(usize),
    Exit(usize),
    Flush(usize),
    Enter(usize),
    EndEnter(usize),
    Io(usize),
}

// --------------------------------------------------------------------
// Subtree machinery: the nodes of a subtree, in traversal order.
// --------------------------------------------------------------------

/// The indices of the subtree rooted at `i`, root first, children in
/// insertion order.
pub open spec fn spec_subtree_seq(s: Seq<Node>, i: int) -> Seq<usize>
    decreases s.len() - i, 1int, 0int,
{
    if !(0 <= i < s.len()) {
        Seq::empty()
    } else {
        seq![i as usize] + spec_subtree_kids(s, i, kids(s[i]), kids(s[i]).len() as int)
    }
}

/// The indices of the subtrees of the first `k` children of `i`.
pub open spec fn spec_subtree_kids(s: Seq<Node>, i: int, ks: Seq<usize>, k: int) -> Seq<usize>
    decreases s.len() - i, 0int, k,
{
    if k <= 0 || k > ks.len() {
        Seq::empty()
    } else {
        spec_subtree_kids(s, i, ks, k - 1) + (if i < ks[k - 1] < s.len() {
            spec_subtree_seq(s, ks[k - 1] as int)
        } else {
            Seq::empty()
        })
    }
}

/// The subtree sequence lists exactly the subtree members.
pub proof fn lemma_subtree_seq_membership(s: Seq<Node>, i: int, j: usize)
    requires
        s.len() <= usize::MAX,
    ensures
        spec_subtree_seq(s, i).contains(j) == in_subtree(s, i, j as int),
    decreases s.len() - i, 1int, 0int,
{
    if 0 <= i < s.len() {
        let ks = kids(s[i]);
        lemma_subtree_kids_membership(s, i, ks, ks.len() as int, j);
        let own = seq![i as usize];
        let rest = spec_subtree_kids(s, i, ks, ks.len() as int);
        let whole = own + rest;
        if in_subtree(s, i, j as int) {
            if i == j as int {
                assert(whole[0] == j);
            } else {
                let w = choose|w: int| 0 <= w < rest.len() && rest[w] == j;
                assert(whole[w + 1] == j);
            }
            assert(whole.contains(j));
        }
        if whole.contains(j) {
            let w = choose|w: int| 0 <= w < whole.len() && whole[w] == j;
            if w == 0 {
                assert(i == j as int);
            } else {
                assert(rest[w - 1] == j);
                assert(rest.contains(j));
            }
        }
    }
}

proof fn lemma_subtree_kids_membership(s: Seq<Node>, i: int, ks: Seq<usize>, k: int, j: usize)
    requires
        s.len() <= usize::MAX,
    ensures
        spec_subtree_kids(s, i, ks, k).contains(j) == in_kids_prefix_contains(s, i, ks, k, j),
    decreases s.len() - i, 0int, k,
{
    if 0 < k <= ks.len() {
        lemma_subtree_kids_membership(s, i, ks, k - 1, j);
        let pre = spec_subtree_kids(s, i, ks, k - 1);
        let own = if i < ks[k - 1] < s.len() {
            spec_subtree_seq(s, ks[k - 1] as int)
        } else {
            Seq::empty()
        };
        let whole = pre + own;
        if i < ks[k - 1] < s.len() {
            lemma_subtree_seq_membership(s, ks[k - 1] as int, j);
        }
        if pre.contains(j) {
            let w = choose|w: int| 0 <= w < pre.len() && pre[w] == j;
            assert(whole[w] == j);
        }
        if own.contains(j) {
            let w = choose|w: int| 0 <= w < own.len() && own[w] == j;
            assert(whole[pre.len() + w] == j);
        }
        if whole.contains(j) {
            let w = choose|w: int| 0 <= w < whole.len() && whole[w] == j;
            if w < pre.len() {
                assert(pre[w] == j);
                assert(pre.contains(j));
            } else {
                assert(own[w - pre.len()] == j);
                assert(own.contains(j));
            }
        }
    }
}

/// Membership in the first `k` children's subtrees, phrased like
/// `in_kids_prefix` of the node module.
pub open spec fn in_kids_prefix_contains(s: Seq<Node>, i: int, ks: Seq<usize>, k: int, j: usize) -> bool {
    crate::node::in_kids_prefix(s, i, ks, k, j as int)
}

impl NodeArena {
    /// Collect the subtree indices of `idx`, in traversal order.
    #[verifier::loop_isolation(false)]
    pub fn collect_subtree(&self, idx: usize, out: &mut Vec<usize>)
        requires
            self.wf(),
            idx < self.nodes@.len(),
        ensures
            final(out)@ == old(out)@ + spec_subtree_seq(self.nodes@, idx as int),
        decreases self.nodes@.len() - idx,
    {
        let ghost s = self.nodes@;
        let ghost out0 = out@;
        proof {
            assert(wf_node(s, idx as int));
        }
        out.push(idx);
        let ghost ks = kids(s[idx as int]);
        let kn = self.child_count(idx);
        let mut k: usize = 0;
        proof {
            assert(out@ =~= out0 + seq![idx]);
        }
        while k < kn
            invariant
                k <= kn,
                out@ == out0 + seq![idx] + spec_subtree_kids(s, idx as int, ks, k as int),
            decreases kn - k,
        {
            let c = self.child_at(idx, k);
            proof {
                assert(c == ks[k as int]);
                assert((idx as int) < (c as int) && (c as int) < s.len());
            }
            self.collect_subtree(c, out);
            proof {
                assert(out@ =~= out0 + seq![idx] + spec_subtree_kids(
                    s,
                    idx as int,
                    ks,
                    k as int + 1,
                ));
            }
            k = k + 1;
        }
        proof {
            assert(out@ =~= out0 + (seq![idx] + spec_subtree_kids(
                s,
                idx as int,
                ks,
                ks.len() as int,
            )));
        }
    }

    /// Set the pause flag of `idx` and of every descendant.
    #[verifier::loop_isolation(false)]
    pub fn pause_subtree(&mut self, idx: usize, paused: bool)
        requires
            old(self).wf(),
            idx < old(self).nodes@.len(),
        ensures
            final(self).wf(),
            wf_cache(old(self).nodes@) ==> wf_cache(final(self).nodes@),
            final(self).nodes@.len() == old(self).nodes@.len(),
            forall|j: int|
                0 <= j < old(self).nodes@.len() ==> final(self).nodes@[j] == if in_subtree(
                    old(self).nodes@,
                    idx as int,
                    j,
                ) {
                    with_paused(old(self).nodes@[j], paused)
                } else {
                    old(self).nodes@[j]
                },
        decreases old(self).nodes@.len() - idx,
    {
        let ghost s0 = self.nodes@;
        proof {
            assert(wf_node(s0, idx as int));
        }
        self.pause(idx, paused);
        proof {
            let s1 = self.nodes@;
            assert forall|i: int| 0 <= i < s1.len() implies #[trigger] wf_node(s1, i) by {
                assert(wf_node(s0, i));
                assert(kids(s1[i]) == kids(s0[i]));
                assert forall|k: int| 0 <= k < kids(s1[i]).len() implies i < #[trigger] kids(
                    s1[i],
                )[k] < s1.len() && s1[kids(s1[i])[k] as int].parent == Option::Some(s1[i].id) by {
                    assert(kids(s0[i])[k] == kids(s1[i])[k]);
                }
            }
            assert forall|i: int|
                0 <= i < s1.len() && wf_cache(s0) implies crate::node::cache_ok(
                #[trigger] s1[i],
            ) by {
                assert(crate::node::cache_ok(s0[i]));
            }
        }
        let ghost ks = kids(s0[idx as int]);
        let kn = self.child_count(idx);
        let mut k: usize = 0;
        while k < kn
            invariant
                self.wf(),
                wf_cache(s0) ==> wf_cache(self.nodes@),
                k <= kn,
                kn == ks.len(),
                self.nodes@.len() == s0.len(),
                forall|j: int|
                    0 <= j < s0.len() ==> self.nodes@[j] == if j == idx as int
                        || crate::node::in_kids_prefix(s0, idx as int, ks, k as int, j) {
                        with_paused(s0[j], paused)
                    } else {
                        s0[j]
                    },
            decreases kn - k,
        {
            let ghost sk = self.nodes@;
            proof {
                assert(kids(self.nodes@[idx as int]) == kids(s0[idx as int]));
            }
            let c = self.child_at(idx, k);
            proof {
                assert(c == ks[k as int]);
                assert((idx as int) < (c as int) && (c as int) < s0.len());
            }
            self.pause_subtree(c, paused);
            proof {
                assert(crate::node::same_shape(sk, s0)) by {
                    assert forall|i: int| 0 <= i < s0.len() implies kids(sk[i]) == kids(
                        #[trigger] s0[i],
                    ) by {
                        if sk[i] == with_paused(s0[i], paused) {
                            assert(kids(with_paused(s0[i], paused)) == kids(s0[i]));
                        }
                    }
                }
                assert forall|j: int| 0 <= j < s0.len() implies self.nodes@[j] == (if j
                    == idx as int || crate::node::in_kids_prefix(
                    s0,
                    idx as int,
                    ks,
                    k as int + 1,
                    j,
                ) {
                    with_paused(s0[j], paused)
                } else {
                    s0[j]
                }) by {
                    crate::node::lemma_in_subtree_same_shape(sk, s0, c as int, j);
                    if in_subtree(sk, c as int, j) {
                        assert(self.nodes@[j] == with_paused(sk[j], paused));
                        assert(with_paused(with_paused(s0[j], paused), paused) == with_paused(
                            s0[j],
                            paused,
                        ));
                    }
                }
            }
            k = k + 1;
        }
        proof {
            assert(wf_node(s0, idx as int));
        }
    }

    /// Set the pause flag of every strict descendant of `idx` (the
    /// node itself keeps its flag).
    #[verifier::loop_isolation(false)]
    pub fn ripple_pause(&mut self, idx: usize, paused: bool)
        requires
            old(self).wf(),
            idx < old(self).nodes@.len(),
        ensures
            final(self).wf(),
            wf_cache(old(self).nodes@) ==> wf_cache(final(self).nodes@),
            final(self).nodes@.len() == old(self).nodes@.len(),
            forall|j: int|
                0 <= j < old(self).nodes@.len() ==> final(self).nodes@[j] == if in_subtree(
                    old(self).nodes@,
                    idx as int,
                    j,
                ) && j != idx {
                    with_paused(old(self).nodes@[j], paused)
                } else {
                    old(self).nodes@[j]
                },
    {
        let ghost s0 = self.nodes@;
        proof {
            assert(wf_node(s0, idx as int));
        }
        let ghost ks = kids(s0[idx as int]);
        let kn = self.child_count(idx);
        let mut k: usize = 0;
        while k < kn
            invariant
                self.wf(),
                wf_cache(s0) ==> wf_cache(self.nodes@),
                k <= kn,
                kn == ks.len(),
                idx < s0.len(),
                self.nodes@.len() == s0.len(),
                forall|j: int|
                    0 <= j < s0.len() ==> self.nodes@[j] == if crate::node::in_kids_prefix(
                        s0,
                        idx as int,
                        ks,
                        k as int,
                        j,
                    ) {
                        with_paused(s0[j], paused)
                    } else {
                        s0[j]
                    },
            decreases kn - k,
        {
            let ghost sk = self.nodes@;
            proof {
                assert(kids(self.nodes@[idx as int]) == kids(s0[idx as int]));
            }
            let c = self.child_at(idx, k);
            proof {
                assert(c == ks[k as int]);
                assert((idx as int) < (c as int) && (c as int) < s0.len());
            }
            self.pause_subtree(c, paused);
            proof {
                assert(crate::node::same_shape(sk, s0)) by {
                    assert forall|i: int| 0 <= i < s0.len() implies kids(sk[i]) == kids(
                        #[trigger] s0[i],
                    ) by {
                        if sk[i] == with_paused(s0[i], paused) {
                            assert(kids(with_paused(s0[i], paused)) == kids(s0[i]));
                        }
                    }
                }
                assert forall|j: int| 0 <= j < s0.len() implies self.nodes@[j] == (if
                    crate::node::in_kids_prefix(s0, idx as int, ks, k as int + 1, j) {
                    with_paused(s0[j], paused)
                } else {
                    s0[j]
                }) by {
                    crate::node::lemma_in_subtree_same_shape(sk, s0, c as int, j);
                    if in_subtree(sk, c as int, j) {
                        assert(self.nodes@[j] == with_paused(sk[j], paused));
                        assert(with_paused(with_paused(s0[j], paused), paused) == with_paused(
                            s0[j],
                            paused,
                        ));
                    }
                }
            }
            k = k + 1;
        }
        proof {
            // A node never lies in a strict child's subtree, so the
            // prefix form excludes `idx` itself.
            assert forall|j: int| 0 <= j < s0.len() implies self.nodes@[j] == (if in_subtree(
                s0,
                idx as int,
                j,
            ) && j != idx as int {
                with_paused(s0[j], paused)
            } else {
                s0[j]
            }) by {
                if j == idx as int {
                    // The node itself sits in no child's subtree, since
                    // children always carry larger indices.
                    if crate::node::in_kids_prefix(s0, idx as int, ks, ks.len() as int, j) {
                        let kw = crate::node::lemma_kids_prefix_to_child(
                            s0,
                            idx as int,
                            ks,
                            ks.len() as int,
                            j,
                        );
                        crate::node::lemma_subtree_above(s0, ks[kw] as int, j);
                    }
                } else {
                    assert(in_subtree(s0, idx as int, j) == (idx as int == j
                        || crate::node::in_kids_prefix(s0, idx as int, ks, ks.len() as int, j)));
                }
            }
        }
    }

    /// Recursively detach the children of every node in the subtree at
    /// `idx`: each container's list becomes empty.
    pub fn flush(&mut self, idx: usize, flush: bool)
        requires
            old(self).wf(),
            idx < old(self).nodes@.len(),
        ensures
            final(self).wf(),
            wf_cache(old(self).nodes@) ==> wf_cache(final(self).nodes@),
            final(self).nodes@.len() == old(self).nodes@.len(),
            forall|j: int|
                0 <= j < old(self).nodes@.len() ==> flush_eq(
                    #[trigger] final(self).nodes@[j],
                    old(self).nodes@[j],
                ),
            forall|j: int|
                0 <= j < old(self).nodes@.len() ==> (if in_subtree(old(self).nodes@, idx as int, j) {
                    kids(#[trigger] final(self).nodes@[j]).len() == 0
                } else {
                    final(self).nodes@[j] == old(self).nodes@[j]
                }),
    {
        let ghost s0 = self.nodes@;
        let mut ids: Vec<usize> = Vec::new();
        self.collect_subtree(idx, &mut ids);
        let ghost sub = spec_subtree_seq(s0, idx as int);
        proof {
            assert(ids@ =~= sub);
        }
        let n = ids.len();
        let mut i: usize = 0;
        while i < n
            invariant
                self.wf(),
                wf_cache(s0) ==> wf_cache(self.nodes@),
                i <= n,
                n == sub.len(),
                ids@ == sub,
                self.nodes@.len() == s0.len(),
                forall|j: int|
                    0 <= j < s0.len() ==> flush_eq(#[trigger] self.nodes@[j], s0[j]),
                forall|j: int|
                    0 <= j < s0.len() ==> (if sub.take(i as int).contains(j as usize) {
                        kids(#[trigger] self.nodes@[j]).len() == 0
                    } else {
                        self.nodes@[j] == s0[j]
                    }),
            decreases n - i,
        {
            let ghost sk = self.nodes@;
            let t = ids[i];
            if t < self.len() {
                let node = &mut self.nodes[t];
                match &mut node.children {
                    Option::Some(v) => {
                        v.clear();
                    },
                    Option::None => {},
                }
                proof {
                    let s1 = self.nodes@;
                    assert(kids(s1[t as int]).len() == 0) by {
                        if is_container(s1[t as int]) {
                        }
                    }
                    assert forall|ii: int| 0 <= ii < s1.len() implies #[trigger] wf_node(
                        s1,
                        ii,
                    ) by {
                        assert(wf_node(sk, ii));
                        if ii != t {
                            assert(s1[ii] == sk[ii]);
                            assert(kids(s1[ii]) == kids(sk[ii]));
                            assert forall|k: int| 0 <= k < kids(s1[ii]).len() implies ii
                                < #[trigger] kids(s1[ii])[k] < s1.len() && s1[kids(
                                s1[ii],
                            )[k] as int].parent == Option::Some(s1[ii].id) by {
                                assert(kids(sk[ii])[k] == kids(s1[ii])[k]);
                                if kids(sk[ii])[k] == t {
                                    assert(s1[t as int].parent == sk[t as int].parent);
                                }
                            }
                        }
                    }
                    assert forall|ii: int|
                        0 <= ii < s1.len() && wf_cache(s0) implies crate::node::cache_ok(
                        #[trigger] s1[ii],
                    ) by {
                        assert(crate::node::cache_ok(sk[ii]));
                        if ii == t {
                            assert(s1[ii].dirty == sk[ii].dirty && s1[ii].cached == sk[ii].cached
                                && s1[ii].cached_inv == sk[ii].cached_inv && s1[ii].transform
                                == sk[ii].transform);
                        }
                    }
                }
            }
            proof {
                assert(sub.take(i as int + 1).drop_last() =~= sub.take(i as int));
                assert forall|j: int| 0 <= j < s0.len() implies (if sub.take(
                    i as int + 1,
                ).contains(j as usize) {
                    kids(#[trigger] self.nodes@[j]).len() == 0
                } else {
                    self.nodes@[j] == s0[j]
                }) by {
                    if sub.take(i as int + 1).contains(j as usize) {
                        if j != t as int {
                            let w = choose|w: int|
                                0 <= w < sub.take(i as int + 1).len() && #[trigger] sub.take(
                                    i as int + 1,
                                )[w] == (j as usize);
                            assert(sub.take(i as int + 1)[i as int] == sub[i as int]);
                            assert(w < i as int);
                            assert(sub.take(i as int)[w] == (j as usize));
                            assert(sub.take(i as int).contains(j as usize));
                        }
                    } else {
                        assert(!sub.take(i as int).contains(j as usize)) by {
                            if sub.take(i as int).contains(j as usize) {
                                let w = choose|w: int|
                                    0 <= w < sub.take(i as int).len() && #[trigger] sub.take(
                                        i as int,
                                    )[w] == (j as usize);
                                assert(sub.take(i as int + 1)[w] == (j as usize));
                            }
                        }
                        assert(j != t as int) by {
                            if j == t as int {
                                assert(sub.take(i as int + 1)[i as int] == (j as usize));
                            }
                        }
                    }
                }
            }
            i = i + 1;
        }
        let nn = self.len();
        proof {
            assert(s0.len() <= usize::MAX);
            assert(sub.take(n as int) =~= sub);
            assert forall|j: int| 0 <= j < s0.len() implies (if in_subtree(s0, idx as int, j) {
                kids(#[trigger] self.nodes@[j]).len() == 0
            } else {
                self.nodes@[j] == s0[j]
            }) by {
                if 0 <= j < s0.len() {
                    lemma_subtree_seq_membership(s0, idx as int, j as usize);
                }
            }
        }
    }
}

/// Everything of a node except its pause flag.
pub open spec fn with_paused(n: Node, paused: bool) -> Node {
    Node { timing: TimingProperties { paused, ..n.timing }, ..n }
}

/// Everything of a node except its children list; container-ness kept.
pub open spec fn flush_eq(a: Node, b: Node) -> bool {
    &&& a.id == b.id
    &&& a.name@ == b.name@
    &&& a.kind == b.kind
    &&& a.behavior == b.behavior
    &&& a.visible == b.visible
    &&& a.dirty == b.dirty
    &&& a.timing == b.timing
    &&& a.is_timing_target == b.is_timing_target
    &&& a.parent == b.parent
    &&& is_container(a) == is_container(b)
    &&& a.transform == b.transform
    &&& a.cached == b.cached
    &&& a.cached_inv == b.cached_inv
    &&& a.motion == b.motion
    &&& a.filter == b.filter
    &&& a.replacement == b.replacement
    &&& a.text@ == b.text@
}


// --------------------------------------------------------------------
// Global per-scene data: pointer state and the lifecycle journal.
// --------------------------------------------------------------------

/// Data shared by all scenes: the pointer in device and view space,
/// targeted io-event registrations, and the lifecycle journal.
pub struct GlobalSceneData {
    /// Pointer position in device (window) space.
    pub mouse: (i32, i32),
    pub mouse_changed: bool,
    /// Pointer position in view space, fixed-point thousandths.
    pub view: (i64, i64),
    pub io_event_targets: Vec<usize>,
    /// Every lifecycle hook and input delivery, in order.
    pub events: Vec<SceneEvent>,
}

impl GlobalSceneData {
    fn new() -> (r: GlobalSceneData)
        ensures
            r.mouse.0 == 0 && r.mouse.1 == 0,
            !r.mouse_changed,
            r.view.0 == 0 && r.view.1 == 0,
            r.io_event_targets@ == Seq::<usize>::empty(),
            r.events@ == Seq::<SceneEvent>::empty(),
    {
        let r = GlobalSceneData {
            mouse: (0, 0),
            mouse_changed: false,
            view: (0, 0),
            io_event_targets: Vec::new(),
            events: Vec::new(),
        };
        proof {
            assert(r.io_event_targets@ =~= Seq::<usize>::empty());
            assert(r.events@ =~= Seq::<SceneEvent>::empty());
        }
        r
    }

    pub fn set_mouse(&mut self, x: i32, y: i32)
        ensures
            *final(self) == (GlobalSceneData {
                mouse: (x, y),
                mouse_changed: true,
                ..*old(self)
            }),
    {
        self.mouse = (x, y);
        self.mouse_changed = true;
    }

    /// If the pointer moved since last frame, recompute its view-space
    /// position through the inverse view transform.
    pub fn update_view_coords(&mut self, context: &Context)
        ensures
            old(self).mouse_changed ==> *final(self) == (GlobalSceneData {
                view: (
                    spec_mat_apply(
                        spec_inv_of_transform(context.view_t),
                        Point {
                            x: ((old(self).mouse.0 as i64) * 1000) as i64,
                            y: ((old(self).mouse.1 as i64) * 1000) as i64,
                        },
                    ).x,
                    spec_mat_apply(
                        spec_inv_of_transform(context.view_t),
                        Point {
                            x: ((old(self).mouse.0 as i64) * 1000) as i64,
                            y: ((old(self).mouse.1 as i64) * 1000) as i64,
                        },
                    ).y,
                ),
                mouse_changed: false,
                ..*old(self)
            }),
            !old(self).mouse_changed ==> *final(self) == *old(self),
    {
        if self.mouse_changed {
            let v = Nodes::map_device_to_view(self.mouse.0, self.mouse.1, context);
            self.view = v;
            self.mouse_changed = false;
        }
    }

    /// Register the leaf with the given id under `parent` for targeted
    /// io events; an id that is not found changes nothing.
    pub fn register_for_io_events(&mut self, arena: &NodeArena, parent: usize, child: usize)
        requires
            arena.wf(),
            parent < arena.nodes@.len(),
        ensures
            ({
                let f = crate::node::spec_find_node(arena.nodes@, child as int, parent as int);
                &&& (f != 0 ==> final(self).io_event_targets@ == old(self).io_event_targets@.push(
                    f as usize,
                ) && (GlobalSceneData {
                    io_event_targets: final(self).io_event_targets,
                    ..*old(self)
                }) == *final(self))
                &&& (f == 0 ==> *final(self) == *old(self))
            }),
    {
        let fin = Nodes::find_node(arena, child, parent);
        let is_nil = arena.is_nil(fin);
        proof {
            assert(wf_node(arena.nodes@, fin as int));
        }
        if !is_nil {
            self.io_event_targets.push(fin);
        }
    }

    /// Remove the leaf with the given id under `parent` from the
    /// targeted io-event registrations.
    pub fn unregister_for_io_events(&mut self, arena: &NodeArena, parent: usize, child: usize)
        requires
            arena.wf(),
            parent < arena.nodes@.len(),
        ensures
            ({
                let f = crate::node::spec_find_node(arena.nodes@, child as int, parent as int);
                &&& (f != 0 ==> final(self).io_event_targets@ == crate::scheduler::spec_remove_list(
                    old(self).io_event_targets@,
                    f as usize,
                ) && (GlobalSceneData {
                    io_event_targets: final(self).io_event_targets,
                    ..*old(self)
                }) == *final(self))
                &&& (f == 0 ==> *final(self) == *old(self))
            }),
    {
        let fin = Nodes::find_node(arena, child, parent);
        let is_nil = arena.is_nil(fin);
        proof {
            assert(wf_node(arena.nodes@, fin as int));
        }
        if !is_nil {
            remove_target(&mut self.io_event_targets, fin);
        }
    }
}

/// Remove every occurrence of an id from the target list.
fn remove_target(v: &mut Vec<usize>, id: usize)
    ensures
        final(v)@ == crate::scheduler::spec_remove_list(old(v)@, id),
{
    let ghost s0 = v@;
    let n = v.len();
    let mut out: Vec<usize> = Vec::new();
    let mut i: usize = 0;
    proof {
        reveal(Seq::filter);
        assert(out@ =~= crate::scheduler::spec_remove_list(s0.take(0), id));
    }
    while i < n
        invariant
            i <= n,
            n == s0.len(),
            v@ == s0,
            out@ == crate::scheduler::spec_remove_list(s0.take(i as int), id),
        decreases n - i,
    {
        let x = v[i];
        proof {
            reveal(Seq::filter);
            assert(s0.take(i as int + 1).drop_last() =~= s0.take(i as int));
            assert(s0.take(i as int + 1).last() == s0[i as int]);
        }
        if x != id {
            out.push(x);
        }
        i = i + 1;
    }
    proof {
        assert(s0.take(n as int) =~= s0);
    }
    *v = out;
}

// --------------------------------------------------------------------
// The scene stack.
// --------------------------------------------------------------------

/// The mathematical state of the scene stack.
pub struct StackModel {
    pub scenes: Seq<usize>,
    pub flush: bool,
    pub next: usize,
    pub running: usize,
}

/// Push: the scene becomes the pending next scene, the flush request
/// is withdrawn, and the scene joins the stack.
pub open spec fn spec_stack_push(m: StackModel, sc: usize) -> StackModel {
    StackModel { scenes: m.scenes.push(sc), flush: false, next: sc, running: m.running }
}

/// Pop: the running top of a non-empty stack is discarded, the scene
/// beneath it becomes the pending next scene (the Nil sentinel when
/// none remains), and a flush is requested so the outgoing scene
/// releases its resources at the swap; an empty stack is left alone.
pub open spec fn spec_stack_pop(m: StackModel) -> StackModel {
    if m.scenes.len() == 0 {
        m
    } else {
        let rest = m.scenes.drop_last();
        StackModel {
            scenes: rest,
            flush: true,
            next: if rest.len() > 0 {
                rest.last()
            } else {
                0
            },
            running: m.running,
        }
    }
}

/// Replace: the scene becomes the pending next scene, the old top of a
/// non-empty stack is discarded, the scene joins the stack, and a
/// flush is requested.
pub open spec fn spec_stack_replace(m: StackModel, sc: usize) -> StackModel {
    let base = if m.scenes.len() > 0 {
        m.scenes.drop_last()
    } else {
        m.scenes
    };
    StackModel { scenes: base.push(sc), flush: true, next: sc, running: m.running }
}

/// Frame swap: the pending next scene becomes the running scene and
/// the next-scene slot returns to the Nil sentinel.
pub open spec fn spec_stack_swap(m: StackModel) -> StackModel {
    StackModel { running: m.next, next: 0, ..m }
}

/// The stack of pushed scenes, with the running and pending slots.
/// Both slots always hold a valid index, the Nil sentinel 0 standing
/// for "no scene".
pub struct SceneStack {
    pub scenes: Vec<usize>,
    pub signal_scene_to_flush: bool,
    pub next_scene: usize,
    pub running_scene: usize,
}

impl SceneStack {
    pub open spec fn model(self) -> StackModel {
        StackModel {
            scenes: self.scenes@,
            flush: self.signal_scene_to_flush,
            next: self.next_scene,
            running: self.running_scene,
        }
    }

    /// Every held index is inside the arena.
    pub open spec fn in_bounds(self, len: int) -> bool {
        &&& (self.next_scene as int) < len
        &&& (self.running_scene as int) < len
        &&& forall|k: int|
            0 <= k < self.scenes@.len() ==> (#[trigger] self.scenes@[k] as int) < len
    }

    pub fn new() -> (r: SceneStack)
        ensures
            r.scenes@ == Seq::<usize>::empty(),
            !r.signal_scene_to_flush,
            r.next_scene == 0,
            r.running_scene == 0,
    {
        let r = SceneStack {
            scenes: Vec::new(),
            signal_scene_to_flush: false,
            next_scene: 0,
            running_scene: 0,
        };
        proof {
            assert(r.scenes@ =~= Seq::<usize>::empty());
        }
        r
    }

    pub fn is_empty(&self) -> (r: bool)
        ensures
            r == (self.scenes@.len() == 0),
    {
        self.scenes.len() == 0
    }

    /// Whether no scene is pending. Only the sentinel has the Nil kind.
    pub fn next_scene_nil(&self, arena: &NodeArena) -> (r: bool)
        requires
            arena.wf(),
            (self.next_scene as int) < arena.nodes@.len(),
        ensures
            r == (self.next_scene == 0),
    {
        proof {
            assert(wf_node(arena.nodes@, self.next_scene as int));
        }
        arena.is_nil(self.next_scene)
    }

    /// Whether no scene is running.
    pub fn running_scene_nil(&self, arena: &NodeArena) -> (r: bool)
        requires
            arena.wf(),
            (self.running_scene as int) < arena.nodes@.len(),
        ensures
            r == (self.running_scene == 0),
    {
        proof {
            assert(wf_node(arena.nodes@, self.running_scene as int));
        }
        arena.is_nil(self.running_scene)
    }

    pub fn next_scene_is_transition(&self, arena: &NodeArena) -> (r: bool)
        requires
            (self.next_scene as int) < arena.nodes@.len(),
        ensures
            r == (arena.nodes@[self.next_scene as int].kind == NodeType::SceneTransition),
    {
        arena.is_node_type(self.next_scene, NodeType::SceneTransition)
    }

    pub fn running_scene_is_transition(&self, arena: &NodeArena) -> (r: bool)
        requires
            (self.running_scene as int) < arena.nodes@.len(),
        ensures
            r == (arena.nodes@[self.running_scene as int].kind == NodeType::SceneTransition),
    {
        arena.is_node_type(self.running_scene, NodeType::SceneTransition)
    }

    pub fn make_next_scene_nil(&mut self)
        ensures
            *final(self) == (SceneStack { next_scene: 0, ..*old(self) }),
    {
        self.next_scene = 0;
    }

    pub fn running_scene(&self) -> (r: usize)
        ensures
            r == self.running_scene,
    {
        self.running_scene
    }

    /// Promote the pending next scene to running.
    pub fn make_running_scene(&mut self)
        ensures
            *final(self) == (SceneStack { running_scene: old(self).next_scene, ..*old(self) }),
    {
        self.running_scene = self.next_scene;
    }

    pub fn signal_flush(&self) -> (r: bool)
        ensures
            r == self.signal_scene_to_flush,
    {
        self.signal_scene_to_flush
    }

    pub fn push(&mut self, scene: usize)
        ensures
            final(self).model() == spec_stack_push(old(self).model(), scene),
            final(self).running_scene == old(self).running_scene,
    {
        self.signal_scene_to_flush = false;
        self.next_scene = scene;
        self.scenes.push(scene);
    }

    /// Pop the running top off the stack: the scene beneath it becomes
    /// the pending next scene and a flush is requested. Popping an
    /// empty stack is a harmless no-op.
    pub fn pop(&mut self)
        ensures
            final(self).model() == spec_stack_pop(old(self).model()),
    {
        match self.scenes.pop() {
            Option::Some(_) => {
                self.signal_scene_to_flush = true;
                let n = self.scenes.len();
                if n > 0 {
                    self.next_scene = self.scenes[n - 1];
                } else {
                    self.next_scene = 0;
                }
            },
            Option::None => {},
        }
    }

    /// Replace the top of the stack by the given scene.
    pub fn replace(&mut self, scene: usize)
        ensures
            final(self).model() == spec_stack_replace(old(self).model(), scene),
            final(self).running_scene == old(self).running_scene,
    {
        self.next_scene = scene;
        if self.scenes.len() > 0 {
            let popped = self.scenes.pop();
        }
        self.scenes.push(scene);
        self.signal_scene_to_flush = true;
    }
}

// --------------------------------------------------------------------
// Laws of the stack state machine.
// --------------------------------------------------------------------

/// Pushing two scenes and performing one frame swap leaves the second
/// one running, with both scenes on the stack; a subsequent pop
/// discards the running top, requests a flush, and makes the first
/// scene the pending next scene.
pub proof fn lemma_push_push_swap_pop(m: StackModel, a: usize, b: usize)
    ensures
        ({
            let m3 = spec_stack_swap(spec_stack_push(spec_stack_push(m, a), b));
            &&& m3.running == b
            &&& m3.next == 0
            &&& m3.scenes == m.scenes.push(a).push(b)
            &&& spec_stack_pop(m3).flush
            &&& spec_stack_pop(m3).next == a
            &&& spec_stack_pop(m3).scenes == m.scenes.push(a)
        }),
{
    let m3 = spec_stack_swap(spec_stack_push(spec_stack_push(m, a), b));
    assert(m3.scenes.drop_last() =~= m.scenes.push(a));
    assert(m3.scenes.drop_last().last() == a);
}

/// Replacing while a scene is running discards the old top of the
/// stack, pushes the replacement, requests a flush, and leaves the
/// replacement pending; the swap then makes it the running scene.
pub proof fn lemma_replace_swaps_in_replacement(m: StackModel, c: usize)
    requires
        m.scenes.len() > 0,
    ensures
        spec_stack_replace(m, c).scenes == m.scenes.drop_last().push(c),
        spec_stack_replace(m, c).flush,
        spec_stack_replace(m, c).next == c,
        spec_stack_swap(spec_stack_replace(m, c)).running == c,
{
}

// --------------------------------------------------------------------
// The scene manager.
// --------------------------------------------------------------------

/// Everything of a node except its pause flag and its children list.
pub open spec fn lifecycle_eq(a: Node, b: Node) -> bool {
    &&& a.id == b.id
    &&& a.name@ == b.name@
    &&& a.kind == b.kind
    &&& a.behavior == b.behavior
    &&& a.visible == b.visible
    &&& a.dirty == b.dirty
    &&& a.timing.priority == b.timing.priority
    &&& a.is_timing_target == b.is_timing_target
    &&& a.parent == b.parent
    &&& is_container(a) == is_container(b)
    &&& a.transform == b.transform
    &&& a.cached == b.cached
    &&& a.cached_inv == b.cached_inv
    &&& a.motion == b.motion
    &&& a.filter == b.filter
    &&& a.replacement == b.replacement
    &&& a.text@ == b.text@
}

/// What the running scene asks of the manager: a boot scene requests
/// its replacement, every other node requests nothing.
pub open spec fn spec_transition(s: Seq<Node>, i: int) -> SceneActions {
    if 0 <= i < s.len() && s[i].behavior == NodeBehavior::Boot {
        SceneActions::REPLACE
    } else {
        SceneActions::NO_ACTION
    }
}

/// The lifecycle journal entries of one scene swap, in order: the
/// outgoing scene starts its exit, exits, and is flushed if requested;
/// then the incoming scene enters and finishes entering.
pub open spec fn spec_swap_events(s: Seq<Node>, nextx: usize, r: usize, fl: bool) -> Seq<SceneEvent> {
    let notrans = !(0 <= nextx < s.len() && s[nextx as int].kind == NodeType::SceneTransition);
    (if notrans && r != 0 {
        seq![SceneEvent::StartExit(r), SceneEvent::Exit(r)] + (if fl {
            seq![SceneEvent::Flush(r)]
        } else {
            Seq::empty()
        })
    } else {
        Seq::empty()
    }) + (if notrans && nextx != 0 {
        seq![SceneEvent::Enter(nextx), SceneEvent::EndEnter(nextx)]
    } else {
        Seq::empty()
    })
}

/// One io delivery journal entry per subtree member.
pub open spec fn spec_io_events(sub: Seq<usize>) -> Seq<SceneEvent> {
    sub.map_values(|t: usize| SceneEvent::Io(t))
}

/// Orchestrates the scene stack, the transition state machine, the
/// per-frame visit of the running scene, and the diagnostic overlays.
pub struct SceneManager {
    pub world_properties: WorldProperties,
    pub perform_clear: bool,
    pub context: Context,
    pub scenes: SceneStack,
    pub global_data: GlobalSceneData,
    pub fps_color: Palette,
    pub coords_color: Palette,
}

impl SceneManager {
    pub fn new() -> (r: SceneManager)
        ensures
            !r.perform_clear,
            r.scenes.scenes@ == Seq::<usize>::empty(),
            r.scenes.next_scene == 0,
            r.scenes.running_scene == 0,
            !r.scenes.signal_scene_to_flush,
            r.global_data.events@ == Seq::<SceneEvent>::empty(),
            r.global_data.io_event_targets@ == Seq::<usize>::empty(),
            r.context.trace@ == Seq::<crate::context::DrawRec>::empty(),
            r.fps_color == (Palette { r: 255, g: 255, b: 255, a: 127 }),
            r.coords_color == (Palette { r: 0, g: 255, b: 0, a: 255 }),
    {
        SceneManager {
            world_properties: WorldProperties::new(),
            perform_clear: false,
            context: Context::new(),
            scenes: SceneStack::new(),
            global_data: GlobalSceneData::new(),
            fps_color: Palette::WHITE(127),
            coords_color: Palette::LIME(),
        }
    }

    /// Adopt the world's configuration and derive the view-space
    /// transform: the window scaled against the logical view, centered
    /// when asked.
    pub fn initialize(&mut self, world_props: &WorldProperties)
        requires
            world_props.window_width < 0x4000_0000,
            world_props.window_height < 0x4000_0000,
        ensures
            props_eq(final(self).world_properties, *world_props),
            final(self).perform_clear == world_props.perform_clear,
            final(self).context.view_t == (Transform {
                px: if world_props.view_centered {
                    (world_props.window_width * 500) as i64
                } else {
                    0
                },
                py: if world_props.view_centered {
                    (world_props.window_height * 500) as i64
                } else {
                    0
                },
                deg: 0,
                sx: spec_fx_div(world_props.window_width * 1000, world_props.view_width as int)
                    as i64,
                sy: spec_fx_div(world_props.window_height * 1000, world_props.view_height as int)
                    as i64,
            }),
            final(self).scenes == old(self).scenes,
            final(self).global_data == old(self).global_data,
            final(self).context.trace == old(self).context.trace,
            final(self).context.prims == old(self).context.prims,
    {
        self.world_properties.set(world_props);
        self.perform_clear = world_props.perform_clear;
        let ww: i64 = (world_props.window_width as i64) * 1000;
        let wh: i64 = (world_props.window_height as i64) * 1000;
        let sx = fx_div(ww, world_props.view_width);
        let sy = fx_div(wh, world_props.view_height);
        let px: i64 = if world_props.view_centered {
            (world_props.window_width as i64) * 500
        } else {
            0
        };
        let py: i64 = if world_props.view_centered {
            (world_props.window_height as i64) * 500
        } else {
            0
        };
        let t = Transform { px, py, deg: 0, sx, sy };
        self.context.set_view_space(t);
    }

    pub fn global_data_mut(&mut self) -> (r: &mut GlobalSceneData)
        ensures
            *r == old(self).global_data,
            *final(self) == (SceneManager { global_data: *final(r), ..*old(self) }),
    {
        &mut self.global_data
    }

    /// Record a clear when the configuration asks for one per frame.
    pub fn pre_process(&mut self)
        ensures
            old(self).perform_clear ==> *final(self) == (SceneManager {
                context: final(self).context,
                ..*old(self)
            }) && final(self).context == (Context {
                prims: final(self).context.prims,
                ..old(self).context
            }) && final(self).context.prims@ == old(self).context.prims@.push(
                crate::context::PrimRec::Clear { color: old(self).context.draw_color },
            ),
            !old(self).perform_clear ==> *final(self) == *old(self),
    {
        if self.perform_clear {
            self.context.clear();
        }
    }

    /// Record the end of the frame.
    pub fn post_process(&mut self)
        ensures
            *final(self) == (SceneManager { context: final(self).context, ..*old(self) }),
            final(self).context == (Context {
                prims: final(self).context.prims,
                ..old(self).context
            }),
            final(self).context.prims@ == old(self).context.prims@.push(
                crate::context::PrimRec::Present,
            ),
    {
        self.context.post();
    }

    /// What the node at `idx` asks of the manager this frame.
    pub fn node_transition(arena: &NodeArena, idx: usize) -> (r: SceneActions)
        requires
            idx < arena.nodes@.len(),
        ensures
            r == spec_transition(arena.nodes@, idx as int),
    {
        match arena.nodes[idx].behavior {
            NodeBehavior::Boot => SceneActions::REPLACE,
            _ => SceneActions::NO_ACTION,
        }
    }

    /// Take the node's replacement scene; it is consumed, so a second
    /// take yields nothing.
    pub fn take_transition_scene(arena: &mut NodeArena, idx: usize) -> (r: Option<usize>)
        requires
            old(arena).wf(),
            idx < old(arena).nodes@.len(),
        ensures
            final(arena).wf(),
            wf_cache(old(arena).nodes@) ==> wf_cache(final(arena).nodes@),
            r == old(arena).nodes@[idx as int].replacement,
            final(arena).nodes@ == old(arena).nodes@.update(
                idx as int,
                (Node { replacement: Option::None, ..old(arena).nodes@[idx as int] }),
            ),
            r matches Option::Some(repl) ==> (repl as int) < old(arena).nodes@.len(),
    {
        let ghost s0 = arena.nodes@;
        proof {
            assert(wf_node(s0, idx as int));
        }
        let n = &mut arena.nodes[idx];
        let r = n.replacement;
        n.replacement = Option::None;
        proof {
            let s1 = arena.nodes@;
            assert forall|i: int| 0 <= i < s1.len() implies #[trigger] wf_node(s1, i) by {
                assert(wf_node(s0, i));
                assert(kids(s1[i]) == kids(s0[i]));
                assert forall|k: int| 0 <= k < kids(s1[i]).len() implies i < #[trigger] kids(
                    s1[i],
                )[k] < s1.len() && s1[kids(s1[i])[k] as int].parent == Option::Some(s1[i].id) by {
                    assert(kids(s0[i])[k] == kids(s1[i])[k]);
                }
            }
            assert forall|i: int|
                0 <= i < s1.len() && wf_cache(s0) implies crate::node::cache_ok(
                #[trigger] s1[i],
            ) by {
                assert(crate::node::cache_ok(s0[i]));
            }
        }
        r
    }

    /// Push a scene: it becomes the pending next scene.
    pub fn push_scene(&mut self, scene: usize)
        ensures
            final(self).scenes.model() == spec_stack_push(old(self).scenes.model(), scene),
            *final(self) == (SceneManager { scenes: final(self).scenes, ..*old(self) }),
    {
        self.scenes.push(scene);
    }

    /// Pop the running top scene; the scene beneath it becomes the
    /// pending next scene and a flush is requested. A no-op on an
    /// empty stack.
    pub fn pop_scene(&mut self)
        ensures
            final(self).scenes.model() == spec_stack_pop(old(self).scenes.model()),
            *final(self) == (SceneManager { scenes: final(self).scenes, ..*old(self) }),
    {
        self.scenes.pop();
    }

    /// Replace the running top scene. Replacing with no running scene
    /// is a wiring error, excluded by precondition.
    pub fn replace_scene(&mut self, scene: usize)
        requires
            old(self).scenes.running_scene != 0,
        ensures
            final(self).scenes.model() == spec_stack_replace(old(self).scenes.model(), scene),
            *final(self) == (SceneManager { scenes: final(self).scenes, ..*old(self) }),
    {
        self.scenes.replace(scene);
    }

    /// Dispatch an input event: a pointer move updates the shared
    /// pointer state and is broadcast to the whole running subtree.
    #[verifier::loop_isolation(false)]
    pub fn io_event(&mut self, arena: &NodeArena, io_event: IOEventData)
        requires
            arena.wf(),
            old(self).scenes.in_bounds(arena.nodes@.len() as int),
        ensures
            final(self).scenes == old(self).scenes,
            final(self).context == old(self).context,
            io_event.event == IOEvent::MOUSE ==> final(self).global_data == (GlobalSceneData {
                mouse: io_event.coord,
                mouse_changed: true,
                events: final(self).global_data.events,
                ..old(self).global_data
            }) && final(self).global_data.events@ == old(self).global_data.events@ + (if old(
                self,
            ).scenes.running_scene != 0 {
                spec_io_events(spec_subtree_seq(arena.nodes@, old(self).scenes.running_scene as int))
            } else {
                Seq::<SceneEvent>::empty()
            }),
            io_event.event != IOEvent::MOUSE ==> *final(self) == *old(self),
    {
        match io_event.event {
            IOEvent::MOUSE => {
                self.global_data.set_mouse(io_event.coord.0, io_event.coord.1);
                let running = self.scenes.running_scene;
                let rnil = self.scenes.running_scene_nil(arena);
                if !rnil {
                    let ghost ev0 = self.global_data.events@;
                    let mut ids: Vec<usize> = Vec::new();
                    arena.collect_subtree(running, &mut ids);
                    let ghost sub = spec_subtree_seq(arena.nodes@, running as int);
                    proof {
                        assert(ids@ =~= sub);
                    }
                    let n = ids.len();
                    let mut i: usize = 0;
                    proof {
                        assert(self.global_data.events@ =~= ev0 + spec_io_events(
                            sub.take(0),
                        ));
                    }
                    while i < n
                        invariant
                            i <= n,
                            n == sub.len(),
                            ids@ == sub,
                            *self == (SceneManager { global_data: self.global_data, ..*old(self) }),
                            self.global_data == (GlobalSceneData {
                                mouse: io_event.coord,
                                mouse_changed: true,
                                events: self.global_data.events,
                                ..old(self).global_data
                            }),
                            self.global_data.events@ == ev0 + spec_io_events(sub.take(i as int)),
                        decreases n - i,
                    {
                        let t = ids[i];
                        self.global_data.events.push(SceneEvent::Io(t));
                        proof {
                            assert(self.global_data.events@ =~= ev0 + spec_io_events(
                                sub.take(i as int + 1),
                            ));
                        }
                        i = i + 1;
                    }
                    proof {
                        assert(sub.take(n as int) =~= sub);
                    }
                } else {
                    proof {
                        assert(self.global_data.events@ =~= self.global_data.events@
                            + Seq::<SceneEvent>::empty());
                    }
                }
            },
            _ => {},
        }
    }

    /// Record the diagnostic counter overlay; times in nanoseconds.
    pub fn render_stats(
        &mut self,
        fps: u64,
        ups: u64,
        avg_ren_time: u64,
        avg_up_time: u64,
        avg_blit_time: u64,
    )
        ensures
            *final(self) == (SceneManager { context: final(self).context, ..*old(self) }),
            final(self).context == (Context {
                prims: final(self).context.prims,
                draw_color: old(self).fps_color,
                ..old(self).context
            }),
            final(self).context.prims@ == old(self).context.prims@.push(
                crate::context::PrimRec::Stats {
                    fps,
                    ups,
                    avg_ren_time,
                    avg_up_time,
                    avg_blit_time,
                    color: old(self).fps_color,
                },
            ),
    {
        let c = self.fps_color;
        self.context.set_draw_color(&c);
        self.context.stats(fps, ups, avg_ren_time, avg_up_time, avg_blit_time);
    }

    /// Record the pointer coordinate overlay.
    pub fn render_coordinates(&mut self)
        ensures
            *final(self) == (SceneManager { context: final(self).context, ..*old(self) }),
            final(self).context == (Context {
                prims: final(self).context.prims,
                draw_color: old(self).coords_color,
                ..old(self).context
            }),
            final(self).context.prims@ == old(self).context.prims@.push(
                crate::context::PrimRec::Coords {
                    mx: old(self).global_data.mouse.0,
                    my: old(self).global_data.mouse.1,
                    vx: old(self).global_data.view.0,
                    vy: old(self).global_data.view.1,
                    color: old(self).coords_color,
                },
            ),
    {
        let c = self.coords_color;
        self.context.set_draw_color(&c);
        let mx = self.global_data.mouse.0;
        let my = self.global_data.mouse.1;
        let vx = self.global_data.view.0;
        let vy = self.global_data.view.1;
        self.context.coords(mx, my, vx, vy);
    }
}

/// Assemble the scene-swap arena relations: from the three passes
/// (exit pause, flush, enter resume) to the end-to-end statement.
proof fn lemma_swap_assembly(
    s0: Seq<Node>,
    s1: Seq<Node>,
    s2: Seq<Node>,
    sfin: Seq<Node>,
    nextx: usize,
    r: usize,
    fl: bool,
    notrans: bool,
)
    requires
        s1.len() == s0.len(),
        s2.len() == s0.len(),
        sfin.len() == s0.len(),
        (r as int) < s0.len(),
        (nextx as int) < s0.len(),
        notrans && r != 0 ==> forall|j: int|
            0 <= j < s0.len() ==> #[trigger] s1[j] == if in_subtree(s0, r as int, j) && j
                != r {
                with_paused(s0[j], true)
            } else {
                s0[j]
            },
        !(notrans && r != 0) ==> s1 == s0,
        notrans && r != 0 && fl ==> (forall|j: int|
            0 <= j < s0.len() ==> flush_eq(#[trigger] s2[j], s1[j])) && (forall|j: int|
            0 <= j < s0.len() ==> (if in_subtree(s1, r as int, j) {
                kids(#[trigger] s2[j]).len() == 0
            } else {
                s2[j] == s1[j]
            })),
        !(notrans && r != 0 && fl) ==> s2 == s1,
        notrans && nextx != 0 ==> forall|j: int|
            0 <= j < s0.len() ==> #[trigger] sfin[j] == if in_subtree(s2, nextx as int, j) && j
                != nextx {
                with_paused(s2[j], false)
            } else {
                s2[j]
            },
        !(notrans && nextx != 0) ==> sfin == s2,
    ensures
        forall|j: int|
            0 <= j < s0.len() ==> lifecycle_eq(#[trigger] sfin[j], s0[j]),
        notrans && r != 0 && fl ==> forall|j: int|
            0 <= j < s0.len() && in_subtree(s0, r as int, j) ==> kids(
                #[trigger] sfin[j],
            ).len() == 0,
        forall|j: int|
            0 <= j < s0.len() && !(notrans && r != 0 && fl && in_subtree(s0, r as int, j))
                ==> kids(#[trigger] sfin[j]) == kids(s0[j]),
        notrans && nextx != 0 ==> forall|j: int|
            0 <= j < s0.len() && in_subtree(sfin, nextx as int, j) && j != nextx
                ==> !(#[trigger] sfin[j]).timing.paused,
        notrans && r != 0 ==> forall|j: int|
            0 <= j < s0.len() && in_subtree(s0, r as int, j) && j != r && !(notrans && nextx != 0
                && in_subtree(sfin, nextx as int, j) && j != nextx)
                ==> (#[trigger] sfin[j]).timing.paused,
        forall|j: int|
            0 <= j < s0.len() && !(notrans && r != 0 && in_subtree(s0, r as int, j) && j != r)
                && !(notrans && nextx != 0 && in_subtree(sfin, nextx as int, j) && j != nextx)
                ==> (#[trigger] sfin[j]).timing.paused == s0[j].timing.paused,
        sfin[nextx as int].kind == s0[nextx as int].kind,
{
    assert(crate::node::same_shape(s0, s1)) by {
        assert forall|i: int| 0 <= i < s0.len() implies kids(s0[i]) == kids(
            #[trigger] s1[i],
        ) by {
            if s1[i] == with_paused(s0[i], true) {
                assert(kids(with_paused(s0[i], true)) == kids(s0[i]));
            }
        }
    }
    assert(crate::node::same_shape(s2, sfin)) by {
        assert forall|i: int| 0 <= i < s2.len() implies kids(s2[i]) == kids(
            #[trigger] sfin[i],
        ) by {
            if sfin[i] == with_paused(s2[i], false) {
                assert(kids(with_paused(s2[i], false)) == kids(s2[i]));
            }
        }
    }
    assert forall|j: int| 0 <= j < s0.len() implies lifecycle_eq(#[trigger] sfin[j], s0[j]) by {
        if notrans && r != 0 && fl {
            assert(flush_eq(s2[j], s1[j]));
        }
    }
    assert forall|j: int|
        0 <= j < s0.len() && !(notrans && r != 0 && fl && in_subtree(s0, r as int, j)) implies
        kids(#[trigger] sfin[j]) == kids(s0[j]) by {
        if notrans && r != 0 && fl {
            crate::node::lemma_in_subtree_same_shape(s1, s0, r as int, j);
        }
    }
    if notrans && r != 0 && fl {
        assert forall|j: int|
            0 <= j < s0.len() && in_subtree(s0, r as int, j) implies kids(
            #[trigger] sfin[j],
        ).len() == 0 by {
            crate::node::lemma_in_subtree_same_shape(s1, s0, r as int, j);
        }
    }
    if notrans && nextx != 0 {
        assert forall|j: int|
            0 <= j < s0.len() && in_subtree(sfin, nextx as int, j) && j != nextx implies !(
        #[trigger] sfin[j]).timing.paused by {
            crate::node::lemma_in_subtree_same_shape(s2, sfin, nextx as int, j);
        }
    }
    if notrans && r != 0 {
        assert forall|j: int|
            0 <= j < s0.len() && in_subtree(s0, r as int, j) && j != r && !(notrans && nextx != 0
                && in_subtree(sfin, nextx as int, j) && j != nextx) implies (
        #[trigger] sfin[j]).timing.paused by {
            assert(s1[j] == with_paused(s0[j], true));
            assert(s2[j].timing == s1[j].timing) by {
                if fl {
                    assert(flush_eq(s2[j], s1[j]));
                }
            }
            if notrans && nextx != 0 {
                crate::node::lemma_in_subtree_same_shape(s2, sfin, nextx as int, j);
            }
        }
    }
    assert forall|j: int|
        0 <= j < s0.len() && !(notrans && r != 0 && in_subtree(s0, r as int, j) && j != r)
            && !(notrans && nextx != 0 && in_subtree(sfin, nextx as int, j) && j != nextx) implies
        (#[trigger] sfin[j]).timing.paused == s0[j].timing.paused by {
        assert(s1[j].timing.paused == s0[j].timing.paused);
        assert(s2[j].timing == s1[j].timing) by {
            if notrans && r != 0 && fl {
                assert(flush_eq(s2[j], s1[j]));
            }
        }
        if notrans && nextx != 0 {
            crate::node::lemma_in_subtree_same_shape(s2, sfin, nextx as int, j);
        }
    }
    assert(sfin[nextx as int].kind == s0[nextx as int].kind) by {
        if notrans && r != 0 && fl {
            assert(flush_eq(s2[nextx as int], s1[nextx as int]));
        }
    }
}

impl SceneManager {
    /// Perform the scene swap: signal the outgoing scene to exit
    /// (pausing its descendants), flush its subtree when requested,
    /// promote the pending scene to running, and signal the incoming
    /// scene to enter (resuming its descendants). Transition-kind
    /// scenes pass through without lifecycle calls.
    #[verifier::rlimit(60)]
    pub fn set_next_scene(&mut self, arena: &mut NodeArena)
        requires
            old(arena).wf(),
            old(self).scenes.in_bounds(old(arena).nodes@.len() as int),
        ensures
            final(arena).wf(),
            wf_cache(old(arena).nodes@) ==> wf_cache(final(arena).nodes@),
            final(arena).nodes@.len() == old(arena).nodes@.len(),
            final(self).scenes.model() == spec_stack_swap(old(self).scenes.model()),
            final(self).scenes.in_bounds(old(arena).nodes@.len() as int),
            *final(self) == (SceneManager {
                scenes: final(self).scenes,
                global_data: final(self).global_data,
                ..*old(self)
            }),
            final(self).global_data == (GlobalSceneData {
                events: final(self).global_data.events,
                ..old(self).global_data
            }),
            final(self).global_data.events@ == old(self).global_data.events@ + spec_swap_events(
                old(arena).nodes@,
                old(self).scenes.next_scene,
                old(self).scenes.running_scene,
                old(self).scenes.signal_scene_to_flush,
            ),
            forall|j: int|
                0 <= j < old(arena).nodes@.len() ==> lifecycle_eq(
                    #[trigger] final(arena).nodes@[j],
                    old(arena).nodes@[j],
                ),
            ({
                let s0 = old(arena).nodes@;
                let nextx = old(self).scenes.next_scene;
                let r = old(self).scenes.running_scene;
                let fl = old(self).scenes.signal_scene_to_flush;
                let notrans = s0[nextx as int].kind != NodeType::SceneTransition;
                let cond_flush = notrans && r != 0 && fl;
                let cond_enter = notrans && nextx != 0;
                let cond_exit = notrans && r != 0;
                &&& (cond_flush ==> forall|j: int|
                    0 <= j < s0.len() && in_subtree(s0, r as int, j) ==> kids(
                        #[trigger] final(arena).nodes@[j],
                    ).len() == 0)
                &&& (forall|j: int|
                    0 <= j < s0.len() && !(cond_flush && in_subtree(s0, r as int, j)) ==> kids(
                        #[trigger] final(arena).nodes@[j],
                    ) == kids(s0[j]))
                &&& (cond_enter ==> forall|j: int|
                    0 <= j < s0.len() && in_subtree(final(arena).nodes@, nextx as int, j) && j
                        != nextx ==> !(#[trigger] final(arena).nodes@[j]).timing.paused)
                &&& (cond_exit ==> forall|j: int|
                    0 <= j < s0.len() && in_subtree(s0, r as int, j) && j != r && !(cond_enter
                        && in_subtree(final(arena).nodes@, nextx as int, j) && j != nextx)
                        ==> (#[trigger] final(arena).nodes@[j]).timing.paused)
                &&& (forall|j: int|
                    0 <= j < s0.len() && !(cond_exit && in_subtree(s0, r as int, j) && j != r)
                        && !(cond_enter && in_subtree(final(arena).nodes@, nextx as int, j) && j
                        != nextx) ==> (#[trigger] final(arena).nodes@[j]).timing.paused
                        == s0[j].timing.paused)
            }),
    {
        let ghost s0 = arena.nodes@;
        let ghost ev0 = self.global_data.events@;
        let nextx = self.scenes.next_scene;
        let r = self.scenes.running_scene;
        let fl = self.scenes.signal_flush();
        let notrans = !self.scenes.next_scene_is_transition(arena);
        let ghost mut s1 = s0;
        if notrans {
            let rnil = self.scenes.running_scene_nil(arena);
            if !rnil {
                self.global_data.events.push(SceneEvent::StartExit(r));
                self.global_data.events.push(SceneEvent::Exit(r));
                arena.ripple_pause(r, true);
                proof {
                    s1 = arena.nodes@;
                }
                if fl {
                    arena.flush(r, true);
                    self.global_data.events.push(SceneEvent::Flush(r));
                }
            }
        }
        let ghost s2 = arena.nodes@;
        self.scenes.make_running_scene();
        self.scenes.make_next_scene_nil();
        proof {
            assert(arena.nodes@[nextx as int].kind == s0[nextx as int].kind) by {
                if notrans && r != 0 {
                    assert(s1[nextx as int].kind == s0[nextx as int].kind);
                    if fl {
                        assert(flush_eq(s2[nextx as int], s1[nextx as int]));
                    }
                }
            }
        }
        let rtrans = self.scenes.running_scene_is_transition(arena);
        if !rtrans {
            let rnil2 = self.scenes.running_scene_nil(arena);
            if !rnil2 {
                let run_now = self.scenes.running_scene();
                self.global_data.events.push(SceneEvent::Enter(run_now));
                arena.ripple_pause(run_now, false);
                self.global_data.events.push(SceneEvent::EndEnter(run_now));
            }
        }
        proof {
            lemma_swap_assembly(s0, s1, s2, arena.nodes@, nextx, r, fl, notrans);
            assert(self.global_data.events@ =~= ev0 + spec_swap_events(s0, nextx, r, fl));
        }
    }
}

/// Everything of a node that a whole frame leaves untouched: only
/// pause flags, children lists, dirty flags, cached matrices and the
/// consumed replacement may change.
pub open spec fn stable_eq(a: Node, b: Node) -> bool {
    &&& a.id == b.id
    &&& a.name@ == b.name@
    &&& a.kind == b.kind
    &&& a.behavior == b.behavior
    &&& a.visible == b.visible
    &&& a.timing.priority == b.timing.priority
    &&& a.is_timing_target == b.is_timing_target
    &&& a.parent == b.parent
    &&& is_container(a) == is_container(b)
    &&& a.transform == b.transform
    &&& a.motion == b.motion
    &&& a.filter == b.filter
    &&& a.text@ == b.text@
}

impl SceneManager {
    /// One frame: resolve a pending scene swap, refresh the pointer's
    /// view coordinates, let the running scene request its
    /// replacement, and visit the running scene's subtree. Returns
    /// false when no scenes remain, signalling the loop to end.
    #[verifier::rlimit(100)]
    pub fn visit(&mut self, arena: &mut NodeArena, interpolation: i64) -> (r: bool)
        requires
            old(arena).wf(),
            wf_cache(old(arena).nodes@),
            old(self).scenes.in_bounds(old(arena).nodes@.len() as int),
        ensures
            final(arena).wf(),
            wf_cache(final(arena).nodes@),
            final(arena).nodes@.len() == old(arena).nodes@.len(),
            final(self).scenes.in_bounds(old(arena).nodes@.len() as int),
            old(self).scenes.scenes@.len() == 0 ==> !r && *final(self) == *old(self)
                && *final(arena) == *old(arena),
            old(self).scenes.scenes@.len() > 0 ==> r,
            old(self).scenes.scenes@.len() > 0 ==> ({
                let s_old = old(arena).nodes@;
                let m0 = old(self).scenes.model();
                let swapped = m0.next != 0;
                let m1 = if swapped {
                    spec_stack_swap(m0)
                } else {
                    m0
                };
                let run1 = m1.running;
                let boot = s_old[run1 as int].behavior == NodeBehavior::Boot;
                let repl = s_old[run1 as int].replacement;
                &&& final(self).scenes.model() == (if boot && repl is Some {
                    spec_stack_replace(m1, repl.unwrap())
                } else {
                    m1
                })
                &&& final(self).context.trace@ == old(self).context.trace@ + spec_visit_recs(
                    final(arena).nodes@,
                    run1 as int,
                    interpolation as int,
                    old(self).context.current,
                )
                &&& final(self).context.current == old(self).context.current
                &&& final(self).context.stack@ == old(self).context.stack@
                &&& final(self).context.view == old(self).context.view
                &&& final(self).context.view_t == old(self).context.view_t
                &&& final(self).context.prims == old(self).context.prims
                &&& final(self).context.draw_color == old(self).context.draw_color
                &&& final(self).global_data.events@ == old(self).global_data.events@ + (if swapped {
                    spec_swap_events(s_old, m0.next, m0.running, m0.flush)
                } else {
                    Seq::<SceneEvent>::empty()
                })
                &&& final(self).global_data.mouse == old(self).global_data.mouse
                &&& final(self).global_data.io_event_targets == old(self).global_data.io_event_targets
                &&& !final(self).global_data.mouse_changed
                &&& (old(self).global_data.mouse_changed ==> final(self).global_data.view == (
                    spec_mat_apply(
                        spec_inv_of_transform(old(self).context.view_t),
                        Point {
                            x: ((old(self).global_data.mouse.0 as i64) * 1000) as i64,
                            y: ((old(self).global_data.mouse.1 as i64) * 1000) as i64,
                        },
                    ).x,
                    spec_mat_apply(
                        spec_inv_of_transform(old(self).context.view_t),
                        Point {
                            x: ((old(self).global_data.mouse.0 as i64) * 1000) as i64,
                            y: ((old(self).global_data.mouse.1 as i64) * 1000) as i64,
                        },
                    ).y,
                ))
                &&& (!old(self).global_data.mouse_changed ==> final(self).global_data.view == old(
                    self,
                ).global_data.view)
                &&& (forall|j: int|
                    0 <= j < s_old.len() ==> stable_eq(#[trigger] final(arena).nodes@[j], s_old[j]))
                &&& (forall|j: int|
                    0 <= j < s_old.len() && j != run1 ==> (#[trigger] final(arena).nodes@[j]).replacement
                        == s_old[j].replacement)
                &&& final(arena).nodes@[run1 as int].replacement == (if boot {
                    Option::<usize>::None
                } else {
                    s_old[run1 as int].replacement
                })
                &&& *final(self) == (SceneManager {
                    context: final(self).context,
                    scenes: final(self).scenes,
                    global_data: final(self).global_data,
                    ..*old(self)
                })
            }),
    {
        let ghost s_old = arena.nodes@;
        let ghost c0 = self.context;
        if self.scenes.is_empty() {
            return false;
        }
        let swapped = !self.scenes.next_scene_nil(arena);
        if swapped {
            self.set_next_scene(arena);
        }
        let ghost s_swap = arena.nodes@;
        self.context.save();
        self.global_data.update_view_coords(&self.context);
        let running = self.scenes.running_scene();
        let action = SceneManager::node_transition(arena, running);
        proof {
            // The swap keeps every behavior tag and replacement slot,
            // so the transition decision matches the frame-entry state.
            assert(lifecycle_eq(s_swap[running as int], s_old[running as int]) || s_swap
                == s_old);
        }
        let is_replace = match action {
            SceneActions::REPLACE => true,
            _ => false,
        };
        if is_replace {
            let taken = SceneManager::take_transition_scene(arena, running);
            match taken {
                Option::Some(repl) => {
                    proof {
                        assert(wf_node(s_swap, running as int));
                    }
                    self.scenes.replace(repl);
                },
                Option::None => {},
            }
        }
        let ghost s_pre_visit = arena.nodes@;
        let ghost c_pre_visit = self.context;
        arena.visit(running, &mut self.context, interpolation);
        self.context.restore();
        proof {
            assert(core_same(final(arena).nodes@, s_pre_visit)) by {
                assert forall|j: int| 0 <= j < s_pre_visit.len() implies crate::node::core_eq(
                    #[trigger] arena.nodes@[j],
                    #[trigger] s_pre_visit[j],
                ) by {}
            }
            lemma_visit_recs_core(
                arena.nodes@,
                s_pre_visit,
                running as int,
                interpolation as int,
                c_pre_visit.current,
            );
            assert(self.context.stack@ =~= c0.stack@);
            assert(self.context.trace@ =~= c0.trace@ + spec_visit_recs(
                arena.nodes@,
                running as int,
                interpolation as int,
                c0.current,
            ));
            if !swapped {
                assert(self.global_data.events@ =~= old(self).global_data.events@
                    + Seq::<SceneEvent>::empty());
            }
        }
        true
    }
}

/// A scene's replacement is consumed exactly once: taking it leaves
/// the slot empty, so a second take yields nothing.
pub proof fn lemma_take_transition_consumed(s: Seq<Node>, idx: int)
    requires
        0 <= idx < s.len(),
    ensures
        ({
            let s1 = s.update(idx, (Node { replacement: Option::None, ..s[idx] }));
            let first = s[idx].replacement;
            let second = s1[idx].replacement;
            &&& second is None
            &&& s1.update(idx, (Node { replacement: Option::None, ..s1[idx] })) == s1
        }),
{
    let s1 = s.update(idx, (Node { replacement: Option::None, ..s[idx] }));
    assert(s1.update(idx, (Node { replacement: Option::None, ..s1[idx] })) =~= s1);
}

} // verus!
