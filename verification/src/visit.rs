//! The per-frame traversal: transform composition, lazy matrix
//! recomputation, transform filtering, and the draw trace.
//!
//! `spec_visit_recs` is the meaning of a visit: the sequence of draw
//! calls it makes, each under its composed transform. A node that is
//! not visible contributes nothing — neither itself nor any
//! descendant. A container contributes its own draw call first, then
//! its children's, in insertion order.

use vstd::prelude::*;

use crate::context::{spec_bump, Context, DrawRec, Palette, RenderStyle};
use crate::node::{
    cache_ok, core_eq, in_kids_prefix, in_subtree, is_container, kids, lemma_kids_prefix_to_child,
    lemma_sibling_subtrees_disjoint, lemma_subtree_above, wf_arena, wf_cache, wf_node, Node,
    NodeArena, NodeBehavior, Nodes, spec_motion_interp,
};
use crate::transform::{
    inv_of_transform, mat_of_transform, spec_inv_of_transform, spec_mat_apply, spec_mat_inverse,
    spec_mat_mul, spec_mat_of_transform, AABBox, Mat3, Point, Transform, FX_ONE,
};


verus! {

/// The transform a node presents at render time: an orbit anchor
/// replaces its rotation by the interpolated motion angle; every other
/// node presents its stored transform.
pub open spec fn spec_eff_transform(n: Node, interp: int) -> Transform {
    if n.behavior == NodeBehavior::OrbitAnchor {
        Transform { deg: spec_motion_interp(n.motion, interp) as i64, ..n.transform }
    } else {
        n.transform
    }
}

/// A transform with its excluded components replaced by the identity
/// components.
pub open spec fn spec_filtered_transform(t: Transform, ex_t: bool, ex_r: bool, ex_s: bool) -> Transform {
    Transform {
        px: if ex_t {
            0
        } else {
            t.px
        },
        py: if ex_t {
            0
        } else {
            t.py
        },
        deg: if ex_r {
            0
        } else {
            t.deg
        },
        sx: if ex_s {
            FX_ONE
        } else {
            t.sx
        },
        sy: if ex_s {
            FX_ONE
        } else {
            t.sy
        },
    }
}

/// Compute a transform with excluded components dropped.
pub fn filtered_transform(t: &Transform, ex_t: bool, ex_r: bool, ex_s: bool) -> (r: Transform)
    ensures
        r == spec_filtered_transform(*t, ex_t, ex_r, ex_s),
{
    Transform {
        px: if ex_t {
            0
        } else {
            t.px
        },
        py: if ex_t {
            0
        } else {
            t.py
        },
        deg: if ex_r {
            0
        } else {
            t.deg
        },
        sx: if ex_s {
            FX_ONE
        } else {
            t.sx
        },
        sy: if ex_s {
            FX_ONE
        } else {
            t.sy
        },
    }
}

/// The base transform a filter node hands to its children: the current
/// transform with the parent's full transform cancelled and only the
/// non-excluded components reintroduced.
pub open spec fn spec_filter_base(s: Seq<Node>, i: int, cur: Mat3) -> Mat3 {
    let n = s[i];
    match n.parent {
        Option::Some(p) => if p as int >= s.len() {
            cur
        } else {
            let pt = s[p as int].transform;
            spec_mat_mul(
                spec_mat_mul(cur, spec_inv_of_transform(pt)),
                spec_mat_of_transform(
                    spec_filtered_transform(
                        pt,
                        n.filter.exclude_translation,
                        n.filter.exclude_rotation,
                        n.filter.exclude_scale,
                    ),
                ),
            )
        },
        Option::None => cur,
    }
}

/// The draw calls a visit of `i` makes, under current transform `cur`.
pub open spec fn spec_visit_recs(s: Seq<Node>, i: int, interp: int, cur: Mat3) -> Seq<DrawRec>
    decreases s.len() - i, 1int, 0int,
{
    if !(0 <= i < s.len()) {
        Seq::empty()
    } else {
        let n = s[i];
        if !n.visible {
            Seq::empty()
        } else if n.behavior == NodeBehavior::Filter {
            let base = spec_filter_base(s, i, cur);
            spec_visit_kids(s, i, kids(n), kids(n).len() as int, interp, base)
        } else {
            let m = spec_mat_mul(cur, spec_mat_of_transform(spec_eff_transform(n, interp)));
            seq![DrawRec { id: i as usize, xform: m }] + spec_visit_kids(
                s,
                i,
                kids(n),
                kids(n).len() as int,
                interp,
                m,
            )
        }
    }
}

/// The draw calls of the first `k` children of `i`, in order.
pub open spec fn spec_visit_kids(
    s: Seq<Node>,
    i: int,
    ks: Seq<usize>,
    k: int,
    interp: int,
    cur: Mat3,
) -> Seq<DrawRec>
    decreases s.len() - i, 0int, k,
{
    if k <= 0 || k > ks.len() {
        Seq::empty()
    } else {
        spec_visit_kids(s, i, ks, k - 1, interp, cur) + (if i < ks[k - 1] < s.len() {
            spec_visit_recs(s, ks[k - 1] as int, interp, cur)
        } else {
            Seq::empty()
        })
    }
}

/// How many composed-matrix recomputations a visit of `i` performs: one
/// per visited node that is dirty or continuously animated.
pub open spec fn spec_visit_cost(s: Seq<Node>, i: int) -> nat
    decreases s.len() - i, 1int, 0int,
{
    if !(0 <= i < s.len()) {
        0
    } else {
        let n = s[i];
        if !n.visible {
            0
        } else if n.behavior == NodeBehavior::Filter {
            spec_visit_cost_kids(s, i, kids(n), kids(n).len() as int)
        } else {
            (if n.dirty || n.behavior == NodeBehavior::OrbitAnchor {
                1nat
            } else {
                0nat
            }) + spec_visit_cost_kids(s, i, kids(n), kids(n).len() as int)
        }
    }
}

/// The recomputation count over the first `k` children of `i`.
pub open spec fn spec_visit_cost_kids(s: Seq<Node>, i: int, ks: Seq<usize>, k: int) -> nat
    decreases s.len() - i, 0int, k,
{
    if k <= 0 || k > ks.len() {
        0
    } else {
        spec_visit_cost_kids(s, i, ks, k - 1) + (if i < ks[k - 1] < s.len() {
            spec_visit_cost(s, ks[k - 1] as int)
        } else {
            0nat
        })
    }
}

/// Two arenas whose nodes agree on everything but dirty flags and
/// cached matrices.
pub open spec fn core_same(s1: Seq<Node>, s2: Seq<Node>) -> bool {
    &&& s1.len() == s2.len()
    &&& forall|j: int| 0 <= j < s1.len() ==> core_eq(#[trigger] s1[j], #[trigger] s2[j])
}

/// The draw trace of a visit depends only on the core of each node,
/// never on dirty flags or cached matrices.
pub proof fn lemma_visit_recs_core(s1: Seq<Node>, s2: Seq<Node>, i: int, interp: int, cur: Mat3)
    requires
        core_same(s1, s2),
    ensures
        spec_visit_recs(s1, i, interp, cur) == spec_visit_recs(s2, i, interp, cur),
    decreases s1.len() - i, 1int, 0int,
{
    if 0 <= i < s1.len() {
        assert(core_eq(s1[i], s2[i]));
        let n1 = s1[i];
        let n2 = s2[i];
        if n1.visible {
            if n1.behavior == NodeBehavior::Filter {
                match n1.parent {
                    Option::Some(p) => {
                        if 0 <= p < s1.len() {
                            assert(core_eq(s1[p as int], s2[p as int]));
                        }
                    },
                    Option::None => {},
                }
                lemma_visit_kids_core(
                    s1,
                    s2,
                    i,
                    kids(n1),
                    kids(n1).len() as int,
                    interp,
                    spec_filter_base(s1, i, cur),
                );
            } else {
                let m = spec_mat_mul(cur, spec_mat_of_transform(spec_eff_transform(n1, interp)));
                lemma_visit_kids_core(s1, s2, i, kids(n1), kids(n1).len() as int, interp, m);
            }
        }
    }
}

proof fn lemma_visit_kids_core(
    s1: Seq<Node>,
    s2: Seq<Node>,
    i: int,
    ks: Seq<usize>,
    k: int,
    interp: int,
    cur: Mat3,
)
    requires
        core_same(s1, s2),
    ensures
        spec_visit_kids(s1, i, ks, k, interp, cur) == spec_visit_kids(s2, i, ks, k, interp, cur),
    decreases s1.len() - i, 0int, k,
{
    if 0 < k <= ks.len() {
        lemma_visit_kids_core(s1, s2, i, ks, k - 1, interp, cur);
        if i < ks[k - 1] < s1.len() {
            lemma_visit_recs_core(s1, s2, ks[k - 1] as int, interp, cur);
        }
    }
}

/// A counter advanced by `n`, held at the `u64` ceiling — the sum of
/// single saturating increments.
pub open spec fn spec_count_saturating(c: int, n: int) -> int {
    if c + n <= u64::MAX as int {
        c + n
    } else {
        u64::MAX as int
    }
}

/// The recomputation count of a subtree depends only on that subtree's
/// slots.
pub proof fn lemma_visit_cost_local(s1: Seq<Node>, s2: Seq<Node>, i: int)
    requires
        s1.len() == s2.len(),
        forall|j: int| #[trigger] in_subtree(s1, i, j) ==> s2[j] == s1[j],
    ensures
        spec_visit_cost(s2, i) == spec_visit_cost(s1, i),
    decreases s1.len() - i, 1int, 0int,
{
    if 0 <= i < s1.len() {
        assert(in_subtree(s1, i, i));
        assert(s2[i] == s1[i]);
        let ks = kids(s1[i]);
        assert forall|j: int| #[trigger] in_kids_prefix(s1, i, ks, ks.len() as int, j) implies s2[j]
            == s1[j] by {
            assert(in_subtree(s1, i, j));
        }
        lemma_visit_cost_local_kids(s1, s2, i, ks, ks.len() as int);
    }
}

/// The children-prefix recomputation count depends only on the slots
/// of the prefix subtrees.
pub proof fn lemma_visit_cost_local_kids(s1: Seq<Node>, s2: Seq<Node>, i: int, ks: Seq<usize>, k: int)
    requires
        s1.len() == s2.len(),
        forall|j: int| #[trigger] in_kids_prefix(s1, i, ks, k, j) ==> s2[j] == s1[j],
    ensures
        spec_visit_cost_kids(s2, i, ks, k) == spec_visit_cost_kids(s1, i, ks, k),
    decreases s1.len() - i, 0int, k,
{
    if 0 < k <= ks.len() {
        assert forall|j: int| #[trigger] in_kids_prefix(s1, i, ks, k - 1, j) implies s2[j]
            == s1[j] by {
            assert(in_kids_prefix(s1, i, ks, k, j));
        }
        lemma_visit_cost_local_kids(s1, s2, i, ks, k - 1);
        if i < ks[k - 1] < s1.len() {
            assert forall|j: int| #[trigger] in_subtree(s1, ks[k - 1] as int, j) implies s2[j]
                == s1[j] by {
                assert(in_kids_prefix(s1, i, ks, k, j));
            }
            lemma_visit_cost_local(s1, s2, ks[k - 1] as int);
        }
    }
}

/// Each child's cost is bounded by the children prefix cost.
proof fn lemma_cost_kids_bound(s: Seq<Node>, i: int, ks: Seq<usize>, k: int, j: int)
    requires
        0 <= j < k <= ks.len(),
        i < ks[j] < s.len(),
    ensures
        spec_visit_cost(s, ks[j] as int) <= spec_visit_cost_kids(s, i, ks, k),
    decreases k,
{
    if j == k - 1 {
    } else {
        lemma_cost_kids_bound(s, i, ks, k - 1, j);
    }
}

impl NodeArena {
    /// Visit the subtree at `idx` top-down: skip it entirely when not
    /// visible, interpolate continuously animated transforms, reuse
    /// cached matrices for clean nodes and recompute dirty ones, draw
    /// this node and then every child in insertion order, and leave the
    /// context's transform exactly as it was.
    #[verifier::loop_isolation(false)]
    #[verifier::rlimit(100)]
    pub fn visit(&mut self, idx: usize, ctx: &mut Context, interp: i64)
        requires
            old(self).wf(),
            wf_cache(old(self).nodes@),
            idx < old(self).nodes@.len(),
        ensures
            final(self).wf(),
            wf_cache(final(self).nodes@),
            final(self).nodes@.len() == old(self).nodes@.len(),
            forall|j: int|
                0 <= j < old(self).nodes@.len() ==> core_eq(
                    #[trigger] final(self).nodes@[j],
                    old(self).nodes@[j],
                ),
            forall|j: int|
                0 <= j < old(self).nodes@.len() ==> (#[trigger] final(self).nodes@[j].dirty
                    ==> old(self).nodes@[j].dirty),
            final(ctx).trace@ == old(ctx).trace@ + spec_visit_recs(
                old(self).nodes@,
                idx as int,
                interp as int,
                old(ctx).current,
            ),
            final(ctx).current == old(ctx).current,
            final(ctx).stack@ == old(ctx).stack@,
            final(ctx).view == old(ctx).view,
            final(ctx).view_t == old(ctx).view_t,
            final(ctx).prims == old(ctx).prims,
            final(ctx).draw_color == old(ctx).draw_color,
            final(ctx).recomputes as int == spec_count_saturating(
                old(ctx).recomputes as int,
                spec_visit_cost(old(self).nodes@, idx as int) as int,
            ),
            forall|j: int|
                0 <= j < old(self).nodes@.len() && !in_subtree(old(self).nodes@, idx as int, j)
                    ==> final(self).nodes@[j] == old(self).nodes@[j],
            spec_visit_cost(old(self).nodes@, idx as int) == 0 ==> final(self).nodes@ == old(
                self,
            ).nodes@ && final(ctx).recomputes == old(ctx).recomputes,
        decreases old(self).nodes@.len() - idx, 1int,
    {
        let ghost s0 = self.nodes@;
        let ghost c0 = *ctx;
        proof {
            assert(wf_node(s0, idx as int));
        }
        if !self.is_visible(idx) {
            proof {
                assert(ctx.trace@ =~= c0.trace@ + spec_visit_recs(
                    s0,
                    idx as int,
                    interp as int,
                    c0.current,
                ));
            }
            return;
        }
        let behavior = self.nodes[idx].behavior;
        if behavior == NodeBehavior::Filter {
            ctx.save();
            let p = match self.nodes[idx].parent {
                Option::Some(p) => p,
                Option::None => {
                    proof {
                        assert(false);
                    }
                    0
                },
            };
            proof {
                assert((p as int) < (idx as int));
            }
            let pdirty = self.nodes[p].dirty;
            let pt = self.nodes[p].transform;
            let pinv = if !pdirty {
                self.nodes[p].cached_inv
            } else {
                inv_of_transform(&pt)
            };
            proof {
                assert(cache_ok(s0[p as int]));
                assert(pinv == spec_inv_of_transform(pt));
            }
            let ex_t = self.nodes[idx].filter.exclude_translation;
            let ex_r = self.nodes[idx].filter.exclude_rotation;
            let ex_s = self.nodes[idx].filter.exclude_scale;
            let ft = filtered_transform(&pt, ex_t, ex_r, ex_s);
            let fm = mat_of_transform(&ft);
            ctx.apply(&pinv);
            ctx.apply(&fm);
            proof {
                assert(ctx.current == spec_filter_base(s0, idx as int, c0.current));
            }
            self.visit_children(idx, ctx, interp);
            ctx.restore();
            proof {
                assert(ctx.stack@ =~= c0.stack@);
                assert(ctx.trace@ =~= c0.trace@ + spec_visit_recs(
                    s0,
                    idx as int,
                    interp as int,
                    c0.current,
                ));
                // A filter performs no recomputation of its own and
                // touches nothing outside its children's subtrees.
                assert(spec_visit_cost(s0, idx as int) == spec_visit_cost_kids(
                    s0,
                    idx as int,
                    kids(s0[idx as int]),
                    kids(s0[idx as int]).len() as int,
                ));
                assert forall|j: int|
                    0 <= j < s0.len() && !in_subtree(s0, idx as int, j) implies self.nodes@[j]
                        == s0[j] by {
                    assert(!in_kids_prefix(
                        s0,
                        idx as int,
                        kids(s0[idx as int]),
                        kids(s0[idx as int]).len() as int,
                        j,
                    ));
                }
            }
        } else {
            ctx.save();
            let t = self.nodes[idx].transform;
            let m_local: Mat3;
            if behavior == NodeBehavior::OrbitAnchor {
                let motion = self.nodes[idx].motion;
                let val = motion.interpolate(interp);
                m_local = mat_of_transform(&(Transform { deg: val, ..t }));
                ctx.note_recompute();
            } else if self.nodes[idx].dirty {
                m_local = mat_of_transform(&t);
                let mi = inv_of_transform(&t);
                let n = &mut self.nodes[idx];
                n.cached = m_local;
                n.cached_inv = mi;
                n.dirty = false;
                ctx.note_recompute();
                proof {
                    let s1 = self.nodes@;
                    assert forall|i: int| 0 <= i < s1.len() implies #[trigger] wf_node(s1, i) by {
                        assert(wf_node(s0, i));
                        assert(kids(s1[i]) == kids(s0[i]));
                        assert forall|k: int| 0 <= k < kids(s1[i]).len() implies i < #[trigger] kids(
                            s1[i],
                        )[k] < s1.len() && s1[kids(s1[i])[k] as int].parent == Option::Some(
                            s1[i].id,
                        ) by {
                            assert(kids(s0[i])[k] == kids(s1[i])[k]);
                        }
                    }
                    assert forall|i: int| 0 <= i < s1.len() implies cache_ok(
                        #[trigger] s1[i],
                    ) by {
                        if i != idx {
                            assert(s1[i] == s0[i]);
                        }
                    }
                }
            } else {
                m_local = self.nodes[idx].cached;
                proof {
                    assert(cache_ok(s0[idx as int]));
                }
            }
            proof {
                assert(m_local == spec_mat_of_transform(
                    spec_eff_transform(s0[idx as int], interp as int),
                ));
            }
            ctx.apply(&m_local);
            ctx.record_draw(idx);
            let ghost smid = self.nodes@;
            let ghost cmid = *ctx;
            let container = match &self.nodes[idx].children {
                Option::Some(_) => true,
                Option::None => false,
            };
            if container {
                self.visit_children(idx, ctx, interp);
                proof {
                    assert(core_same(smid, s0)) by {
                        assert forall|j: int| 0 <= j < smid.len() implies core_eq(
                            #[trigger] smid[j],
                            #[trigger] s0[j],
                        ) by {
                            if j != idx {
                                assert(smid[j] == s0[j]);
                            }
                        }
                    }
                    lemma_visit_kids_core(
                        smid,
                        s0,
                        idx as int,
                        kids(s0[idx as int]),
                        kids(s0[idx as int]).len() as int,
                        interp as int,
                        cmid.current,
                    );
                    // Only this node's own slot changed before the
                    // children ran, and no child subtree holds it.
                    assert forall|j: int| #[trigger] in_kids_prefix(
                        s0,
                        idx as int,
                        kids(s0[idx as int]),
                        kids(s0[idx as int]).len() as int,
                        j,
                    ) implies smid[j] == s0[j] by {
                        let kw = lemma_kids_prefix_to_child(
                            s0,
                            idx as int,
                            kids(s0[idx as int]),
                            kids(s0[idx as int]).len() as int,
                            j,
                        );
                        lemma_subtree_above(s0, kids(s0[idx as int])[kw] as int, j);
                    }
                    lemma_visit_cost_local_kids(
                        s0,
                        smid,
                        idx as int,
                        kids(s0[idx as int]),
                        kids(s0[idx as int]).len() as int,
                    );
                }
            } else {
                proof {
                    assert(kids(s0[idx as int]).len() == 0);
                }
            }
            ctx.restore();
            proof {
                assert(ctx.stack@ =~= c0.stack@);
                let m = spec_mat_mul(
                    c0.current,
                    spec_mat_of_transform(spec_eff_transform(s0[idx as int], interp as int)),
                );
                assert(cmid.trace@ =~= c0.trace@ + seq![
                    DrawRec { id: idx, xform: m },
                ]);
                assert(ctx.trace@ =~= c0.trace@ + spec_visit_recs(
                    s0,
                    idx as int,
                    interp as int,
                    c0.current,
                ));
                assert forall|j: int| 0 <= j < s0.len() implies core_eq(
                    #[trigger] self.nodes@[j],
                    s0[j],
                ) by {
                    assert(core_eq(self.nodes@[j], smid[j]));
                    if j != idx {
                        assert(smid[j] == s0[j]);
                    }
                }
                // Nothing outside this node's subtree was touched: the
                // node itself is in it, and the children stayed within
                // their own subtrees.
                assert forall|j: int|
                    0 <= j < s0.len() && !in_subtree(s0, idx as int, j) implies self.nodes@[j]
                        == s0[j] by {
                    assert(smid[j] == s0[j]);
                    if container {
                        assert(crate::node::same_shape(smid, s0)) by {
                            assert forall|i: int| 0 <= i < smid.len() implies kids(smid[i])
                                == kids(#[trigger] s0[i]) by {
                                assert(core_eq(smid[i], s0[i]) || smid[i] == s0[i] || i == idx);
                                if i == idx {
                                    assert(kids(smid[i]) == kids(s0[i]));
                                }
                            }
                        }
                        crate::node::lemma_in_subtree_same_shape(smid, s0, idx as int, j);
                        assert(!in_subtree(smid, idx as int, j));
                        assert(!in_kids_prefix(
                            smid,
                            idx as int,
                            kids(smid[idx as int]),
                            kids(smid[idx as int]).len() as int,
                            j,
                        ));
                    }
                }
            }
        }
    }

    /// Visit every child of `idx` in insertion order, all under the
    /// context's current transform.
    #[verifier::loop_isolation(false)]
    pub fn visit_children(&mut self, idx: usize, ctx: &mut Context, interp: i64)
        requires
            old(self).wf(),
            wf_cache(old(self).nodes@),
            idx < old(self).nodes@.len(),
        ensures
            final(self).wf(),
            wf_cache(final(self).nodes@),
            final(self).nodes@.len() == old(self).nodes@.len(),
            forall|j: int|
                0 <= j < old(self).nodes@.len() ==> core_eq(
                    #[trigger] final(self).nodes@[j],
                    old(self).nodes@[j],
                ),
            forall|j: int|
                0 <= j < old(self).nodes@.len() ==> (#[trigger] final(self).nodes@[j].dirty
                    ==> old(self).nodes@[j].dirty),
            final(ctx).trace@ == old(ctx).trace@ + spec_visit_kids(
                old(self).nodes@,
                idx as int,
                kids(old(self).nodes@[idx as int]),
                kids(old(self).nodes@[idx as int]).len() as int,
                interp as int,
                old(ctx).current,
            ),
            final(ctx).current == old(ctx).current,
            final(ctx).stack@ == old(ctx).stack@,
            final(ctx).view == old(ctx).view,
            final(ctx).view_t == old(ctx).view_t,
            final(ctx).prims == old(ctx).prims,
            final(ctx).draw_color == old(ctx).draw_color,
            final(ctx).recomputes as int == spec_count_saturating(
                old(ctx).recomputes as int,
                spec_visit_cost_kids(
                    old(self).nodes@,
                    idx as int,
                    kids(old(self).nodes@[idx as int]),
                    kids(old(self).nodes@[idx as int]).len() as int,
                ) as int,
            ),
            forall|j: int|
                0 <= j < old(self).nodes@.len() && !in_kids_prefix(
                    old(self).nodes@,
                    idx as int,
                    kids(old(self).nodes@[idx as int]),
                    kids(old(self).nodes@[idx as int]).len() as int,
                    j,
                ) ==> final(self).nodes@[j] == old(self).nodes@[j],
            spec_visit_cost_kids(
                old(self).nodes@,
                idx as int,
                kids(old(self).nodes@[idx as int]),
                kids(old(self).nodes@[idx as int]).len() as int,
            ) == 0 ==> final(self).nodes@ == old(self).nodes@ && final(ctx).recomputes == old(
                ctx,
            ).recomputes,
        decreases old(self).nodes@.len() - idx, 0int,
    {
        let ghost s0 = self.nodes@;
        let ghost c0 = *ctx;
        proof {
            assert(wf_node(s0, idx as int));
        }
        let ghost ks = kids(s0[idx as int]);
        let kn = self.child_count(idx);
        let mut k: usize = 0;
        while k < kn
            invariant
                self.wf(),
                wf_cache(self.nodes@),
                k <= kn,
                self.nodes@.len() == s0.len(),
                forall|j: int|
                    0 <= j < s0.len() ==> core_eq(#[trigger] self.nodes@[j], s0[j]),
                forall|j: int|
                    0 <= j < s0.len() ==> (#[trigger] self.nodes@[j].dirty ==> s0[j].dirty),
                ctx.current == c0.current,
                ctx.stack@ == c0.stack@,
                ctx.view == c0.view,
                ctx.view_t == c0.view_t,
                ctx.prims == c0.prims,
                ctx.draw_color == c0.draw_color,
                ctx.trace@ == c0.trace@ + spec_visit_kids(
                    s0,
                    idx as int,
                    ks,
                    k as int,
                    interp as int,
                    c0.current,
                ),
                ctx.recomputes as int == spec_count_saturating(
                    c0.recomputes as int,
                    spec_visit_cost_kids(s0, idx as int, ks, k as int) as int,
                ),
                forall|j: int|
                    0 <= j < s0.len() && !in_kids_prefix(s0, idx as int, ks, k as int, j)
                        ==> self.nodes@[j] == s0[j],
                spec_visit_cost_kids(s0, idx as int, ks, kn as int) == 0 ==> self.nodes@ == s0
                    && ctx.recomputes == c0.recomputes,
            decreases kn - k,
        {
            let ghost sk = self.nodes@;
            let ghost ck = *ctx;
            proof {
                assert(core_eq(self.nodes@[idx as int], s0[idx as int]));
                assert(kids(self.nodes@[idx as int]) == ks);
            }
            let c = self.child_at(idx, k);
            proof {
                assert(c == ks[k as int]);
                assert((idx as int) < (c as int) && (c as int) < s0.len());
                if spec_visit_cost_kids(s0, idx as int, ks, kn as int) == 0 {
                    lemma_cost_kids_bound(s0, idx as int, ks, kn as int, k as int);
                }
            }
            self.visit(c, ctx, interp);
            proof {
                assert(core_same(sk, s0)) by {
                    assert forall|j: int| 0 <= j < sk.len() implies core_eq(
                        #[trigger] sk[j],
                        #[trigger] s0[j],
                    ) by {}
                }
                lemma_visit_recs_core(sk, s0, c as int, interp as int, ck.current);
                // Earlier siblings' subtrees are disjoint from this
                // child's, so its slots are still exactly as at entry.
                assert forall|j: int| #[trigger] in_subtree(s0, c as int, j) implies sk[j]
                    == s0[j] by {
                    lemma_subtree_above(s0, c as int, j);
                    if in_kids_prefix(s0, idx as int, ks, k as int, j) {
                        let kw = lemma_kids_prefix_to_child(s0, idx as int, ks, k as int, j);
                        lemma_sibling_subtrees_disjoint(s0, idx as int, kw, k as int, j);
                    }
                }
                lemma_visit_cost_local(s0, sk, c as int);
                assert forall|j: int|
                    0 <= j < s0.len() && !in_kids_prefix(s0, idx as int, ks, k as int + 1, j)
                        implies self.nodes@[j] == s0[j] by {
                    crate::node::lemma_in_subtree_same_shape(sk, s0, c as int, j);
                }
                assert(ctx.trace@ =~= c0.trace@ + spec_visit_kids(
                    s0,
                    idx as int,
                    ks,
                    k as int + 1,
                    interp as int,
                    c0.current,
                ));
                assert forall|j: int| 0 <= j < s0.len() implies core_eq(
                    #[trigger] self.nodes@[j],
                    s0[j],
                ) by {
                    assert(core_eq(self.nodes@[j], sk[j]));
                    assert(core_eq(sk[j], s0[j]));
                }
            }
            k = k + 1;
        }
    }
}

/// The world transform of the node under `popt`, accumulated upward:
/// at each ancestor the ancestor's matrix is composed on the outside.
pub open spec fn spec_node_to_world_acc(s: Seq<Node>, popt: Option<usize>, acc: Mat3) -> Mat3
    decreases (match popt {
        Option::Some(p) => p as int + 1,
        Option::None => 0int,
    }),
{
    match popt {
        Option::None => acc,
        Option::Some(p) => {
            if p as int >= s.len() {
                acc
            } else {
                let acc2 = spec_mat_mul(spec_mat_of_transform(s[p as int].transform), acc);
                match s[p as int].parent {
                    Option::None => acc2,
                    Option::Some(q) => {
                        if q < p {
                            spec_node_to_world_acc(s, Option::Some(q), acc2)
                        } else {
                            acc2
                        }
                    },
                }
            }
        },
    }
}

/// The composition of a node's transform with every ancestor's, child
/// matrix innermost.
pub open spec fn spec_node_to_world(s: Seq<Node>, i: int) -> Mat3 {
    if 0 <= i < s.len() {
        spec_node_to_world_acc(s, s[i].parent, spec_mat_of_transform(s[i].transform))
    } else {
        crate::transform::spec_mat_identity()
    }
}

impl NodeArena {
    /// Walk the parent chain upward from `idx`, composing each
    /// ancestor's transform on the outside of the accumulated one.
    pub fn node_to_world(&self, idx: usize, world: &mut Mat3)
        requires
            self.wf(),
            wf_cache(self.nodes@),
            idx < self.nodes@.len(),
        ensures
            *final(world) == spec_node_to_world(self.nodes@, idx as int),
    {
        let ghost s = self.nodes@;
        proof {
            assert(wf_node(s, idx as int));
            assert(cache_ok(s[idx as int]));
        }
        let mut acc = if !self.nodes[idx].dirty {
            self.nodes[idx].cached
        } else {
            mat_of_transform(&self.nodes[idx].transform)
        };
        let mut cur: Option<usize> = self.nodes[idx].parent;
        let mut done = false;
        while !done
            invariant
                s == self.nodes@,
                wf_arena(s),
                wf_cache(s),
                (match cur {
                    Option::Some(p) => p < s.len(),
                    Option::None => true,
                }),
                spec_node_to_world_acc(s, cur, acc) == spec_node_to_world(s, idx as int),
                done ==> cur is None,
            decreases (match cur {
                Option::Some(p) => p as int + 1,
                Option::None => 0int,
            }), (if done {
                0int
            } else {
                1int
            }),
        {
            match cur {
                Option::Some(p) => {
                    proof {
                        assert(wf_node(s, p as int));
                        assert(cache_ok(s[p as int]));
                    }
                    let pm = if !self.nodes[p].dirty {
                        self.nodes[p].cached
                    } else {
                        mat_of_transform(&self.nodes[p].transform)
                    };
                    acc = pm.multiply(&acc);
                    cur = self.nodes[p].parent;
                },
                Option::None => {
                    done = true;
                },
            }
        }
        *world = acc;
    }
}

impl Nodes {
    /// Mark a vertex set's bounds: wrap an axis-aligned box around the
    /// vertices and record its outline in red.
    pub fn draw_aabb(vertices: &Vec<Point>, context: &mut Context)
        requires
            vertices@.len() > 0,
        ensures
            final(context).prims@.len() == old(context).prims@.len() + 1,
            forall|i: int|
                0 <= i < old(context).prims@.len() ==> final(context).prims@[i] == old(
                    context,
                ).prims@[i],
            ({
                let p = final(context).prims@.last();
                &&& p matches crate::context::PrimRec::Rect { aabb, style, color }
                    && style == RenderStyle::OUTLINE
                    && color == (Palette { r: 255, g: 0, b: 0, a: 255 })
                    && (forall|i: int|
                        0 <= i < vertices@.len() ==> (aabb.min.x <= (#[trigger] vertices@[i]).x
                            <= aabb.max.x && aabb.min.y <= vertices@[i].y <= aabb.max.y))
                    && (exists|i: int|
                        0 <= i < vertices@.len() && (#[trigger] vertices@[i]).x == aabb.min.x)
                    && (exists|i: int|
                        0 <= i < vertices@.len() && (#[trigger] vertices@[i]).x == aabb.max.x)
                    && (exists|i: int|
                        0 <= i < vertices@.len() && (#[trigger] vertices@[i]).y == aabb.min.y)
                    && (exists|i: int|
                        0 <= i < vertices@.len() && (#[trigger] vertices@[i]).y == aabb.max.y)
            }),
            final(context).trace == old(context).trace,
            final(context).current == old(context).current,
            final(context).stack == old(context).stack,
    {
        let mut aabb = AABBox::new();
        aabb.set_from_vertices(vertices);
        context.set_draw_color(&Palette::RED());
        context.render_aabb_rectangle(&aabb, RenderStyle::OUTLINE);
    }

    /// Map device (pixel) coordinates into view space through the
    /// inverse of the view-space transform.
    pub fn map_device_to_view(dx: i32, dy: i32, context: &Context) -> (r: (i64, i64))
        ensures
            ({
                let inv = spec_inv_of_transform(context.view_t);
                let v = spec_mat_apply(
                    inv,
                    Point { x: ((dx as i64) * 1000) as i64, y: ((dy as i64) * 1000) as i64 },
                );
                r.0 == v.x && r.1 == v.y
            }),
    {
        let inv = inv_of_transform(&context.view_t);
        let device = Point::from_xy((dx as i64) * 1000, (dy as i64) * 1000);
        let view = inv.apply_to_point(&device);
        (view.x, view.y)
    }

    /// Map device (pixel) coordinates into the local space of a node,
    /// through the inverses of the node's world transform and of the
    /// view-space transform.
    pub fn map_device_to_node(
        arena: &NodeArena,
        dx: i32,
        dy: i32,
        idx: usize,
        context: &Context,
    ) -> (r: (i64, i64))
        requires
            arena.wf(),
            wf_cache(arena.nodes@),
            idx < arena.nodes@.len(),
        ensures
            ({
                let m = spec_mat_mul(
                    spec_mat_inverse(spec_node_to_world(arena.nodes@, idx as int)),
                    spec_mat_inverse(spec_mat_of_transform(context.view_t)),
                );
                let v = spec_mat_apply(
                    m,
                    Point { x: ((dx as i64) * 1000) as i64, y: ((dy as i64) * 1000) as i64 },
                );
                r.0 == v.x && r.1 == v.y
            }),
    {
        let device = Point::from_xy((dx as i64) * 1000, (dy as i64) * 1000);
        let mut aft = Mat3::identity();
        arena.node_to_world(idx, &mut aft);
        let inv = aft.inverse();
        let view_inv = mat_of_transform(&context.view_t).inverse();
        let m = inv.multiply(&view_inv);
        let node_pt = m.apply_to_point(&device);
        (node_pt.x, node_pt.y)
    }
}

/// A node that is not visible contributes no draw call at all — not
/// its own and none of any descendant: its whole subtree is skipped.
pub proof fn lemma_invisible_visit_draws_nothing(s: Seq<Node>, i: int, interp: int, cur: Mat3)
    requires
        0 <= i < s.len(),
        !s[i].visible,
    ensures
        spec_visit_recs(s, i, interp, cur) == Seq::<DrawRec>::empty(),
{
}

/// A visible container draws itself first and then its children in
/// insertion order: the draw calls of the first `k + 1` children are
/// those of the first `k` followed by those of child `k`, and the whole
/// visit is the node's own draw call followed by all children's.
pub proof fn lemma_children_visited_in_insertion_order(s: Seq<Node>, i: int, k: int, interp: int, cur: Mat3)
    requires
        0 <= i < s.len(),
        s[i].visible,
        s[i].behavior != NodeBehavior::Filter,
        is_container(s[i]),
        0 <= k < kids(s[i]).len(),
        i < kids(s[i])[k] < s.len(),
    ensures
        ({
            let n = s[i];
            let m = spec_mat_mul(cur, spec_mat_of_transform(spec_eff_transform(n, interp)));
            let own = seq![DrawRec { id: i as usize, xform: m }];
            &&& spec_visit_recs(s, i, interp, cur) == own + spec_visit_kids(
                s,
                i,
                kids(n),
                kids(n).len() as int,
                interp,
                m,
            )
            &&& spec_visit_kids(s, i, kids(n), k + 1, interp, m) == spec_visit_kids(
                s,
                i,
                kids(n),
                k,
                interp,
                m,
            ) + spec_visit_recs(s, kids(n)[k] as int, interp, m)
        }),
{
}

} // verus!
