//! The scheduler: priority-ordered registries of timing targets.
//!
//! Two ordered lists of node indices, deduplicated by id, partitioned
//! by priority. `update` drives one `update(dt)` call per registered,
//! unpaused target: the system tier first, then the normal tier, each
//! in registration order.

use vstd::prelude::*;

use crate::node::{
    kids, spec_motion_updated, wf_cache, wf_node, Node, NodeArena, Nodes,
};
use crate::timing_target::TimingProperties;

verus! {

/// The order of target updates.
#[derive(Debug, Clone, Copy, PartialEq, Eq, Structural)]
pub enum TimingPriority {
    /// Updated first.
    System,
    /// Updated second.
    Normal,
}

/// A registry after removing every occurrence of an id, order kept.
pub open spec fn spec_remove_list(list: Seq<usize>, id: usize) -> Seq<usize> {
    list.filter(|x: usize| x != id)
}

/// A registry after registering `t`: appended unless already present.
pub open spec fn spec_register_list(list: Seq<usize>, t: usize) -> Seq<usize> {
    if list.contains(t) {
        list
    } else {
        list.push(t)
    }
}

/// One timing update of a single node: a continuously animated node
/// advances its motion; every other node is unchanged.
pub open spec fn spec_update_node(n: Node, dt_ns: int) -> Node {
    if n.behavior == crate::node::NodeBehavior::OrbitAnchor {
        Node { motion: spec_motion_updated(n.motion, dt_ns), ..n }
    } else {
        n
    }
}

/// The arena after updating the first `k` registry entries in order;
/// paused and out-of-range entries are skipped.
pub open spec fn spec_update_list(s: Seq<Node>, list: Seq<usize>, k: int, dt_ns: int) -> Seq<Node>
    decreases k,
{
    if k <= 0 || k > list.len() {
        s
    } else {
        let s2 = spec_update_list(s, list, k - 1, dt_ns);
        let t = list[k - 1] as int;
        if t < s2.len() && !s2[t].timing.paused {
            s2.update(t, spec_update_node(s2[t], dt_ns))
        } else {
            s2
        }
    }
}

/// The arena after setting the pause flag of the first `k` registry
/// entries; out-of-range entries are skipped.
pub open spec fn spec_pause_list(s: Seq<Node>, list: Seq<usize>, k: int, paused: bool) -> Seq<Node>
    decreases k,
{
    if k <= 0 || k > list.len() {
        s
    } else {
        let s2 = spec_pause_list(s, list, k - 1, paused);
        let t = list[k - 1] as int;
        if t < s2.len() {
            s2.update(
                t,
                Node { timing: TimingProperties { paused, ..s2[t].timing }, ..s2[t] },
            )
        } else {
            s2
        }
    }
}

/// Updating a registry never changes the arena's length.
pub proof fn lemma_update_list_len(s: Seq<Node>, list: Seq<usize>, k: int, dt_ns: int)
    ensures
        spec_update_list(s, list, k, dt_ns).len() == s.len(),
    decreases k,
{
    if 0 < k <= list.len() {
        lemma_update_list_len(s, list, k - 1, dt_ns);
    }
}

/// A slot that no processed registry entry names is untouched.
pub proof fn lemma_update_list_untouched(s: Seq<Node>, list: Seq<usize>, k: int, dt_ns: int, j: int)
    requires
        0 <= j < s.len(),
        forall|k2: int| 0 <= k2 < k && k2 < list.len() ==> #[trigger] list[k2] != j,
    ensures
        spec_update_list(s, list, k, dt_ns)[j] == s[j],
    decreases k,
{
    if 0 < k <= list.len() {
        lemma_update_list_untouched(s, list, k - 1, dt_ns, j);
        lemma_update_list_len(s, list, k - 1, dt_ns);
    }
}

/// A paused target receives no update call at all: its slot is exactly
/// what it was before the whole pass.
pub proof fn lemma_update_list_skips_paused(
    s: Seq<Node>,
    list: Seq<usize>,
    k: int,
    dt_ns: int,
    j: int,
)
    requires
        0 <= j < s.len(),
        s[j].timing.paused,
    ensures
        spec_update_list(s, list, k, dt_ns)[j] == s[j],
    decreases k,
{
    if 0 < k <= list.len() {
        lemma_update_list_skips_paused(s, list, k - 1, dt_ns, j);
        lemma_update_list_len(s, list, k - 1, dt_ns);
    }
}

/// In a registry without duplicate ids, an unpaused target is updated
/// exactly once per pass.
pub proof fn lemma_update_list_once(s: Seq<Node>, list: Seq<usize>, k: int, dt_ns: int, kj: int)
    requires
        list.no_duplicates(),
        0 <= kj < k <= list.len(),
        (list[kj] as int) < s.len(),
        !s[list[kj] as int].timing.paused,
    ensures
        spec_update_list(s, list, k, dt_ns)[list[kj] as int] == spec_update_node(
            s[list[kj] as int],
            dt_ns,
        ),
    decreases k,
{
    let j = list[kj] as int;
    lemma_update_list_len(s, list, k - 1, dt_ns);
    if kj == k - 1 {
        assert forall|k2: int| 0 <= k2 < k - 1 && k2 < list.len() implies #[trigger] list[k2]
            != j by {
            assert(list[k2] != list[kj]);
        }
        lemma_update_list_untouched(s, list, k - 1, dt_ns, j);
    } else {
        lemma_update_list_once(s, list, k - 1, dt_ns, kj);
        assert(list[k - 1] != list[kj]);
    }
}

/// Setting the pause flag over a registry touches exactly the slots the
/// registry names.
pub proof fn lemma_pause_list_effect(s: Seq<Node>, list: Seq<usize>, k: int, paused: bool, j: usize)
    requires
        (j as int) < s.len(),
        0 <= k <= list.len(),
    ensures
        spec_pause_list(s, list, k, paused).len() == s.len(),
        list.take(k).contains(j) ==> spec_pause_list(s, list, k, paused)[j as int] == (Node {
            timing: (TimingProperties { paused, ..s[j as int].timing }),
            ..s[j as int]
        }),
        !list.take(k).contains(j) ==> spec_pause_list(s, list, k, paused)[j as int] == s[
            j as int
        ],
    decreases k,
{
    if 0 < k {
        lemma_pause_list_effect(s, list, k - 1, paused, j);
        assert(list.take(k).drop_last() =~= list.take(k - 1));
        if list.take(k).contains(j) {
            if list[k - 1] != j {
                assert(list.take(k - 1).contains(j)) by {
                    let w = choose|w: int|
                        0 <= w < list.take(k).len() && list.take(k)[w] == j;
                    assert(list.take(k)[k - 1] == list[k - 1]);
                    assert(w < k - 1);
                    assert(list.take(k - 1)[w] == j);
                }
            }
        } else {
            assert(list[k - 1] != j) by {
                if list[k - 1] == j {
                    assert(list.take(k)[k - 1] == j);
                }
            }
        }
    } else {
        assert(!list.take(0).contains(j));
    }
}

/// Registering the same node id twice in one tier leaves a single
/// entry, so one `update` pass applies exactly one update call to it.
pub proof fn lemma_register_twice_updates_once(s: Seq<Node>, list: Seq<usize>, t: usize, dt_ns: int)
    requires
        list.no_duplicates(),
        (t as int) < s.len(),
        !s[t as int].timing.paused,
    ensures
        ({
            let l2 = spec_register_list(spec_register_list(list, t), t);
            &&& l2.no_duplicates()
            &&& l2.contains(t)
            &&& spec_update_list(s, l2, l2.len() as int, dt_ns)[t as int] == spec_update_node(
                s[t as int],
                dt_ns,
            )
        }),
{
    let l1 = spec_register_list(list, t);
    let l2 = spec_register_list(l1, t);
    if list.contains(t) {
        assert(l2 == list);
    } else {
        assert(l1 == list.push(t));
        assert(l1[l1.len() - 1] == t);
        assert(l1.contains(t));
        assert(l1.no_duplicates()) by {
            assert forall|k1: int, k2: int|
                0 <= k1 < k2 < l1.len() implies l1[k1] != l1[k2] by {
                if k2 == l1.len() - 1 {
                    assert(l1[k2] == t);
                    assert(list.contains(list[k1]));
                }
            }
        }
        assert(l2 == l1);
    }
    let kj = choose|kj: int| 0 <= kj < l2.len() && l2[kj] == t;
    lemma_update_list_once(s, l2, l2.len() as int, dt_ns, kj);
}

/// The same, over a whole pass: with the target registered twice in
/// the normal tier and absent from the system tier, one pass (system
/// tier, then normal tier) applies exactly one update call to it.
pub proof fn lemma_register_twice_one_update_full_pass(
    s: Seq<Node>,
    sys: Seq<usize>,
    norm: Seq<usize>,
    t: usize,
    dt_ns: int,
)
    requires
        norm.no_duplicates(),
        !sys.contains(t),
        (t as int) < s.len(),
        !s[t as int].timing.paused,
    ensures
        ({
            let l2 = spec_register_list(spec_register_list(norm, t), t);
            let s2 = spec_update_list(s, sys, sys.len() as int, dt_ns);
            spec_update_list(s2, l2, l2.len() as int, dt_ns)[t as int] == spec_update_node(
                s[t as int],
                dt_ns,
            )
        }),
{
    assert forall|k2: int| 0 <= k2 < sys.len() implies #[trigger] sys[k2] != t by {
        if sys[k2] == t {
            assert(sys.contains(t));
        }
    }
    lemma_update_list_untouched(s, sys, sys.len() as int, dt_ns, t as int);
    lemma_update_list_len(s, sys, sys.len() as int, dt_ns);
    let s2 = spec_update_list(s, sys, sys.len() as int, dt_ns);
    lemma_register_twice_updates_once(s2, norm, t, dt_ns);
}

/// While a node is paused it receives no update call in either tier.
pub proof fn lemma_paused_target_receives_no_updates(
    s: Seq<Node>,
    sys: Seq<usize>,
    norm: Seq<usize>,
    t: usize,
    dt_ns: int,
)
    requires
        (t as int) < s.len(),
        s[t as int].timing.paused,
    ensures
        spec_update_list(
            spec_update_list(s, sys, sys.len() as int, dt_ns),
            norm,
            norm.len() as int,
            dt_ns,
        )[t as int] == s[t as int],
{
    lemma_update_list_skips_paused(s, sys, sys.len() as int, dt_ns, t as int);
    lemma_update_list_len(s, sys, sys.len() as int, dt_ns);
    let s2 = spec_update_list(s, sys, sys.len() as int, dt_ns);
    lemma_update_list_skips_paused(s2, norm, norm.len() as int, dt_ns, t as int);
}

/// Once its pause flag is cleared, a registered node receives exactly
/// one update call in the next pass over its tier.
pub proof fn lemma_unpaused_target_updated(s: Seq<Node>, list: Seq<usize>, t: usize, dt_ns: int)
    requires
        list.no_duplicates(),
        list.contains(t),
        (t as int) < s.len(),
        !s[t as int].timing.paused,
    ensures
        spec_update_list(s, list, list.len() as int, dt_ns)[t as int] == spec_update_node(
            s[t as int],
            dt_ns,
        ),
{
    let kj = choose|kj: int| 0 <= kj < list.len() && list[kj] == t;
    lemma_update_list_once(s, list, list.len() as int, dt_ns, kj);
}

/// The same, over a whole pass: once its pause flag is cleared, a
/// target registered in the normal tier and absent from the system
/// tier receives exactly one update call in the next pass.
pub proof fn lemma_resumed_target_updated_full_pass(
    s: Seq<Node>,
    sys: Seq<usize>,
    norm: Seq<usize>,
    t: usize,
    dt_ns: int,
)
    requires
        norm.no_duplicates(),
        norm.contains(t),
        !sys.contains(t),
        (t as int) < s.len(),
        !s[t as int].timing.paused,
    ensures
        ({
            let s2 = spec_update_list(s, sys, sys.len() as int, dt_ns);
            spec_update_list(s2, norm, norm.len() as int, dt_ns)[t as int] == spec_update_node(
                s[t as int],
                dt_ns,
            )
        }),
{
    assert forall|k2: int| 0 <= k2 < sys.len() implies #[trigger] sys[k2] != t by {
        if sys[k2] == t {
            assert(sys.contains(t));
        }
    }
    lemma_update_list_untouched(s, sys, sys.len() as int, dt_ns, t as int);
    lemma_update_list_len(s, sys, sys.len() as int, dt_ns);
    let s2 = spec_update_list(s, sys, sys.len() as int, dt_ns);
    lemma_unpaused_target_updated(s2, norm, t, dt_ns);
}

/// Drives per-frame `update` calls on registered timing targets,
/// system tier before normal tier, deduplicated by node id.
pub struct Scheduler {
    pub system_targets: Vec<usize>,
    pub normal_targets: Vec<usize>,
}

/// Whether a vector holds an id.
fn contains_id(v: &Vec<usize>, id: usize) -> (r: bool)
    ensures
        r == v@.contains(id),
{
    let n = v.len();
    let mut i: usize = 0;
    while i < n
        invariant
            i <= n,
            n == v@.len(),
            forall|j: int| 0 <= j < i ==> v@[j] != id,
        decreases n - i,
    {
        if v[i] == id {
            proof {
                assert(v@[i as int] == id);
            }
            return true;
        }
        i = i + 1;
    }
    proof {
        // A witness of containment would contradict the scan.
        if v@.contains(id) {
            let w = choose|w: int| 0 <= w < v@.len() && v@[w] == id;
        }
    }
    false
}

/// Remove every occurrence of an id from a vector, keeping the order
/// of the rest.
fn remove_id(v: &mut Vec<usize>, id: usize)
    ensures
        final(v)@ == spec_remove_list(old(v)@, id),
{
    let ghost s0 = v@;
    let n = v.len();
    let mut out: Vec<usize> = Vec::new();
    let mut i: usize = 0;
    proof {
        reveal(Seq::filter);
        assert(out@ =~= spec_remove_list(s0.take(0), id));
    }
    while i < n
        invariant
            i <= n,
            n == s0.len(),
            v@ == s0,
            out@ == spec_remove_list(s0.take(i as int), id),
        decreases n - i,
    {
        let x = v[i];
        proof {
            reveal(Seq::filter);
            assert(s0.take(i as int + 1).drop_last() =~= s0.take(i as int));
            assert(s0.take(i as int + 1).last() == s0[i as int]);
        }
        if x != id {
            out.push(x);
        }
        i = i + 1;
    }
    proof {
        assert(s0.take(n as int) =~= s0);
    }
    *v = out;
}

impl Scheduler {
    /// Both registries are free of duplicate ids.
    pub open spec fn wf(self) -> bool {
        &&& self.system_targets@.no_duplicates()
        &&& self.normal_targets@.no_duplicates()
    }

    pub fn new() -> (r: Scheduler)
        ensures
            r.wf(),
            r.system_targets@ == Seq::<usize>::empty(),
            r.normal_targets@ == Seq::<usize>::empty(),
    {
        let r = Scheduler { system_targets: Vec::new(), normal_targets: Vec::new() };
        proof {
            assert(r.system_targets@ =~= Seq::<usize>::empty());
            assert(r.normal_targets@ =~= Seq::<usize>::empty());
        }
        r
    }

    /// Update every registered, unpaused target: the system tier first,
    /// then the normal tier, each in registration order.
    pub fn update(&self, arena: &mut NodeArena, dt_ns: i64)
        requires
            old(arena).wf(),
        ensures
            final(arena).wf(),
            wf_cache(old(arena).nodes@) ==> wf_cache(final(arena).nodes@),
            final(arena).nodes@ == spec_update_list(
                spec_update_list(
                    old(arena).nodes@,
                    self.system_targets@,
                    self.system_targets@.len() as int,
                    dt_ns as int,
                ),
                self.normal_targets@,
                self.normal_targets@.len() as int,
                dt_ns as int,
            ),
    {
        self.update_tier(arena, true, dt_ns);
        self.update_tier(arena, false, dt_ns);
    }

    /// Update one tier's targets in registration order.
    fn update_tier(&self, arena: &mut NodeArena, system: bool, dt_ns: i64)
        requires
            old(arena).wf(),
        ensures
            final(arena).wf(),
            wf_cache(old(arena).nodes@) ==> wf_cache(final(arena).nodes@),
            ({
                let list = if system {
                    self.system_targets@
                } else {
                    self.normal_targets@
                };
                final(arena).nodes@ == spec_update_list(
                    old(arena).nodes@,
                    list,
                    list.len() as int,
                    dt_ns as int,
                )
            }),
    {
        let ghost s0 = arena.nodes@;
        let ghost list = if system {
            self.system_targets@
        } else {
            self.normal_targets@
        };
        let n = if system {
            self.system_targets.len()
        } else {
            self.normal_targets.len()
        };
        let mut k: usize = 0;
        while k < n
            invariant
                arena.wf(),
                wf_cache(s0) ==> wf_cache(arena.nodes@),
                k <= n,
                n == list.len(),
                list == if system {
                    self.system_targets@
                } else {
                    self.normal_targets@
                },
                arena.nodes@ == spec_update_list(s0, list, k as int, dt_ns as int),
            decreases n - k,
        {
            let ghost sk = arena.nodes@;
            let t = if system {
                self.system_targets[k]
            } else {
                self.normal_targets[k]
            };
            proof {
                assert(t == list[k as int]);
            }
            if t < arena.len() {
                if !arena.paused(t) {
                    Scheduler::update_node(arena, t, dt_ns);
                }
            }
            k = k + 1;
        }
    }

    /// Apply one timing update to a single node.
    fn update_node(arena: &mut NodeArena, t: usize, dt_ns: i64)
        requires
            old(arena).wf(),
            t < old(arena).nodes@.len(),
        ensures
            final(arena).wf(),
            wf_cache(old(arena).nodes@) ==> wf_cache(final(arena).nodes@),
            final(arena).nodes@ == old(arena).nodes@.update(
                t as int,
                spec_update_node(old(arena).nodes@[t as int], dt_ns as int),
            ),
    {
        let ghost s0 = arena.nodes@;
        let is_orbit = match arena.nodes[t].behavior {
            crate::node::NodeBehavior::OrbitAnchor => true,
            _ => false,
        };
        if is_orbit {
            let n = &mut arena.nodes[t];
            n.motion.update(dt_ns);
        }
        proof {
            let s1 = arena.nodes@;
            assert(s1 =~= s0.update(t as int, spec_update_node(s0[t as int], dt_ns as int)));
            assert forall|i: int| 0 <= i < s1.len() implies #[trigger] wf_node(s1, i) by {
                assert(wf_node(s0, i));
                assert(kids(s1[i]) == kids(s0[i]));
                assert forall|kk: int| 0 <= kk < kids(s1[i]).len() implies i < #[trigger] kids(
                    s1[i],
                )[kk] < s1.len() && s1[kids(s1[i])[kk] as int].parent == Option::Some(
                    s1[i].id,
                ) by {
                    assert(kids(s0[i])[kk] == kids(s1[i])[kk]);
                }
            }
            assert forall|i: int| 0 <= i < s1.len() && wf_cache(s0) implies crate::node::cache_ok(
                #[trigger] s1[i],
            ) by {
                assert(crate::node::cache_ok(s0[i]));
            }
        }
    }

    /// Register a target in the tier of its priority; a second
    /// registration of the same id changes nothing.
    pub fn register_timing_target(&mut self, arena: &NodeArena, target: usize)
        requires
            target < arena.nodes@.len(),
        ensures
            ({
                let norm = arena.nodes@[target as int].timing.priority == TimingPriority::Normal;
                &&& (norm ==> final(self).normal_targets@ == spec_register_list(
                    old(self).normal_targets@,
                    target,
                ) && final(self).system_targets@ == old(self).system_targets@)
                &&& (!norm ==> final(self).system_targets@ == spec_register_list(
                    old(self).system_targets@,
                    target,
                ) && final(self).normal_targets@ == old(self).normal_targets@)
            }),
            old(self).wf() ==> final(self).wf(),
    {
        let pri = arena.nodes[target].timing.priority;
        match pri {
            TimingPriority::Normal => {
                let contains = contains_id(&self.normal_targets, target);
                if contains {
                    return;
                }
                self.normal_targets.push(target);
            },
            TimingPriority::System => {
                let contains = contains_id(&self.system_targets, target);
                if contains {
                    return;
                }
                self.system_targets.push(target);
            },
        }
        proof {
            if old(self).wf() {
                assert(final(self).wf()) by {
                    let l0 = if pri == TimingPriority::Normal {
                        old(self).normal_targets@
                    } else {
                        old(self).system_targets@
                    };
                    let l1 = if pri == TimingPriority::Normal {
                        self.normal_targets@
                    } else {
                        self.system_targets@
                    };
                    assert(!l0.contains(target));
                    assert forall|k1: int, k2: int|
                        0 <= k1 < k2 < l1.len() implies l1[k1] != l1[k2] by {
                        if k2 == l1.len() - 1 {
                            assert(l1[k2] == target);
                            assert(l0[k1] == l1[k1]);
                            assert(l0.contains(l0[k1]));
                        }
                    }
                }
            }
        }
    }

    /// Resume a target found by id: clears its pause flag. An id that
    /// is not registered, in either tier, changes nothing.
    pub fn schedule_timing_target(&mut self, arena: &mut NodeArena, target_id: usize)
        ensures
            *final(self) == *old(self),
            ({
                let present = old(self).normal_targets@.contains(target_id)
                    || old(self).system_targets@.contains(target_id);
                &&& (present && (target_id as int) < old(arena).nodes@.len()
                    ==> final(arena).nodes@ == old(arena).nodes@.update(
                    target_id as int,
                    (Node {
                        timing: (TimingProperties {
                            paused: false,
                            ..old(arena).nodes@[target_id as int].timing
                        }),
                        ..old(arena).nodes@[target_id as int]
                    }),
                ))
                &&& (!(present && (target_id as int) < old(arena).nodes@.len())
                    ==> final(arena).nodes@ == old(arena).nodes@)
            }),
    {
        let in_normal = contains_id(&self.normal_targets, target_id);
        let in_system = contains_id(&self.system_targets, target_id);
        if (in_normal || in_system) && target_id < arena.len() {
            arena.pause(target_id, false);
        }
    }

    /// Remove a target by id from both tiers, keeping the order of the
    /// rest.
    pub fn unschedule_timing_target_by_id(&mut self, target_id: usize)
        ensures
            final(self).normal_targets@ == spec_remove_list(
                old(self).normal_targets@,
                target_id,
            ),
            final(self).system_targets@ == spec_remove_list(
                old(self).system_targets@,
                target_id,
            ),
    {
        remove_id(&mut self.normal_targets, target_id);
        remove_id(&mut self.system_targets, target_id);
    }

    /// Remove a target from the tier of its priority, keeping the order
    /// of the rest.
    pub fn unschedule_timing_target(&mut self, arena: &NodeArena, target: usize)
        requires
            target < arena.nodes@.len(),
        ensures
            ({
                let norm = arena.nodes@[target as int].timing.priority == TimingPriority::Normal;
                &&& (norm ==> final(self).normal_targets@ == spec_remove_list(
                    old(self).normal_targets@,
                    target,
                ) && final(self).system_targets@ == old(self).system_targets@)
                &&& (!norm ==> final(self).system_targets@ == spec_remove_list(
                    old(self).system_targets@,
                    target,
                ) && final(self).normal_targets@ == old(self).normal_targets@)
            }),
    {
        let pri = arena.nodes[target].timing.priority;
        match pri {
            TimingPriority::Normal => {
                remove_id(&mut self.normal_targets, target);
            },
            TimingPriority::System => {
                remove_id(&mut self.system_targets, target);
            },
        }
    }

    /// Pause every target of one tier.
    pub fn pause_timing_targets(&self, arena: &mut NodeArena, priority: TimingPriority)
        requires
            old(arena).wf(),
        ensures
            final(arena).wf(),
            wf_cache(old(arena).nodes@) ==> wf_cache(final(arena).nodes@),
            ({
                let list = if priority == TimingPriority::System {
                    self.system_targets@
                } else {
                    self.normal_targets@
                };
                final(arena).nodes@ == spec_pause_list(
                    old(arena).nodes@,
                    list,
                    list.len() as int,
                    true,
                )
            }),
    {
        self.set_pause_tier(arena, priority, true);
    }

    /// Resume every target of one tier.
    pub fn resume_timing_targets(&self, arena: &mut NodeArena, priority: TimingPriority)
        requires
            old(arena).wf(),
        ensures
            final(arena).wf(),
            wf_cache(old(arena).nodes@) ==> wf_cache(final(arena).nodes@),
            ({
                let list = if priority == TimingPriority::System {
                    self.system_targets@
                } else {
                    self.normal_targets@
                };
                final(arena).nodes@ == spec_pause_list(
                    old(arena).nodes@,
                    list,
                    list.len() as int,
                    false,
                )
            }),
    {
        self.set_pause_tier(arena, priority, false);
    }

    /// Set the pause flag across one tier.
    fn set_pause_tier(&self, arena: &mut NodeArena, priority: TimingPriority, paused: bool)
        requires
            old(arena).wf(),
        ensures
            final(arena).wf(),
            wf_cache(old(arena).nodes@) ==> wf_cache(final(arena).nodes@),
            ({
                let list = if priority == TimingPriority::System {
                    self.system_targets@
                } else {
                    self.normal_targets@
                };
                final(arena).nodes@ == spec_pause_list(
                    old(arena).nodes@,
                    list,
                    list.len() as int,
                    paused,
                )
            }),
    {
        let ghost s0 = arena.nodes@;
        let system = match priority {
            TimingPriority::System => true,
            TimingPriority::Normal => false,
        };
        let ghost list = if system {
            self.system_targets@
        } else {
            self.normal_targets@
        };
        let n = if system {
            self.system_targets.len()
        } else {
            self.normal_targets.len()
        };
        let mut k: usize = 0;
        while k < n
            invariant
                arena.wf(),
                wf_cache(s0) ==> wf_cache(arena.nodes@),
                k <= n,
                n == list.len(),
                list == if system {
                    self.system_targets@
                } else {
                    self.normal_targets@
                },
                (if priority == TimingPriority::System {
                    self.system_targets@
                } else {
                    self.normal_targets@
                }) == list,
                arena.nodes@ == spec_pause_list(s0, list, k as int, paused),
            decreases n - k,
        {
            let ghost sk = arena.nodes@;
            let t = if system {
                self.system_targets[k]
            } else {
                self.normal_targets[k]
            };
            proof {
                assert(t == list[k as int]);
            }
            if t < arena.len() {
                arena.pause(t, paused);
                proof {
                    let s1 = arena.nodes@;
                    assert forall|i: int| 0 <= i < s1.len() implies #[trigger] wf_node(s1, i) by {
                        assert(wf_node(sk, i));
                        assert(kids(s1[i]) == kids(sk[i]));
                        assert forall|kk: int| 0 <= kk < kids(s1[i]).len() implies i
                            < #[trigger] kids(s1[i])[kk] < s1.len() && s1[kids(
                            s1[i],
                        )[kk] as int].parent == Option::Some(s1[i].id) by {
                            assert(kids(sk[i])[kk] == kids(s1[i])[kk]);
                        }
                    }
                    assert forall|i: int|
                        0 <= i < s1.len() && wf_cache(s0) implies crate::node::cache_ok(
                        #[trigger] s1[i],
                    ) by {
                        assert(crate::node::cache_ok(sk[i]));
                    }
                }
            }
            k = k + 1;
        }
    }
}

/// The registries after offering one node: a timing-eligible node is
/// registered in the tier of its priority.
pub open spec fn spec_register_node_pair(
    s: Seq<Node>,
    t: int,
    sys: Seq<usize>,
    norm: Seq<usize>,
) -> (Seq<usize>, Seq<usize>) {
    if 0 <= t < s.len() && s[t].is_timing_target {
        if s[t].timing.priority == TimingPriority::Normal {
            (sys, spec_register_list(norm, t as usize))
        } else {
            (spec_register_list(sys, t as usize), norm)
        }
    } else {
        (sys, norm)
    }
}

/// The registries after offering every node of the subtree at `i`, in
/// traversal order.
pub open spec fn spec_register_subtree(
    s: Seq<Node>,
    i: int,
    sys: Seq<usize>,
    norm: Seq<usize>,
) -> (Seq<usize>, Seq<usize>)
    decreases s.len() - i, 1int, 0int,
{
    if !(0 <= i < s.len()) {
        (sys, norm)
    } else {
        let p1 = spec_register_node_pair(s, i, sys, norm);
        spec_register_kids(s, i, kids(s[i]), kids(s[i]).len() as int, p1.0, p1.1)
    }
}

/// The registries after offering the subtrees of the first `k` children.
pub open spec fn spec_register_kids(
    s: Seq<Node>,
    i: int,
    ks: Seq<usize>,
    k: int,
    sys: Seq<usize>,
    norm: Seq<usize>,
) -> (Seq<usize>, Seq<usize>)
    decreases s.len() - i, 0int, k,
{
    if k <= 0 || k > ks.len() {
        (sys, norm)
    } else {
        let p1 = spec_register_kids(s, i, ks, k - 1, sys, norm);
        if i < ks[k - 1] < s.len() {
            spec_register_subtree(s, ks[k - 1] as int, p1.0, p1.1)
        } else {
            p1
        }
    }
}

/// The registries after removing one node: a timing-eligible node is
/// removed from the tier of its priority.
pub open spec fn spec_unregister_node_pair(
    s: Seq<Node>,
    t: int,
    sys: Seq<usize>,
    norm: Seq<usize>,
) -> (Seq<usize>, Seq<usize>) {
    if 0 <= t < s.len() && s[t].is_timing_target {
        if s[t].timing.priority == TimingPriority::Normal {
            (sys, spec_remove_list(norm, t as usize))
        } else {
            (spec_remove_list(sys, t as usize), norm)
        }
    } else {
        (sys, norm)
    }
}

/// The registries after removing every node of the subtree at `i`.
pub open spec fn spec_unregister_subtree(
    s: Seq<Node>,
    i: int,
    sys: Seq<usize>,
    norm: Seq<usize>,
) -> (Seq<usize>, Seq<usize>)
    decreases s.len() - i, 1int, 0int,
{
    if !(0 <= i < s.len()) {
        (sys, norm)
    } else {
        let p1 = spec_unregister_node_pair(s, i, sys, norm);
        spec_unregister_kids(s, i, kids(s[i]), kids(s[i]).len() as int, p1.0, p1.1)
    }
}

/// The registries after removing the subtrees of the first `k` children.
pub open spec fn spec_unregister_kids(
    s: Seq<Node>,
    i: int,
    ks: Seq<usize>,
    k: int,
    sys: Seq<usize>,
    norm: Seq<usize>,
) -> (Seq<usize>, Seq<usize>)
    decreases s.len() - i, 0int, k,
{
    if k <= 0 || k > ks.len() {
        (sys, norm)
    } else {
        let p1 = spec_unregister_kids(s, i, ks, k - 1, sys, norm);
        if i < ks[k - 1] < s.len() {
            spec_unregister_subtree(s, ks[k - 1] as int, p1.0, p1.1)
        } else {
            p1
        }
    }
}

impl Nodes {
    /// Register every timing-eligible node of the subtree at `node`
    /// with the scheduler, in traversal order.
    #[verifier::loop_isolation(false)]
    pub fn register_timing_targets(arena: &NodeArena, node: usize, sch: &mut Scheduler)
        requires
            arena.wf(),
            node < arena.nodes@.len(),
        ensures
            ({
                let p = spec_register_subtree(
                    arena.nodes@,
                    node as int,
                    old(sch).system_targets@,
                    old(sch).normal_targets@,
                );
                final(sch).system_targets@ == p.0 && final(sch).normal_targets@ == p.1
            }),
            old(sch).wf() ==> final(sch).wf(),
        decreases arena.nodes@.len() - node,
    {
        let ghost s = arena.nodes@;
        proof {
            assert(wf_node(s, node as int));
        }
        if arena.nodes[node].is_timing_target {
            sch.register_timing_target(arena, node);
        }
        let ghost p1 = spec_register_node_pair(
            s,
            node as int,
            old(sch).system_targets@,
            old(sch).normal_targets@,
        );
        let ghost ks = kids(s[node as int]);
        let kn = arena.child_count(node);
        let mut k: usize = 0;
        while k < kn
            invariant
                k <= kn,
                ({
                    let p = spec_register_kids(s, node as int, ks, k as int, p1.0, p1.1);
                    sch.system_targets@ == p.0 && sch.normal_targets@ == p.1
                }),
                old(sch).wf() ==> sch.wf(),
            decreases kn - k,
        {
            let c = arena.child_at(node, k);
            proof {
                assert(c == ks[k as int]);
                assert((node as int) < (c as int) && (c as int) < s.len());
            }
            Nodes::register_timing_targets(arena, c, sch);
            k = k + 1;
        }
    }

    /// Remove every timing-eligible node of the subtree at `node` from
    /// the scheduler, keeping the order of the rest.
    #[verifier::loop_isolation(false)]
    pub fn unregister_timing_targets(arena: &NodeArena, node: usize, sch: &mut Scheduler)
        requires
            arena.wf(),
            node < arena.nodes@.len(),
        ensures
            ({
                let p = spec_unregister_subtree(
                    arena.nodes@,
                    node as int,
                    old(sch).system_targets@,
                    old(sch).normal_targets@,
                );
                final(sch).system_targets@ == p.0 && final(sch).normal_targets@ == p.1
            }),
        decreases arena.nodes@.len() - node,
    {
        let ghost s = arena.nodes@;
        proof {
            assert(wf_node(s, node as int));
        }
        if arena.nodes[node].is_timing_target {
            sch.unschedule_timing_target(arena, node);
        }
        let ghost p1 = spec_unregister_node_pair(
            s,
            node as int,
            old(sch).system_targets@,
            old(sch).normal_targets@,
        );
        let ghost ks = kids(s[node as int]);
        let kn = arena.child_count(node);
        let mut k: usize = 0;
        while k < kn
            invariant
                k <= kn,
                ({
                    let p = spec_unregister_kids(s, node as int, ks, k as int, p1.0, p1.1);
                    sch.system_targets@ == p.0 && sch.normal_targets@ == p.1
                }),
            decreases kn - k,
        {
            let c = arena.child_at(node, k);
            proof {
                assert(c == ks[k as int]);
                assert((node as int) < (c as int) && (c as int) < s.len());
            }
            Nodes::unregister_timing_targets(arena, c, sch);
            k = k + 1;
        }
    }

    /// Remove a node by id from the scheduler's registries.
    pub fn unregister_timing_targets_by_id(node_id: usize, sch: &mut Scheduler)
        ensures
            final(sch).normal_targets@ == spec_remove_list(old(sch).normal_targets@, node_id),
            final(sch).system_targets@ == spec_remove_list(old(sch).system_targets@, node_id),
    {
        sch.unschedule_timing_target_by_id(node_id);
    }
}

} // verus!
