//! An anchor node for associated transformations: it continuously
//! rotates, and passes the rotation on to its children. It registers
//! as a timing target so the scheduler advances its angular motion.

use vstd::prelude::*;

use crate::node::{is_container, kids, AngularMotion, Node, NodeBehavior, NodeType};
use crate::world::World;

verus! {

/// The default angular rate: minus five degrees per second, in
/// thousandths of a degree.
pub const ORBIT_STEP_MDEG: i64 = -5000;

/// Constructor of orbit anchors.
pub struct OrbitAnchorNode;

impl OrbitAnchorNode {
    pub fn new(name: &str, parent: Option<usize>, world: &mut World) -> (idx: usize)
        requires
            old(world).wf(),
            match parent {
                Option::Some(p) => p < old(world).arena.nodes@.len(),
                Option::None => true,
            },
        ensures
            final(world).wf(),
            *final(world) == (World { arena: final(world).arena, ..*old(world) }),
            idx == old(world).arena.nodes@.len(),
            final(world).arena.nodes@.len() == old(world).arena.nodes@.len() + 1,
            forall|j: int|
                0 <= j < old(world).arena.nodes@.len() && (match parent {
                    Option::Some(p) => j != p,
                    Option::None => true,
                }) ==> final(world).arena.nodes@[j] == old(world).arena.nodes@[j],
            match parent {
                Option::Some(p) => is_container(old(world).arena.nodes@[p as int]) ==> kids(
                    final(world).arena.nodes@[p as int],
                ) == kids(old(world).arena.nodes@[p as int]).push(idx),
                Option::None => true,
            },
            ({
                let n = final(world).arena.nodes@[idx as int];
                &&& n.name@ == name@
                &&& n.kind == NodeType::Node
                &&& n.behavior == NodeBehavior::OrbitAnchor
                &&& n.parent == parent
                &&& is_container(n)
                &&& kids(n) == Seq::<usize>::empty()
                &&& n.is_timing_target
                &&& n.motion == (AngularMotion { prev: 0, cur: 0, step: ORBIT_STEP_MDEG })
            }),
    {
        let ghost s0 = world.arena.nodes@;
        let idx = world.arena.create_and_attach(
            name,
            NodeType::Node,
            NodeBehavior::OrbitAnchor,
            parent,
            true,
        );
        let ghost s1 = world.arena.nodes@;
        let n = &mut world.arena.nodes[idx];
        n.motion.set_step_value(ORBIT_STEP_MDEG);
        proof {
            let s2 = world.arena.nodes@;
            assert forall|i: int| 0 <= i < s2.len() implies #[trigger] crate::node::wf_node(
                s2,
                i,
            ) by {
                assert(crate::node::wf_node(s1, i));
                assert(crate::node::kids(s2[i]) == crate::node::kids(s1[i]));
                assert forall|k: int|
                    0 <= k < crate::node::kids(s2[i]).len() implies i < #[trigger] crate::node::kids(
                    s2[i],
                )[k] < s2.len() && s2[crate::node::kids(s2[i])[k] as int].parent == Option::Some(
                    s2[i].id,
                ) by {
                    assert(crate::node::kids(s1[i])[k] == crate::node::kids(s2[i])[k]);
                }
            }
            assert forall|i: int|
                0 <= i < s2.len() && crate::node::wf_cache(s1) implies crate::node::cache_ok(
                #[trigger] s2[i],
            ) by {
                assert(crate::node::cache_ok(s1[i]));
            }
        }
        idx
    }
}

} // verus!
