//! The boot scene: a scene that holds a replacement and immediately
//! requests to be swapped for it. The replacement is consumed at most
//! once.

use vstd::prelude::*;

use crate::node::{is_container, Node, NodeBehavior, NodeType};
use crate::world::World;

verus! {

/// Constructor of boot scenes.
pub struct SceneBoot;

impl SceneBoot {
    /// Create a boot scene that will hand the stage to `replace`.
    pub fn with_replacement(name: &str, replace: usize, world: &mut World) -> (idx: usize)
        requires
            old(world).wf(),
            replace < old(world).arena.nodes@.len(),
        ensures
            final(world).wf(),
            *final(world) == (World { arena: final(world).arena, ..*old(world) }),
            idx == old(world).arena.nodes@.len(),
            final(world).arena.nodes@.len() == old(world).arena.nodes@.len() + 1,
            forall|j: int|
                0 <= j < old(world).arena.nodes@.len() ==> final(world).arena.nodes@[j] == old(
                    world,
                ).arena.nodes@[j],
            ({
                let n = final(world).arena.nodes@[idx as int];
                &&& n.name@ == name@
                &&& n.kind == NodeType::Scene
                &&& n.behavior == NodeBehavior::Boot
                &&& n.parent is None
                &&& !is_container(n)
                &&& n.replacement == Option::Some(replace)
            }),
    {
        let ghost s0 = world.arena.nodes@;
        let idx = world.arena.create_and_attach(
            name,
            NodeType::Scene,
            NodeBehavior::Boot,
            Option::None,
            false,
        );
        let ghost s1 = world.arena.nodes@;
        let n = &mut world.arena.nodes[idx];
        n.replacement = Option::Some(replace);
        proof {
            let s2 = world.arena.nodes@;
            assert forall|i: int| 0 <= i < s2.len() implies #[trigger] crate::node::wf_node(
                s2,
                i,
            ) by {
                assert(crate::node::wf_node(s1, i));
                assert(crate::node::kids(s2[i]) == crate::node::kids(s1[i]));
                assert forall|k: int|
                    0 <= k < crate::node::kids(s2[i]).len() implies i < #[trigger] crate::node::kids(
                    s2[i],
                )[k] < s2.len() && s2[crate::node::kids(s2[i])[k] as int].parent == Option::Some(
                    s2[i].id,
                ) by {
                    assert(crate::node::kids(s1[i])[k] == crate::node::kids(s2[i])[k]);
                }
            }
            assert forall|i: int|
                0 <= i < s2.len() && crate::node::wf_cache(s1) implies crate::node::cache_ok(
                #[trigger] s2[i],
            ) by {
                assert(crate::node::cache_ok(s1[i]));
            }
        }
        idx
    }
}

} // verus!
