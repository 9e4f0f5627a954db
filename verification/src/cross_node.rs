//! A basic leaf node that renders a "+" glyph at its local origin.
//! Its model vertices span half a unit along each axis; the backend
//! draws them under the transform recorded at its draw call.

use vstd::prelude::*;

use crate::node::{is_container, kids, NodeBehavior, NodeType};
use crate::world::World;

verus! {

/// Constructor of cross-glyph leaves.
pub struct CrossNode;

impl CrossNode {
    pub fn new(name: &str, parent: Option<usize>, world: &mut World) -> (idx: usize)
        requires
            old(world).wf(),
            match parent {
                Option::Some(p) => p < old(world).arena.nodes@.len(),
                Option::None => true,
            },
        ensures
            final(world).wf(),
            *final(world) == (World { arena: final(world).arena, ..*old(world) }),
            idx == old(world).arena.nodes@.len(),
            final(world).arena.nodes@.len() == old(world).arena.nodes@.len() + 1,
            forall|j: int|
                0 <= j < old(world).arena.nodes@.len() && (match parent {
                    Option::Some(p) => j != p,
                    Option::None => true,
                }) ==> final(world).arena.nodes@[j] == old(world).arena.nodes@[j],
            match parent {
                Option::Some(p) => is_container(old(world).arena.nodes@[p as int]) ==> kids(
                    final(world).arena.nodes@[p as int],
                ) == kids(old(world).arena.nodes@[p as int]).push(idx),
                Option::None => true,
            },
            ({
                let n = final(world).arena.nodes@[idx as int];
                &&& n.name@ == name@
                &&& n.kind == NodeType::Node
                &&& n.behavior == NodeBehavior::Cross
                &&& n.parent == parent
                &&& !is_container(n)
            }),
    {
        world.arena.create_and_attach(name, NodeType::Node, NodeBehavior::Cross, parent, false)
    }
}

} // verus!
