//! A leaf node that renders a line of vector text. Glyph geometry
//! belongs to the font collaborator; the node carries the text and is
//! marked dirty whenever it changes.

use vstd::prelude::*;

use crate::node::{is_container, kids, Node, NodeArena, NodeBehavior, NodeType};
use crate::world::World;

verus! {

/// Constructor and text state of vector-text leaves.
pub struct VectorTextNode;

impl VectorTextNode {
    pub fn new(name: &str, parent: Option<usize>, world: &mut World) -> (idx: usize)
        requires
            old(world).wf(),
            match parent {
                Option::Some(p) => p < old(world).arena.nodes@.len(),
                Option::None => true,
            },
        ensures
            final(world).wf(),
            *final(world) == (World { arena: final(world).arena, ..*old(world) }),
            idx == old(world).arena.nodes@.len(),
            final(world).arena.nodes@.len() == old(world).arena.nodes@.len() + 1,
            forall|j: int|
                0 <= j < old(world).arena.nodes@.len() && (match parent {
                    Option::Some(p) => j != p,
                    Option::None => true,
                }) ==> final(world).arena.nodes@[j] == old(world).arena.nodes@[j],
            match parent {
                Option::Some(p) => is_container(old(world).arena.nodes@[p as int]) ==> kids(
                    final(world).arena.nodes@[p as int],
                ) == kids(old(world).arena.nodes@[p as int]).push(idx),
                Option::None => true,
            },
            ({
                let n = final(world).arena.nodes@[idx as int];
                &&& n.name@ == name@
                &&& n.kind == NodeType::Node
                &&& n.behavior == NodeBehavior::VectorText
                &&& n.parent == parent
                &&& !is_container(n)
                &&& n.text@ == Seq::<char>::empty()
            }),
    {
        world.arena.create_and_attach(name, NodeType::Node, NodeBehavior::VectorText, parent, false)
    }

    /// Replace the node's text and mark it dirty so its geometry is
    /// rebuilt at the next visit.
    pub fn set_text(arena: &mut NodeArena, idx: usize, text: &str)
        requires
            idx < old(arena).nodes@.len(),
        ensures
            final(arena).nodes@.len() == old(arena).nodes@.len(),
            forall|j: int|
                0 <= j < old(arena).nodes@.len() && j != idx ==> final(arena).nodes@[j] == old(
                    arena,
                ).nodes@[j],
            final(arena).nodes@[idx as int].text@ == text@,
            final(arena).nodes@[idx as int].dirty,
            final(arena).nodes@[idx as int] == (Node {
                text: final(arena).nodes@[idx as int].text,
                dirty: true,
                ..old(arena).nodes@[idx as int]
            }),
    {
        let n = &mut arena.nodes[idx];
        n.text = text.to_owned();
        n.dirty = true;
    }
}

} // verus!
