//! The transform filter: a grouping node that selectively blocks the
//! transform components its children would inherit from its parent.
//! By default translation is inherited while rotation and scale are
//! blocked.

use vstd::prelude::*;

use crate::node::{is_container, kids, FilterFlags, Node, NodeArena, NodeBehavior, NodeType};
use crate::world::World;

verus! {

/// Constructor and configuration of transform-filter nodes.
pub struct TransformFilter;

impl TransformFilter {
    /// Create a filter node under the given parent. A filter always
    /// needs a parent: its whole purpose is to filter that parent's
    /// transform.
    pub fn new(name: &str, parent: Option<usize>, world: &mut World) -> (idx: usize)
        requires
            old(world).wf(),
            parent is Some,
            match parent {
                Option::Some(p) => p < old(world).arena.nodes@.len(),
                Option::None => false,
            },
        ensures
            final(world).wf(),
            *final(world) == (World { arena: final(world).arena, ..*old(world) }),
            idx == old(world).arena.nodes@.len(),
            final(world).arena.nodes@.len() == old(world).arena.nodes@.len() + 1,
            forall|j: int|
                0 <= j < old(world).arena.nodes@.len() && (match parent {
                    Option::Some(p) => j != p,
                    Option::None => true,
                }) ==> final(world).arena.nodes@[j] == old(world).arena.nodes@[j],
            match parent {
                Option::Some(p) => is_container(old(world).arena.nodes@[p as int]) ==> kids(
                    final(world).arena.nodes@[p as int],
                ) == kids(old(world).arena.nodes@[p as int]).push(idx),
                Option::None => true,
            },
            ({
                let n = final(world).arena.nodes@[idx as int];
                &&& n.name@ == name@
                &&& n.kind == NodeType::Node
                &&& n.behavior == NodeBehavior::Filter
                &&& n.parent == parent
                &&& is_container(n)
                &&& kids(n) == Seq::<usize>::empty()
                &&& n.filter == (FilterFlags {
                    exclude_translation: false,
                    exclude_rotation: true,
                    exclude_scale: true,
                })
            }),
    {
        let idx = world.arena.create_and_attach(
            name,
            NodeType::Node,
            NodeBehavior::Filter,
            parent,
            true,
        );
        idx
    }

    /// Choose whether the parent's translation is blocked.
    pub fn exclude_translation(arena: &mut NodeArena, idx: usize, exclude: bool)
        requires
            idx < old(arena).nodes@.len(),
        ensures
            final(arena).nodes@ == old(arena).nodes@.update(
                idx as int,
                (Node {
                    filter: (FilterFlags {
                        exclude_translation: exclude,
                        ..old(arena).nodes@[idx as int].filter
                    }),
                    ..old(arena).nodes@[idx as int]
                }),
            ),
    {
        let n = &mut arena.nodes[idx];
        n.filter.exclude_translation = exclude;
    }

    /// Choose whether the parent's rotation is blocked.
    pub fn exclude_rotation(arena: &mut NodeArena, idx: usize, exclude: bool)
        requires
            idx < old(arena).nodes@.len(),
        ensures
            final(arena).nodes@ == old(arena).nodes@.update(
                idx as int,
                (Node {
                    filter: (FilterFlags {
                        exclude_rotation: exclude,
                        ..old(arena).nodes@[idx as int].filter
                    }),
                    ..old(arena).nodes@[idx as int]
                }),
            ),
    {
        let n = &mut arena.nodes[idx];
        n.filter.exclude_rotation = exclude;
    }

    /// Choose whether the parent's scale is blocked.
    pub fn exclude_scale(arena: &mut NodeArena, idx: usize, exclude: bool)
        requires
            idx < old(arena).nodes@.len(),
        ensures
            final(arena).nodes@ == old(arena).nodes@.update(
                idx as int,
                (Node {
                    filter: (FilterFlags {
                        exclude_scale: exclude,
                        ..old(arena).nodes@[idx as int].filter
                    }),
                    ..old(arena).nodes@[idx as int]
                }),
            ),
    {
        let n = &mut arena.nodes[idx];
        n.filter.exclude_scale = exclude;
    }
}

} // verus!
