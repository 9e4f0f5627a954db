use ranger::context::Context;
use ranger::cross_node::CrossNode;
use ranger::node::{NodeBehavior, NodeType, Nodes};
use ranger::transform::{Mat3, Point};
use ranger::transform_filter::TransformFilter;
use ranger::world::World;

fn test_world() -> World {
    World::new(1024, 576, 1536000, 864000, false, "t", "config.json", true)
}

/// An invisible node is skipped entirely: neither it nor any
/// descendant draws.
#[test]
fn invisible_subtree_draws_nothing() {
    let mut w = test_world();
    let scene = w
        .arena
        .create_and_attach("scene", NodeType::Scene, NodeBehavior::Plain, None, true);
    let group = w
        .arena
        .create_and_attach("group", NodeType::Group, NodeBehavior::Plain, Some(scene), true);
    let leaf = CrossNode::new("leaf", Some(group), &mut w);

    let mut ctx = Context::new();
    w.arena.set_visible(group, false);
    w.arena.visit(scene, &mut ctx, 0);
    let ids: Vec<usize> = ctx.trace.iter().map(|r| r.id).collect();
    assert_eq!(ids, vec![scene]);

    // An invisible root skips the whole tree, the leaf included.
    let mut ctx2 = Context::new();
    w.arena.set_visible(group, true);
    w.arena.set_visible(scene, false);
    w.arena.visit(scene, &mut ctx2, 0);
    assert_eq!(ctx2.trace.len(), 0);
    let _ = leaf;
}

/// Children draw in insertion order, parent first.
#[test]
fn children_drawn_in_insertion_order() {
    let mut w = test_world();
    let scene = w
        .arena
        .create_and_attach("scene", NodeType::Scene, NodeBehavior::Plain, None, true);
    let a = CrossNode::new("a", Some(scene), &mut w);
    let b = CrossNode::new("b", Some(scene), &mut w);
    let c = CrossNode::new("c", Some(scene), &mut w);

    let mut ctx = Context::new();
    w.arena.visit(scene, &mut ctx, 0);
    let ids: Vec<usize> = ctx.trace.iter().map(|r| r.id).collect();
    assert_eq!(ids, vec![scene, a, b, c]);
}

/// Setting a transform marks the node and every descendant dirty; a
/// clean node with an unchanged transform reuses its cached matrix,
/// observed through the recompute counter.
#[test]
fn dirty_ripples_down_and_cache_is_reused() {
    let mut w = test_world();
    let scene = w
        .arena
        .create_and_attach("scene", NodeType::Scene, NodeBehavior::Plain, None, true);
    let group = w
        .arena
        .create_and_attach("group", NodeType::Group, NodeBehavior::Plain, Some(scene), true);
    let leaf = CrossNode::new("leaf", Some(group), &mut w);

    // First visit cleans the freshly created (dirty) nodes.
    let mut ctx = Context::new();
    w.arena.visit(scene, &mut ctx, 0);
    assert_eq!(ctx.recomputes, 3);
    assert!(!w.arena.is_node_dirty(scene));
    assert!(!w.arena.is_node_dirty(group));
    assert!(!w.arena.is_node_dirty(leaf));

    // A clean tree reuses every cached matrix.
    w.arena.visit(scene, &mut ctx, 0);
    assert_eq!(ctx.recomputes, 3);

    // Moving the middle group dirties it and its descendant, not the
    // parent scene.
    w.arena.set_position(group, 2000, 0);
    assert!(!w.arena.is_node_dirty(scene));
    assert!(w.arena.is_node_dirty(group));
    assert!(w.arena.is_node_dirty(leaf));

    w.arena.visit(scene, &mut ctx, 0);
    assert_eq!(ctx.recomputes, 5);
}

/// A transform filter that blocks rotation and scale but passes
/// translation: a parent rotated 90 degrees, moved to (5, 5) and
/// scaled by 2 hands its child only the translation, so a child at
/// local (1, 0) lands at world (6, 5) — not at (5, 5) rotated.
#[test]
fn filter_blocks_rotation_and_scale_keeps_translation() {
    let mut w = test_world();
    let scene = w
        .arena
        .create_and_attach("scene", NodeType::Scene, NodeBehavior::Plain, None, true);
    let parent = w
        .arena
        .create_and_attach("parent", NodeType::Group, NodeBehavior::Plain, Some(scene), true);
    let filter = TransformFilter::new("filter", Some(parent), &mut w);
    let child = CrossNode::new("child", Some(filter), &mut w);

    w.arena.set_position(parent, 5000, 5000);
    w.arena.set_rotation_degrees(parent, 90000);
    w.arena.set_scale(parent, 2000);
    w.arena.set_position(child, 1000, 0);

    let mut ctx = Context::new();
    w.arena.visit(scene, &mut ctx, 0);

    let rec = ctx.trace.iter().find(|r| r.id == child).expect("child drawn");
    assert_eq!(
        rec.xform,
        Mat3 { a: 1000, b: 0, c: 0, d: 1000, tx: 6000, ty: 5000 }
    );
    let world_pos = rec.xform.apply_to_point(&Point::from_xy(0, 0));
    assert_eq!(world_pos, Point { x: 6000, y: 5000 });

    // Without the filter the same child would inherit the rotation
    // and scale: drawn under the parent it lands at (5, 7).
    let direct = CrossNode::new("direct", Some(parent), &mut w);
    w.arena.set_position(direct, 1000, 0);
    let mut ctx2 = Context::new();
    w.arena.visit(scene, &mut ctx2, 0);
    let rec2 = ctx2.trace.iter().find(|r| r.id == direct).expect("direct drawn");
    let direct_pos = rec2.xform.apply_to_point(&Point::from_xy(0, 0));
    assert_eq!(direct_pos, Point { x: 5000, y: 7000 });
}

/// Re-enabling rotation inheritance on a filter lets the parent's
/// turn reach the child again, while scale stays blocked.
#[test]
fn filter_flags_are_configurable() {
    let mut w = test_world();
    let scene = w
        .arena
        .create_and_attach("scene", NodeType::Scene, NodeBehavior::Plain, None, true);
    let parent = w
        .arena
        .create_and_attach("parent", NodeType::Group, NodeBehavior::Plain, Some(scene), true);
    let filter = TransformFilter::new("filter", Some(parent), &mut w);
    let child = CrossNode::new("child", Some(filter), &mut w);

    TransformFilter::exclude_rotation(&mut w.arena, filter, false);
    w.arena.set_position(parent, 5000, 5000);
    w.arena.set_rotation_degrees(parent, 90000);
    w.arena.set_scale(parent, 2000);
    w.arena.set_position(child, 1000, 0);

    let mut ctx = Context::new();
    w.arena.visit(scene, &mut ctx, 0);
    let rec = ctx.trace.iter().find(|r| r.id == child).expect("child drawn");
    // The quarter turn is inherited: local (1, 0) turns toward +y.
    let world_pos = rec.xform.apply_to_point(&Point::from_xy(0, 0));
    assert_eq!(world_pos, Point { x: 5000, y: 6000 });
}

/// The world transform composes the parent chain, child innermost.
#[test]
fn node_to_world_composes_ancestors() {
    let mut w = test_world();
    let scene = w
        .arena
        .create_and_attach("scene", NodeType::Scene, NodeBehavior::Plain, None, true);
    let group = w
        .arena
        .create_and_attach("group", NodeType::Group, NodeBehavior::Plain, Some(scene), true);
    let leaf = CrossNode::new("leaf", Some(group), &mut w);
    w.arena.set_position(group, 2000, 3000);
    w.arena.set_position(leaf, 1000, 0);

    let mut world_m = Mat3::identity();
    w.arena.node_to_world(leaf, &mut world_m);
    let p = world_m.apply_to_point(&Point::from_xy(0, 0));
    assert_eq!(p, Point { x: 3000, y: 3000 });
}

/// Only leaves are matched by a find, and a missing id yields the Nil
/// sentinel.
#[test]
fn find_node_finds_leaves() {
    let mut w = test_world();
    let scene = w
        .arena
        .create_and_attach("scene", NodeType::Scene, NodeBehavior::Plain, None, true);
    let group = w
        .arena
        .create_and_attach("group", NodeType::Group, NodeBehavior::Plain, Some(scene), true);
    let leaf = CrossNode::new("leaf", Some(group), &mut w);

    assert_eq!(Nodes::find_node(&w.arena, leaf, scene), leaf);
    assert_eq!(Nodes::find_node(&w.arena, 999, scene), 0);
    assert!(Nodes::id_equal_node(&w.arena, leaf, leaf));
}
