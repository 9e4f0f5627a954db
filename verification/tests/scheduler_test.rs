use ranger::node::{NodeBehavior, NodeType};
use ranger::orbit_anchor_node::{OrbitAnchorNode, ORBIT_STEP_MDEG};
use ranger::scheduler::TimingPriority;
use ranger::world::World;

fn test_world() -> World {
    World::new(1024, 576, 1536000, 864000, false, "t", "config.json", true)
}

/// Registering the same node id twice in one tier leaves one entry,
/// and one update pass applies exactly one update call.
#[test]
fn register_twice_updates_once() {
    let mut w = test_world();
    let scene = w
        .arena
        .create_and_attach("scene", NodeType::Scene, NodeBehavior::Plain, None, true);
    let orbit = OrbitAnchorNode::new("orbit", Some(scene), &mut w);

    w.scheduler.register_timing_target(&w.arena, orbit);
    w.scheduler.register_timing_target(&w.arena, orbit);
    assert_eq!(w.scheduler.normal_targets.len(), 1);
    assert_eq!(w.scheduler.normal_targets[0], orbit);

    // One second of updates: the angle advances by exactly one step,
    // not two.
    w.scheduler.update(&mut w.arena, 1_000_000_000);
    assert_eq!(w.arena.nodes[orbit].motion.cur, ORBIT_STEP_MDEG);
    assert_eq!(w.arena.nodes[orbit].motion.prev, 0);
}

/// A paused node receives no update calls; once resumed it receives
/// them again.
#[test]
fn paused_node_receives_no_updates() {
    let mut w = test_world();
    let scene = w
        .arena
        .create_and_attach("scene", NodeType::Scene, NodeBehavior::Plain, None, true);
    let orbit = OrbitAnchorNode::new("orbit", Some(scene), &mut w);
    w.scheduler.register_timing_target(&w.arena, orbit);

    w.arena.pause(orbit, true);
    w.scheduler.update(&mut w.arena, 1_000_000_000);
    w.scheduler.update(&mut w.arena, 1_000_000_000);
    assert_eq!(w.arena.nodes[orbit].motion.cur, 0);

    w.arena.pause(orbit, false);
    w.scheduler.update(&mut w.arena, 1_000_000_000);
    assert_eq!(w.arena.nodes[orbit].motion.cur, ORBIT_STEP_MDEG);
}

/// Bulk pause and resume flip the pause flag across one tier, and
/// resuming by id works through the scheduler too.
#[test]
fn pause_and_resume_tier() {
    let mut w = test_world();
    let scene = w
        .arena
        .create_and_attach("scene", NodeType::Scene, NodeBehavior::Plain, None, true);
    let a = OrbitAnchorNode::new("a", Some(scene), &mut w);
    let b = OrbitAnchorNode::new("b", Some(scene), &mut w);
    w.scheduler.register_timing_target(&w.arena, a);
    w.scheduler.register_timing_target(&w.arena, b);

    w.scheduler.pause_timing_targets(&mut w.arena, TimingPriority::Normal);
    assert!(w.arena.paused(a));
    assert!(w.arena.paused(b));

    w.scheduler.resume_timing_targets(&mut w.arena, TimingPriority::Normal);
    assert!(!w.arena.paused(a));
    assert!(!w.arena.paused(b));

    w.arena.pause(a, true);
    w.scheduler.schedule_timing_target(&mut w.arena, a);
    assert!(!w.arena.paused(a));
}

/// Unregistering removes by id and keeps the order of the rest.
#[test]
fn unregister_keeps_order() {
    let mut w = test_world();
    let scene = w
        .arena
        .create_and_attach("scene", NodeType::Scene, NodeBehavior::Plain, None, true);
    let a = OrbitAnchorNode::new("a", Some(scene), &mut w);
    let b = OrbitAnchorNode::new("b", Some(scene), &mut w);
    let c = OrbitAnchorNode::new("c", Some(scene), &mut w);
    w.scheduler.register_timing_target(&w.arena, a);
    w.scheduler.register_timing_target(&w.arena, b);
    w.scheduler.register_timing_target(&w.arena, c);

    w.scheduler.unschedule_timing_target_by_id(b);
    assert_eq!(w.scheduler.normal_targets, vec![a, c]);

    w.scheduler.unschedule_timing_target(&w.arena, a);
    assert_eq!(w.scheduler.normal_targets, vec![c]);
}

/// The recursive walk registers every timing-eligible node of a
/// subtree, and the matching walk removes them again.
#[test]
fn register_subtree_walk() {
    let mut w = test_world();
    let scene = w
        .arena
        .create_and_attach("scene", NodeType::Scene, NodeBehavior::Plain, None, true);
    let a = OrbitAnchorNode::new("a", Some(scene), &mut w);
    let b = OrbitAnchorNode::new("b", Some(a), &mut w);
    let plain = w
        .arena
        .create_and_attach("plain", NodeType::Group, NodeBehavior::Plain, Some(scene), true);

    ranger::node::Nodes::register_timing_targets(&w.arena, scene, &mut w.scheduler);
    assert_eq!(w.scheduler.normal_targets, vec![a, b]);

    ranger::node::Nodes::unregister_timing_targets(&w.arena, scene, &mut w.scheduler);
    assert_eq!(w.scheduler.normal_targets.len(), 0);
    let _ = plain;
}
