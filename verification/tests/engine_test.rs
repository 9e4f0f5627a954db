use ranger::engine::{Core, SECOND_NS, UPDATES_PER_SECOND};
use ranger::node::{NodeBehavior, NodeType};
use ranger::orbit_anchor_node::OrbitAnchorNode;
use ranger::world::World;

fn test_world() -> World {
    World::new(1024, 576, 1536000, 864000, false, "t", "config.json", true)
}

/// With the fixed 33.33 ms update period, 100 ms of simulated elapsed
/// time fires exactly three scheduler updates, and the frame's
/// interpolation factor stays inside [0, 1).
#[test]
fn accumulator_fires_three_updates_for_100ms() {
    let mut w = test_world();
    let mut core = Core::new();
    assert_eq!(core.update_period, SECOND_NS / UPDATES_PER_SECOND);
    assert_eq!(core.update_period, 33_333_333);

    let (updates, interp) = core.advance_frame(&mut w.arena, &w.scheduler, 100_000_000);
    assert_eq!(updates, 3);
    assert!(0 <= interp && interp < 1000);
    assert_eq!(core.lag, 100_000_000 - 3 * 33_333_333);
}

/// The remainder of one frame carries into the next: two 20 ms frames
/// fire one update in total.
#[test]
fn accumulator_carries_lag_between_frames() {
    let mut w = test_world();
    let mut core = Core::new();

    let (u1, _) = core.advance_frame(&mut w.arena, &w.scheduler, 20_000_000);
    assert_eq!(u1, 0);
    let (u2, _) = core.advance_frame(&mut w.arena, &w.scheduler, 20_000_000);
    assert_eq!(u2, 1);
    assert_eq!(core.lag, 40_000_000 - 33_333_333);
}

/// The updates the accumulator fires really reach the scheduler's
/// targets: three periods advance an orbit anchor three steps.
#[test]
fn accumulator_drives_scheduler_updates() {
    let mut w = test_world();
    let scene = w
        .arena
        .create_and_attach("scene", NodeType::Scene, NodeBehavior::Plain, None, true);
    let orbit = OrbitAnchorNode::new("orbit", Some(scene), &mut w);
    w.scheduler.register_timing_target(&w.arena, orbit);

    let mut core = Core::new();
    let (updates, _) = core.advance_frame(&mut w.arena, &w.scheduler, 100_000_000);
    assert_eq!(updates, 3);
    // Each pass advances by step * period / NANOS_PER_SECOND: the full
    // 33.333333 ms period, not a truncated whole-millisecond one.
    let step_per_update = (ranger::orbit_anchor_node::ORBIT_STEP_MDEG * 33_333_333)
        / 1_000_000_000;
    assert_eq!(step_per_update, -166);
    assert_eq!(w.arena.nodes[orbit].motion.cur, 3 * step_per_update);
}

/// The per-second counters publish averages once a second has
/// accumulated, then start over.
#[test]
fn per_second_counters_reset() {
    let mut core = Core::new();
    core.note_frame(600_000_000, 18, 2_000_000, 1_000_000, 500_000);
    assert_eq!(core.fps, 0);
    assert_eq!(core.frame_count, 1);

    core.note_frame(400_000_000, 12, 4_000_000, 3_000_000, 1_500_000);
    assert_eq!(core.fps, 2);
    assert_eq!(core.ups, 30);
    assert_eq!(core.avg_ren_time, 3_000_000);
    assert_eq!(core.avg_up_time, 2_000_000);
    assert_eq!(core.avg_blit_time, 1_000_000);
    assert_eq!(core.frame_count, 0);
    assert_eq!(core.second_acm, 0);
}

/// The world mints strictly increasing, unique ids through an explicit
/// counter.
#[test]
fn world_generates_increasing_ids() {
    let mut w = test_world();
    let i1 = w.gen_id();
    let i2 = w.gen_id();
    let i3 = w.gen_id();
    assert_eq!((i1, i2, i3), (1, 2, 3));
}

/// The world wires the whole engine together and reports a successful
/// configuration.
#[test]
fn world_configure_reports_success() {
    let mut w = test_world();
    assert_eq!(w.configure(), Ok(String::from("Configured")));
    assert_eq!(w.properties().window_width, 1024);
    assert_eq!(w.properties().view_width, 1536000);
    assert_eq!(w.arena.len(), 1);
    assert!(w.arena.is_nil(0));
}
