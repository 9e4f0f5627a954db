use ranger::context::Context;
use ranger::node::{NodeBehavior, NodeType, Nodes};
use ranger::orbit_anchor_node::OrbitAnchorNode;
use ranger::transform::Transform;
use ranger::world::World;

/// A centered view transform scales the window against the logical
/// view and moves the origin to the window center.
#[test]
fn initialize_builds_centered_view_transform() {
    let w = World::new(1024, 576, 1_536_000, 864_000, true, "t", "config.json", true);
    assert_eq!(
        w.scene_manager.context.view_t,
        Transform { px: 512_000, py: 288_000, deg: 0, sx: 666, sy: 666 }
    );
}

/// Device coordinates map into view space through the inverse view
/// transform; under the identity view they only change units.
#[test]
fn device_maps_to_view_through_inverse() {
    let ctx = Context::new();
    let (vx, vy) = Nodes::map_device_to_view(10, 20, &ctx);
    assert_eq!((vx, vy), (10_000, 20_000));
}

/// A pointer move is mapped into view coordinates at the next frame.
#[test]
fn pointer_view_coordinates_follow_mouse() {
    let mut w = World::new(1024, 576, 1_536_000, 864_000, false, "t", "config.json", true);
    let a = w
        .arena
        .create_and_attach("A", NodeType::Scene, NodeBehavior::Plain, None, true);
    w.scene_manager.push_scene(a);
    let ev = ranger::scene_manager::IOEventData::new_mouse_event(666, 0);
    w.scene_manager.io_event(&w.arena, ev);
    assert!(w.scene_manager.visit(&mut w.arena, 0));
    assert!(!w.scene_manager.global_data.mouse_changed);
    // The view scales by 666/1000; the inverse divides it out, up to
    // fixed-point truncation (1000/666 truncates to 1.501).
    let (vx, vy) = w.scene_manager.global_data.view;
    assert_eq!(vy, 0);
    assert_eq!(vx, 999_666);
}

/// Interpolation is applied to the continuously animated delta at
/// render time only: the drawn matrix blends the angle, while the
/// node's stored transform stays untouched.
#[test]
fn orbit_interpolates_at_render_without_settling() {
    let mut w = World::new(1024, 576, 1_536_000, 864_000, false, "t", "config.json", true);
    let scene = w
        .arena
        .create_and_attach("scene", NodeType::Scene, NodeBehavior::Plain, None, true);
    let orbit = OrbitAnchorNode::new("orbit", Some(scene), &mut w);
    w.scheduler.register_timing_target(&w.arena, orbit);

    // One discrete update of one second: prev = 0, cur = -5000.
    w.scheduler.update(&mut w.arena, 1_000_000_000);

    let mut ctx = Context::new();
    w.arena.visit(scene, &mut ctx, 500);
    let rec = ctx.trace.iter().find(|r| r.id == orbit).expect("orbit drawn");
    // Halfway between 0 and -5 degrees: -2.5 degrees.
    assert_eq!(rec.xform.a, 999);
    assert_eq!(rec.xform.b, -44);

    // The stored transform still has its base rotation.
    assert_eq!(w.arena.nodes[orbit].transform.deg, 0);
}
