use ranger::node::{NodeBehavior, NodeType};
use ranger::scene_boot::SceneBoot;
use ranger::scene_manager::{SceneEvent, SceneManager};
use ranger::world::World;

fn test_world() -> World {
    World::new(1024, 576, 1536000, 864000, false, "t", "config.json", true)
}

fn plain_scene(w: &mut World, name: &str) -> usize {
    w.arena
        .create_and_attach(name, NodeType::Scene, NodeBehavior::Plain, None, true)
}

/// Pushing two scenes and running one frame-swap cycle leaves the
/// second one running; a subsequent pop discards the running top,
/// requests a flush, and leaves the first scene pending.
#[test]
fn push_push_swap_then_pop() {
    let mut w = test_world();
    let a = plain_scene(&mut w, "A");
    let b = plain_scene(&mut w, "B");

    w.scene_manager.push_scene(a);
    w.scene_manager.push_scene(b);
    let alive = w.scene_manager.visit(&mut w.arena, 0);
    assert!(alive);
    assert_eq!(w.scene_manager.scenes.running_scene, b);
    assert_eq!(w.scene_manager.scenes.next_scene, 0);
    assert_eq!(w.scene_manager.scenes.scenes, vec![a, b]);

    w.scene_manager.pop_scene();
    assert!(w.scene_manager.scenes.signal_scene_to_flush);
    assert_eq!(w.scene_manager.scenes.next_scene, a);
    assert_eq!(w.scene_manager.scenes.scenes, vec![a]);

    // The next frame swaps A back in, flushing B on the way out.
    assert!(w.scene_manager.visit(&mut w.arena, 0));
    assert_eq!(w.scene_manager.scenes.running_scene, a);
}

/// Replacing the running scene pops the old top, pushes the
/// replacement, and after the swap the replacement is running. The
/// journal shows the old scene's exit and flush strictly before the
/// new scene's enter.
#[test]
fn replace_exits_before_enter() {
    let mut w = test_world();
    let a = plain_scene(&mut w, "A");
    let b = plain_scene(&mut w, "B");
    let c = plain_scene(&mut w, "C");

    w.scene_manager.push_scene(a);
    assert!(w.scene_manager.visit(&mut w.arena, 0));
    w.scene_manager.push_scene(b);
    assert!(w.scene_manager.visit(&mut w.arena, 0));
    assert_eq!(w.scene_manager.scenes.running_scene, b);

    w.scene_manager.replace_scene(c);
    assert_eq!(w.scene_manager.scenes.scenes, vec![a, c]);
    assert!(w.scene_manager.scenes.signal_scene_to_flush);

    let mark = w.scene_manager.global_data.events.len();
    assert!(w.scene_manager.visit(&mut w.arena, 0));
    assert_eq!(w.scene_manager.scenes.running_scene, c);

    let tail = &w.scene_manager.global_data.events[mark..];
    assert_eq!(
        tail,
        &[
            SceneEvent::StartExit(b),
            SceneEvent::Exit(b),
            SceneEvent::Flush(b),
            SceneEvent::Enter(c),
            SceneEvent::EndEnter(c),
        ]
    );
}

/// A boot scene hands the stage to its replacement on the next frame.
#[test]
fn boot_scene_requests_replacement() {
    let mut w = test_world();
    let game = plain_scene(&mut w, "game");
    let boot = SceneBoot::with_replacement("boot", game, &mut w);

    w.scene_manager.push_scene(boot);
    // First frame: the boot scene swaps in and immediately requests
    // its replacement.
    assert!(w.scene_manager.visit(&mut w.arena, 0));
    assert_eq!(w.scene_manager.scenes.running_scene, boot);
    assert_eq!(w.scene_manager.scenes.next_scene, game);
    // Second frame: the replacement runs.
    assert!(w.scene_manager.visit(&mut w.arena, 0));
    assert_eq!(w.scene_manager.scenes.running_scene, game);
}

/// A replacement is consumed exactly once: the first take returns it,
/// the second returns nothing.
#[test]
fn take_transition_scene_consumed_once() {
    let mut w = test_world();
    let game = plain_scene(&mut w, "game");
    let boot = SceneBoot::with_replacement("boot", game, &mut w);

    let first = SceneManager::take_transition_scene(&mut w.arena, boot);
    assert_eq!(first, Some(game));
    let second = SceneManager::take_transition_scene(&mut w.arena, boot);
    assert_eq!(second, None);
}

/// Popping an empty stack is reported as a harmless no-op, and a
/// visit with no scenes signals the loop to end.
#[test]
fn empty_stack_is_harmless() {
    let mut w = test_world();
    w.scene_manager.pop_scene();
    assert_eq!(w.scene_manager.scenes.scenes.len(), 0);
    assert!(!w.scene_manager.scenes.signal_scene_to_flush);
    assert!(!w.scene_manager.visit(&mut w.arena, 0));
}

/// A pointer event updates the shared pointer state and is broadcast
/// to every node of the running subtree.
#[test]
fn mouse_event_broadcasts_to_subtree() {
    let mut w = test_world();
    let a = plain_scene(&mut w, "A");
    let leaf = ranger::cross_node::CrossNode::new("leaf", Some(a), &mut w);
    w.scene_manager.push_scene(a);
    assert!(w.scene_manager.visit(&mut w.arena, 0));

    let mark = w.scene_manager.global_data.events.len();
    let ev = ranger::scene_manager::IOEventData::new_mouse_event(10, 20);
    w.scene_manager.io_event(&w.arena, ev);
    assert_eq!(w.scene_manager.global_data.mouse, (10, 20));
    assert!(w.scene_manager.global_data.mouse_changed);
    let tail = &w.scene_manager.global_data.events[mark..];
    assert_eq!(tail, &[SceneEvent::Io(a), SceneEvent::Io(leaf)]);
}
