use ecs_sim::components::{CollisionBox, Direction, Position};
use ecs_sim::input::{DirectionKey, InputCell};
use ecs_sim::world::World;

#[test]
fn spawn_counts_slots() {
    let mut w = World::new();
    assert_eq!(w.slot_count(), 0);
    let a = w.spawn();
    let b = w.spawn();
    assert_eq!((a, b), (0, 1));
    assert_eq!(w.slot_count(), 2);
    assert!(w.is_alive(a));
    assert!(w.is_alive(b));
}

#[test]
fn fresh_entity_has_no_components() {
    let mut w = World::new();
    let a = w.spawn();
    assert_eq!(w.get_position(a), None);
    assert_eq!(w.get_collision_box(a), None);
    assert_eq!(w.get_image(a), None);
    assert!(!w.is_controllable(a));
}

#[test]
fn attach_then_get_round_trip() {
    let mut w = World::new();
    let a = w.spawn();
    w.attach_position(a, Position { x: 75, y: 100 });
    w.attach_collision_box(
        a,
        CollisionBox { origin_x: 75, origin_y: 100, width: 100, height: 50 },
    );
    w.attach_image(a, 7);
    w.attach_controllable(a);
    assert_eq!(w.get_position(a), Some(Position { x: 75, y: 100 }));
    let b = w.get_collision_box(a).unwrap();
    assert_eq!((b.origin_x, b.origin_y, b.width, b.height), (75, 100, 100, 50));
    assert_eq!(w.get_image(a), Some(7));
    assert!(w.is_controllable(a));
}

#[test]
fn despawn_takes_effect_only_at_maintain() {
    let mut w = World::new();
    let a = w.spawn();
    w.attach_position(a, Position { x: 1, y: 2 });
    w.despawn(a);
    // still live, components still readable, until maintenance runs
    assert!(w.is_alive(a));
    assert_eq!(w.get_position(a), Some(Position { x: 1, y: 2 }));
    w.maintain();
    assert!(!w.is_alive(a));
    assert_eq!(w.get_position(a), None);
}

#[test]
fn spawn_reuses_the_lowest_freed_slot() {
    let mut w = World::new();
    let a = w.spawn();
    let b = w.spawn();
    w.despawn(a);
    w.maintain();
    let c = w.spawn();
    assert_eq!(c, a);
    assert_eq!(w.slot_count(), 2);
    assert!(w.is_alive(b));
    // the reused slot comes back empty
    assert_eq!(w.get_position(c), None);
    assert!(!w.is_controllable(c));
}

#[test]
fn maintain_without_despawns_changes_nothing() {
    let mut w = World::new();
    let a = w.spawn();
    w.attach_position(a, Position { x: 5, y: 6 });
    w.maintain();
    assert!(w.is_alive(a));
    assert_eq!(w.get_position(a), Some(Position { x: 5, y: 6 }));
}

#[test]
fn render_list_joins_position_and_image() {
    let mut w = World::new();
    let a = w.spawn();
    w.attach_position(a, Position { x: 75, y: 100 });
    w.attach_image(a, 3);
    let no_image = w.spawn();
    w.attach_position(no_image, Position { x: 1, y: 1 });
    let b = w.spawn();
    w.attach_position(b, Position { x: 275, y: 100 });
    w.attach_image(b, 3);
    let pairs = w.render_list();
    assert_eq!(
        pairs,
        vec![(Position { x: 75, y: 100 }, 3), (Position { x: 275, y: 100 }, 3)]
    );
}

#[test]
fn shared_image_handles_are_allowed() {
    let mut w = World::new();
    let a = w.spawn();
    let b = w.spawn();
    w.attach_image(a, 42);
    w.attach_image(b, 42);
    assert_eq!(w.get_image(a), Some(42));
    assert_eq!(w.get_image(b), Some(42));
}

#[test]
fn staged_flags_wait_for_publish() {
    let mut c = InputCell::new();
    c.set_flag(DirectionKey::Right, true);
    // nothing published yet: the simulation still sees the idle snapshot
    assert_eq!(c.snapshot(), Direction::new());
    c.publish();
    let d = c.snapshot();
    assert!(d.right);
    assert!(!d.up && !d.down && !d.left);
}

#[test]
fn apply_key_stages_and_publishes() {
    let mut c = InputCell::new();
    c.apply_key(DirectionKey::Up, true);
    c.apply_key(DirectionKey::Right, true);
    let d = c.snapshot();
    assert!(d.up && d.right && !d.down && !d.left);
    c.apply_key(DirectionKey::Up, false);
    let d = c.snapshot();
    assert!(!d.up && d.right);
}
