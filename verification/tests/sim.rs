use ecs_sim::collision::{boxes_overlap, collision_step};
use ecs_sim::components::{CollisionBox, Direction, Position, MOVE_STEP};
use ecs_sim::movement::movement_step;
use ecs_sim::tick::TickDriver;
use ecs_sim::world::World;

fn held(up: bool, down: bool, left: bool, right: bool) -> Direction {
    let mut d = Direction::new();
    d.up = up;
    d.down = down;
    d.left = left;
    d.right = right;
    d
}

fn spawn_ship(w: &mut World, x: i64, y: i64, width: i64, height: i64, controlled: bool) -> usize {
    let id = w.spawn();
    w.attach_position(id, Position { x, y });
    w.attach_collision_box(
        id,
        CollisionBox { origin_x: x, origin_y: y, width, height },
    );
    if controlled {
        w.attach_controllable(id);
    }
    id
}

#[test]
fn single_axis_moves_by_step() {
    let mut w = World::new();
    let id = spawn_ship(&mut w, 75, 100, 100, 50, true);
    let d = held(false, false, false, true);
    movement_step(&mut w, &d);
    assert_eq!(w.get_position(id), Some(Position { x: 85, y: 100 }));
    assert_eq!(MOVE_STEP, 10);
}

#[test]
fn diagonal_moves_full_step_on_both_axes() {
    let mut w = World::new();
    let id = spawn_ship(&mut w, 75, 100, 100, 50, true);
    let d = held(true, false, false, true);
    movement_step(&mut w, &d);
    // up+right is (+10,-10), not a normalized diagonal magnitude
    assert_eq!(w.get_position(id), Some(Position { x: 85, y: 90 }));
}

#[test]
fn opposite_flags_cancel() {
    let mut w = World::new();
    let id = spawn_ship(&mut w, 75, 100, 100, 50, true);
    let d = held(true, true, true, true);
    movement_step(&mut w, &d);
    assert_eq!(w.get_position(id), Some(Position { x: 75, y: 100 }));
}

#[test]
fn idle_input_is_a_no_op() {
    let mut w = World::new();
    let id = spawn_ship(&mut w, 75, 100, 100, 50, true);
    movement_step(&mut w, &Direction::new());
    assert_eq!(w.get_position(id), Some(Position { x: 75, y: 100 }));
    let b = w.get_collision_box(id).unwrap();
    assert_eq!((b.origin_x, b.origin_y), (75, 100));
}

#[test]
fn box_origin_resynced_to_position() {
    let mut w = World::new();
    let id = spawn_ship(&mut w, 75, 100, 100, 50, true);
    let d = held(false, true, true, false);
    movement_step(&mut w, &d);
    let p = w.get_position(id).unwrap();
    let b = w.get_collision_box(id).unwrap();
    assert_eq!(b.origin_x, p.x);
    assert_eq!(b.origin_y, p.y);
    assert_eq!((p.x, p.y), (65, 110));
    // width and height are untouched by movement
    assert_eq!((b.width, b.height), (100, 50));
}

#[test]
fn untagged_entities_do_not_move() {
    let mut w = World::new();
    let id = spawn_ship(&mut w, 275, 100, 100, 50, false);
    let d = held(false, false, false, true);
    movement_step(&mut w, &d);
    assert_eq!(w.get_position(id), Some(Position { x: 275, y: 100 }));
}

#[test]
fn touching_edges_do_not_overlap() {
    // a's right edge exactly on b's left edge: strict test says no overlap
    let a = CollisionBox { origin_x: 175, origin_y: 100, width: 100, height: 50 };
    let b = CollisionBox { origin_x: 275, origin_y: 100, width: 100, height: 50 };
    assert!(!boxes_overlap(&a, &b));
    assert!(!boxes_overlap(&b, &a));
}

#[test]
fn overlap_is_symmetric() {
    let a = CollisionBox { origin_x: 185, origin_y: 100, width: 100, height: 50 };
    let b = CollisionBox { origin_x: 275, origin_y: 100, width: 50, height: 100 };
    assert_eq!(boxes_overlap(&a, &b), boxes_overlap(&b, &a));
    assert!(boxes_overlap(&a, &b));
    let c = CollisionBox { origin_x: 400, origin_y: 100, width: 100, height: 50 };
    assert_eq!(boxes_overlap(&a, &c), boxes_overlap(&c, &a));
    assert!(!boxes_overlap(&a, &c));
}

#[test]
fn collision_step_is_idempotent() {
    let mut w = World::new();
    let a = spawn_ship(&mut w, 200, 100, 100, 50, true);
    let b = spawn_ship(&mut w, 275, 100, 100, 50, false);
    let first = collision_step(&w);
    let second = collision_step(&w);
    assert_eq!(first, second);
    assert_eq!(first, vec![(a, b)]);
}

#[test]
fn reports_come_in_slot_order() {
    let mut w = World::new();
    let a = spawn_ship(&mut w, 0, 0, 10, 10, true);
    let b = spawn_ship(&mut w, 5, 5, 10, 10, false);
    let c = spawn_ship(&mut w, -5, -5, 10, 10, false);
    let far = spawn_ship(&mut w, 1000, 1000, 10, 10, false);
    let reports = collision_step(&w);
    assert_eq!(reports, vec![(a, b), (a, c)]);
    assert!(!reports.contains(&(a, far)));
}

#[test]
fn tick_driver_runs_catch_up_steps() {
    let mut w = World::new();
    let d = Direction::new();
    let mut t = TickDriver::new(1000);
    // 3.5 steps accumulated: exactly 3 run, half a step stays accumulated
    let reports = t.advance(&mut w, &d, 3500);
    assert_eq!(reports.len(), 3);
    assert_eq!(t.acc, 500);
    // the remainder tops up to one more whole step
    let reports = t.advance(&mut w, &d, 500);
    assert_eq!(reports.len(), 1);
    assert_eq!(t.acc, 0);
    // less than one step: nothing runs
    let reports = t.advance(&mut w, &d, 999);
    assert_eq!(reports.len(), 0);
    assert_eq!(t.acc, 999);
}

#[test]
fn tick_driver_reports_each_step() {
    let mut w = World::new();
    let a = spawn_ship(&mut w, 255, 100, 100, 50, true);
    let b = spawn_ship(&mut w, 275, 100, 100, 50, false);
    let d = held(false, false, false, true);
    let mut t = TickDriver::new(16);
    let reports = t.advance(&mut w, &d, 32);
    assert_eq!(reports.len(), 2);
    assert_eq!(reports[0], vec![(a, b)]);
    assert_eq!(reports[1], vec![(a, b)]);
    assert_eq!(w.get_position(a), Some(Position { x: 275, y: 100 }));
}

#[test]
fn two_ships_collide_at_the_eleventh_step() {
    // ship A starts 200 px left of ship B; with 100-wide boxes the gap
    // closes once A has shifted by more than 100
    let mut w = World::new();
    let a = spawn_ship(&mut w, 75, 100, 100, 50, true);
    let b = spawn_ship(&mut w, 275, 100, 100, 50, false);
    assert_eq!(collision_step(&w), vec![]);
    let d = held(false, false, false, true);
    let mut first_hit = None;
    for step in 1..=12 {
        movement_step(&mut w, &d);
        let reports = collision_step(&w);
        if !reports.is_empty() && first_hit.is_none() {
            first_hit = Some(step);
        }
        if step <= 10 {
            assert_eq!(reports, vec![]);
        } else {
            assert_eq!(reports, vec![(a, b)]);
        }
    }
    assert_eq!(first_hit, Some(11));
    assert_eq!(w.get_position(a), Some(Position { x: 195, y: 100 }));
}
