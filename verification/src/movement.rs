//! The movement step: applies the current directional-input snapshot to
//! every entity that has a position, a collision box and the player-control
//! marker, then resyncs the box origin to the new position.
//!
//! Each held flag adjusts one axis by the fixed `MOVE_STEP`; the four flags
//! are independent, so a diagonal input moves by the full step on both axes
//! (deliberately not normalized). There is no frame-time scaling: the
//! magnitude per step is constant.

use vstd::prelude::*;

use crate::components::{BoxV, CollisionBox, Direction, PosV, Position, MOVE_STEP};
use crate::world::{World, WorldView};

verus! {

/// Whether the movement step touches slot `e`: a live entity with all of
/// position, collision box and the player-control marker.
pub open spec fn movement_join(w: WorldView, e: int) -> bool {
    &&& 0 <= e < w.len()
    &&& w.alive[e]
    &&& w.controllable[e]
    &&& w.positions[e] is Some
    &&& w.boxes[e] is Some
}

/// One step's effect on a position: each held flag adjusts its axis by the
/// fixed step. Up is toward smaller y, left toward smaller x.
pub open spec fn move_pos(p: PosV, d: Direction) -> PosV {
    PosV {
        x: p.x + (if d.right {
            MOVE_STEP as int
        } else {
            0
        }) - (if d.left {
            MOVE_STEP as int
        } else {
            0
        }),
        y: p.y + (if d.down {
            MOVE_STEP as int
        } else {
            0
        }) - (if d.up {
            MOVE_STEP as int
        } else {
            0
        }),
    }
}

/// The movement step's effect on the whole store: every joined entity's
/// position moves by `move_pos` and its box origin is set to the new
/// position; every other slot and every other table is untouched.
pub open spec fn move_spec(w: WorldView, d: Direction) -> WorldView {
    WorldView {
        positions: Seq::new(
            w.len(),
            |e: int|
                if movement_join(w, e) {
                    Some(move_pos(w.positions[e]->Some_0, d))
                } else {
                    w.positions[e]
                },
        ),
        boxes: Seq::new(
            w.len(),
            |e: int|
                if movement_join(w, e) {
                    Some(
                        BoxV {
                            x: move_pos(w.positions[e]->Some_0, d).x,
                            y: move_pos(w.positions[e]->Some_0, d).y,
                            width: w.boxes[e]->Some_0.width,
                            height: w.boxes[e]->Some_0.height,
                        },
                    )
                } else {
                    w.boxes[e]
                },
        ),
        ..w
    }
}

/// Every coordinate that the movement step may touch is far enough from the
/// `i64` limits to survive `n` further steps.
pub open spec fn step_safe(w: WorldView, n: nat) -> bool {
    forall|e: int|
        #[trigger] movement_join(w, e) ==> {
            let p = w.positions[e]->Some_0;
            &&& i64::MIN + (MOVE_STEP as int) * n <= p.x <= i64::MAX - (MOVE_STEP as int) * n
            &&& i64::MIN + (MOVE_STEP as int) * n <= p.y <= i64::MAX - (MOVE_STEP as int) * n
        }
}

/// Runs one movement step over the store with the given input snapshot.
pub fn movement_step(w: &mut World, d: &Direction)
    requires
        old(w)@.wf(),
        step_safe(old(w)@, 1),
    ensures
        final(w)@.wf(),
        final(w)@ == move_spec(old(w)@, *d),
{
    let ghost w0 = w@;
    let ghost p0 = w.positions@;
    let ghost b0 = w.boxes@;
    let n = w.alive.len();
    let mut i: usize = 0;
    while i < n
        invariant
            i <= n,
            n == w0.len(),
            w0.wf(),
            step_safe(w0, 1),
            p0.len() == n,
            b0.len() == n,
            w0.positions == p0.map_values(
                |p: Option<Position>|
                    match p {
                        Some(q) => Some(q@),
                        None => None,
                    },
            ),
            w0.boxes == b0.map_values(
                |b: Option<CollisionBox>|
                    match b {
                        Some(c) => Some(c@),
                        None => None,
                    },
            ),
            w.images@ == w0.images,
            w.controllable@ == w0.controllable,
            w.alive@ == w0.alive,
            w.pending@ == w0.pending,
            w.positions@ == Seq::new(
                n as nat,
                |e: int|
                    if 0 <= e < i && movement_join(w0, e) {
                        Some(
                            Position {
                                x: move_pos(w0.positions[e]->Some_0, *d).x as i64,
                                y: move_pos(w0.positions[e]->Some_0, *d).y as i64,
                            },
                        )
                    } else {
                        p0[e]
                    },
            ),
            w.boxes@ == Seq::new(
                n as nat,
                |e: int|
                    if 0 <= e < i && movement_join(w0, e) {
                        Some(
                            CollisionBox {
                                origin_x: move_pos(w0.positions[e]->Some_0, *d).x as i64,
                                origin_y: move_pos(w0.positions[e]->Some_0, *d).y as i64,
                                width: w0.boxes[e]->Some_0.width as i64,
                                height: w0.boxes[e]->Some_0.height as i64,
                            },
                        )
                    } else {
                        b0[e]
                    },
            ),
        decreases n - i,
    {
        proof {
            assert(w0.positions[i as int] == (match p0[i as int] {
                Some(q) => Some(q@),
                None => None,
            }));
            assert(w0.boxes[i as int] == (match b0[i as int] {
                Some(c) => Some(c@),
                None => None,
            }));
        }
        let joined = w.alive[i] && w.controllable[i] && w.positions[i].is_some()
            && w.boxes[i].is_some();
        proof {
            assert(joined == movement_join(w0, i as int));
        }
        if joined {
            let mut p = w.positions[i].unwrap();
            if d.up {
                p.y = p.y - MOVE_STEP;
            }
            if d.down {
                p.y = p.y + MOVE_STEP;
            }
            if d.left {
                p.x = p.x - MOVE_STEP;
            }
            if d.right {
                p.x = p.x + MOVE_STEP;
            }
            let bx = w.boxes[i].unwrap();
            w.positions.set(i, Some(p));
            w.boxes.set(
                i,
                Some(
                    CollisionBox {
                        origin_x: p.x,
                        origin_y: p.y,
                        width: bx.width,
                        height: bx.height,
                    },
                ),
            );
        }
        i = i + 1;
        proof {
            assert(w.positions@ =~= Seq::new(
                n as nat,
                |e: int|
                    if 0 <= e < i && movement_join(w0, e) {
                        Some(
                            Position {
                                x: move_pos(w0.positions[e]->Some_0, *d).x as i64,
                                y: move_pos(w0.positions[e]->Some_0, *d).y as i64,
                            },
                        )
                    } else {
                        p0[e]
                    },
            ));
            assert(w.boxes@ =~= Seq::new(
                n as nat,
                |e: int|
                    if 0 <= e < i && movement_join(w0, e) {
                        Some(
                            CollisionBox {
                                origin_x: move_pos(w0.positions[e]->Some_0, *d).x as i64,
                                origin_y: move_pos(w0.positions[e]->Some_0, *d).y as i64,
                                width: w0.boxes[e]->Some_0.width as i64,
                                height: w0.boxes[e]->Some_0.height as i64,
                            },
                        )
                    } else {
                        b0[e]
                    },
            ));
        }
    }
    proof {
        assert forall|e: int| 0 <= e < n implies w@.positions[e] == move_spec(w0, *d).positions[e]
            && w@.boxes[e] == move_spec(w0, *d).boxes[e] by {
            assert(w@.positions[e] == (match w.positions@[e] {
                Some(q) => Some(q@),
                None => None,
            }));
            assert(w@.boxes[e] == (match w.boxes@[e] {
                Some(c) => Some(c@),
                None => None,
            }));
            assert(w0.positions[e] == (match p0[e] {
                Some(q) => Some(q@),
                None => None,
            }));
            assert(w0.boxes[e] == (match b0[e] {
                Some(c) => Some(c@),
                None => None,
            }));
            if movement_join(w0, e) {
                assert(i64::MIN <= move_pos(w0.positions[e]->Some_0, *d).x <= i64::MAX);
                assert(i64::MIN <= move_pos(w0.positions[e]->Some_0, *d).y <= i64::MAX);
            }
        }
        assert(w@.positions =~= move_spec(w0, *d).positions);
        assert(w@.boxes =~= move_spec(w0, *d).boxes);
        assert(w@ =~= move_spec(w0, *d));
    }
}

/// After a movement step, every joined entity's collision-box origin equals
/// its position exactly — equality, not approximation. Movement itself
/// re-establishes the lockstep invariant every step.
pub proof fn lemma_movement_resyncs_box(w: WorldView, d: Direction)
    requires
        w.wf(),
    ensures
        forall|e: int|
            #[trigger] movement_join(w, e) ==> {
                let m = move_spec(w, d);
                &&& m.positions[e] is Some
                &&& m.boxes[e] is Some
                &&& m.boxes[e]->Some_0.x == m.positions[e]->Some_0.x
                &&& m.boxes[e]->Some_0.y == m.positions[e]->Some_0.y
            },
{
}

/// A diagonal input (up and right held together) moves by the full step on
/// both axes in one step: the magnitude is deliberately not normalized, so
/// diagonal travel is faster than axis-aligned travel.
pub proof fn lemma_diagonal_step(p: PosV, d: Direction)
    requires
        d.up,
        d.right,
        !d.down,
        !d.left,
    ensures
        move_pos(p, d) == (PosV { x: p.x + MOVE_STEP as int, y: p.y - MOVE_STEP as int }),
{
}

/// With no direction held, a movement step changes nothing, provided every
/// joined entity's box origin already sits on its position (which movement
/// itself guarantees from the first step on).
pub proof fn lemma_idle_input_is_noop(w: WorldView, d: Direction)
    requires
        w.wf(),
        d == Direction::idle(),
        forall|e: int|
            #[trigger] movement_join(w, e) ==> w.boxes[e]->Some_0.x == w.positions[e]->Some_0.x
                && w.boxes[e]->Some_0.y == w.positions[e]->Some_0.y,
    ensures
        move_spec(w, d) == w,
{
    assert(move_spec(w, d).positions =~= w.positions);
    assert(move_spec(w, d).boxes =~= w.boxes);
    assert(move_spec(w, d) =~= w);
}

} // verus!
