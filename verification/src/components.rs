//! The component kinds an entity may carry: a 2D position, an axis-aligned
//! collision box, a shared image handle, and the player-control marker.
//!
//! Coordinates are whole units (`i64`); every movement adjusts them by the
//! fixed `MOVE_STEP`. Each component type has a mathematical image (`PosV`,
//! `BoxV`) over unbounded integers, which the contracts speak of.

use vstd::prelude::*;

verus! {

/// Distance, in world units, that one held direction moves a controlled
/// entity in a single simulation step.
pub const MOVE_STEP: i64 = 10;

/// A 2D coordinate owned by exactly one entity. Mutated only by the
/// movement step.
#[derive(Clone, Copy, Debug, PartialEq, Eq, Structural)]
pub struct Position {
    pub x: i64,
    pub y: i64,
}

/// Mathematical image of a `Position`: the same point over unbounded
/// integers.
pub ghost struct PosV {
    pub x: int,
    pub y: int,
}

impl View for Position {
    type V = PosV;

    open spec fn view(&self) -> PosV {
        PosV { x: self.x as int, y: self.y as int }
    }
}

/// An axis-aligned rectangle: origin plus non-negative width and height.
/// For controlled entities the movement step keeps `origin` in lockstep
/// with the entity's `Position`.
#[derive(Clone, Copy, Debug, PartialEq, Eq, Structural)]
pub struct CollisionBox {
    pub origin_x: i64,
    pub origin_y: i64,
    pub width: i64,
    pub height: i64,
}

/// Mathematical image of a `CollisionBox`.
pub ghost struct BoxV {
    pub x: int,
    pub y: int,
    pub width: int,
    pub height: int,
}

impl View for CollisionBox {
    type V = BoxV;

    open spec fn view(&self) -> BoxV {
        BoxV {
            x: self.origin_x as int,
            y: self.origin_y as int,
            width: self.width as int,
            height: self.height as int,
        }
    }
}

/// The directional-input snapshot: four independent flags, each meaning
/// "this direction is currently held". Several may be active at once
/// (diagonal movement), so this is a struct of booleans, not an enum.
#[derive(Clone, Copy, Debug, PartialEq, Eq, Structural)]
pub struct Direction {
    pub up: bool,
    pub down: bool,
    pub left: bool,
    pub right: bool,
}

impl Direction {
    /// The snapshot with no direction held.
    pub open spec fn idle() -> Direction {
        Direction { up: false, down: false, left: false, right: false }
    }

    /// A fresh snapshot: nothing held.
    pub fn new() -> (d: Direction)
        ensures
            d == Direction::idle(),
    {
        Direction { up: false, down: false, left: false, right: false }
    }
}

} // verus!
