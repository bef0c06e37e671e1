//! The input resource: the single source of truth for the directional-input
//! snapshot. The host's key handler stages flag changes one event at a time
//! and publishes the whole snapshot; the movement step reads the published
//! value once per step and never a newer one.

use vstd::prelude::*;

use crate::components::Direction;

verus! {

/// One of the four directional flags.
#[derive(Clone, Copy, Debug, PartialEq, Eq, Structural)]
pub enum DirectionKey {
    Up,
    Down,
    Left,
    Right,
}

/// The snapshot `d` with the one flag named by `key` set to `pressed`.
pub open spec fn with_flag(d: Direction, key: DirectionKey, pressed: bool) -> Direction {
    match key {
        DirectionKey::Up => Direction { up: pressed, ..d },
        DirectionKey::Down => Direction { down: pressed, ..d },
        DirectionKey::Left => Direction { left: pressed, ..d },
        DirectionKey::Right => Direction { right: pressed, ..d },
    }
}

/// The shared input cell: a staged snapshot owned by the event handler and
/// the published snapshot the simulation reads. Writes are whole-value
/// replacements, so the simulation always sees the state as of the last
/// published event, never a torn or newer one.
pub struct InputCell {
    /// The snapshot the event handler mutates, one flag per event.
    pub staging: Direction,
    /// The snapshot the simulation reads; updated only by `publish`.
    pub published: Direction,
}

impl InputCell {
    /// A fresh cell: nothing held, nothing published.
    pub fn new() -> (c: InputCell)
        ensures
            c.staging == Direction::idle(),
            c.published == Direction::idle(),
    {
        InputCell { staging: Direction::new(), published: Direction::new() }
    }

    /// Records one key transition in the staged snapshot. The published
    /// snapshot is untouched until `publish` runs.
    pub fn set_flag(&mut self, key: DirectionKey, pressed: bool)
        ensures
            final(self).staging == with_flag(old(self).staging, key, pressed),
            final(self).published == old(self).published,
    {
        match key {
            DirectionKey::Up => self.staging.up = pressed,
            DirectionKey::Down => self.staging.down = pressed,
            DirectionKey::Left => self.staging.left = pressed,
            DirectionKey::Right => self.staging.right = pressed,
        }
    }

    /// Publishes the staged snapshot wholesale: from here on the simulation
    /// reads exactly this value.
    pub fn publish(&mut self)
        ensures
            final(self).staging == old(self).staging,
            final(self).published == old(self).staging,
    {
        self.published = self.staging;
    }

    /// Records one key transition and publishes at once, as a host's
    /// key-down and key-up handlers do.
    pub fn apply_key(&mut self, key: DirectionKey, pressed: bool)
        ensures
            final(self).staging == with_flag(old(self).staging, key, pressed),
            final(self).published == final(self).staging,
    {
        self.set_flag(key, pressed);
        self.publish();
    }

    /// The snapshot the simulation reads: the last published value.
    pub fn snapshot(&self) -> (d: Direction)
        ensures
            d == self.published,
    {
        self.published
    }
}

} // verus!
