//! A minimal fixed-timestep entity simulation: typed component tables keyed
//! by entity identifier, a movement step that applies the current directional
//! input to every controlled entity, a collision step that reports every
//! overlap between a controlled box and a non-controlled box, and a tick
//! driver that accumulates elapsed time and runs whole simulation steps at a
//! fixed cadence.

pub mod collision;
pub mod components;
pub mod input;
pub mod movement;
pub mod tick;
pub mod world;
