//! Core engine of a physics-driven merge puzzle: falling pieces of ordered
//! tiers merge on contact into the next tier, and the session is lost when a
//! settled piece comes to rest above a height line.
//!
//! The physics simulation, rendering and input are external collaborators:
//! this crate consumes their reports (contact pairs, pointer position, drop
//! and restart requests) as plain values and owns the merge rules, the piece
//! registry, the drop/cooldown/preview cycle and the playing/lost state
//! machine.

pub mod app_state;
pub mod collisions;
pub mod drop_control;
pub mod field;
pub mod fruit_type;
pub mod game;
pub mod registry;
