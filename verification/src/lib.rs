//! A verified 2D platformer physics and collision engine.
//!
//! Entities are axis-aligned boxes on an integer grid. Each simulation tick
//! resolves overlaps into pushed-apart, non-penetrating positions (heavier
//! bodies win, equal weights split the overlap), re-derives velocities from
//! the displacement the solver actually allowed, records which sides of each
//! body are in contact, and reports discrete death / win events. A uniform
//! spatial grid accelerates queries against static geometry, and a small
//! trigger layer turns contact flags into button presses that open doors.

pub mod collide;
pub mod events;
pub mod flags;
pub mod geom;
pub mod partition;
pub mod resolve;
pub mod state;
pub mod trigger;
pub mod velocity;
pub mod world;
