//! Discrete-time gravitational N-body simulation engine.
//!
//! The engine advances a population of orbiting bodies once per fixed time
//! step: it spawns new bodies up to a target count, integrates positions and
//! velocities under the gravity of a central star and of every other body,
//! and resolves stellar collisions, system escapes, and inelastic body-body
//! merges. All state is held in fixed-point integers (meters, meters per
//! second, mass units of 10^15 kg), so every step is specified and verified
//! exactly; event thresholds compare squared distances, which keeps them
//! free of rounding altogether.

pub mod consts;
pub mod planet;
pub mod system;
pub mod vector;
