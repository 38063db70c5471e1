//! Real-time procedural simulation core: a cellular-automaton heat field
//! rendered through a fixed color ramp, a particle system whose particles
//! fall toward an attractor and finish on a cubic Bezier path, and a
//! fixed-timestep scheduler that bounds how many simulation steps one
//! rendered frame may run.
//!
//! All simulation scalars are fixed-point integers: a real value `v` is
//! stored as `v * SCALE` rounded to an integer (see [`fixed`]).

pub mod fixed;
pub mod heat;
pub mod particle;
mod rng;
pub mod sched;
pub mod system;
pub mod vec3;
