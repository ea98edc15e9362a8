//! Core of a 2-D flocking ("boids") simulation.
//!
//! Every tick, each agent looks at the neighbors it can see inside its vision
//! radius and field of view, blends separation, cohesion, alignment, boundary
//! return and optional goal-seek contributions into a velocity delta, and the
//! integrator then applies the delta, clamps the speed and advances the
//! position.  The simulation works on plain fixed-point coordinates (an `i64`
//! number of world units, at whatever scale the caller picks); rendering,
//! windowing and input belong to the application shell around this crate.

use vstd::prelude::*;

pub mod agent;
pub mod config;
pub mod engine;
pub mod index;
pub mod integrate;
pub mod math;
pub mod steer;
pub mod vec2;

verus! {

/// Largest coordinate or velocity component (in world units) a well-formed
/// agent may carry.  Keeping every component inside this bound is what lets
/// all squared-distance and steering arithmetic stay inside `i64`/`i128`.
pub const MAX_COORD: i64 = 0x10_0000;

/// Largest population the per-tick accumulators are sized for.
pub const MAX_AGENTS: usize = 4096;

/// Every steering delta the engine emits has both components inside this
/// bound, which is what lets the integrator square speeds without overflow.
pub const DV_LIMIT: i64 = 0x800_0000;

} // verus!
