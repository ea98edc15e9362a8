//! Agents and the per-tick velocity-delta records that flow between the
//! steering engine and the integrator.

use vstd::prelude::*;
use crate::vec2::Vec2I;
use crate::MAX_COORD;

verus! {

/// A simulated agent ("boid"): a point with a position and a velocity.
/// Agents are identified by their index in the population vector; they are
/// created once at startup and never destroyed.  The facing orientation is
/// not stored: it is derived from the velocity direction each tick (the
/// conversion to an angle is left to the presentation layer).
#[derive(Clone, Copy, PartialEq, Eq, Structural, Debug)]
pub struct Agent {
    pub pos: Vec2I,
    pub vel: Vec2I,
}

impl Agent {
    /// Every component of a well-formed agent stays inside `MAX_COORD`, which
    /// keeps all per-tick arithmetic inside machine integers.
    pub open spec fn wf(self) -> bool {
        self.pos@.abs_le(MAX_COORD as int) && self.vel@.abs_le(MAX_COORD as int)
    }

    pub fn new(pos: Vec2I, vel: Vec2I) -> (r: Agent)
        requires
            pos@.abs_le(MAX_COORD as int),
            vel@.abs_le(MAX_COORD as int),
        ensures
            r == (Agent { pos, vel }),
            r.wf(),
    {
        Agent { pos, vel }
    }

    /// The direction the agent faces, derived from its velocity.  A zero
    /// vector means the agent has no heading yet.
    pub fn heading(&self) -> (r: Vec2I)
        ensures
            r == self.vel,
    {
        self.vel
    }
}

/// Every agent of the population is well-formed.
pub open spec fn all_wf(agents: Seq<Agent>) -> bool {
    forall|i: int| 0 <= i < agents.len() ==> agents[i].wf()
}

/// A computed change of velocity for one agent and one tick: produced by the
/// steering engine, consumed exactly once by the integrator.
#[derive(Clone, Copy, PartialEq, Eq, Structural, Debug)]
pub struct Delta {
    pub id: usize,
    pub dv: Vec2I,
}

} // verus!
