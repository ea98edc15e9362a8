//! Simulation configuration: radii, field of view, rule weights, speed
//! bounds, boundary behaviour — fixed for the whole run and validated once
//! at startup.

use vstd::prelude::*;
use crate::MAX_COORD;

verus! {

/// Fixed-point "1.0" for cosines: `cos_half_fov` is the cosine of half the
/// field-of-view angle, scaled by this constant.
pub const FOV_ONE: i64 = 0x1_0000;

/// Largest numerator a rule weight may carry.
pub const WEIGHT_NUM_MAX: i64 = 0x10_0000;

/// Largest denominator a rule weight may carry.
pub const WEIGHT_DEN_MAX: i64 = 0x1_0000_0000;

/// Largest value of a rule weight as a ratio (`num <= WEIGHT_RATIO_MAX * den`).
pub const WEIGHT_RATIO_MAX: i64 = 16;

/// A non-negative rational weight `num / den`, applied by multiplying and
/// then dividing with truncation.
#[derive(Clone, Copy, PartialEq, Eq, Structural, Debug)]
pub struct Weight {
    pub num: i64,
    pub den: i64,
}

impl Weight {
    /// The bounds keep every scaled steering term inside machine integers:
    /// a weight is at most `WEIGHT_RATIO_MAX` as a ratio.
    pub open spec fn wf(self) -> bool {
        &&& 0 <= self.num <= WEIGHT_NUM_MAX
        &&& 1 <= self.den <= WEIGHT_DEN_MAX
        &&& self.num <= WEIGHT_RATIO_MAX * self.den
    }

    pub fn new(num: i64, den: i64) -> (r: Weight)
        ensures
            r == (Weight { num, den }),
    {
        Weight { num, den }
    }
}

/// How the evaluation narrows each agent's candidate neighbors: by the
/// vision radius alone, or by the `k` nearest indexed points (capping
/// per-agent work when agent density is very high).  The vision-radius and
/// field-of-view cuts apply in either mode.
#[derive(Clone, Copy, PartialEq, Eq, Structural, Debug)]
pub enum NeighborMode {
    Radius,
    KNearest(usize),
}

/// Why a configuration was rejected.
#[derive(Clone, Copy, PartialEq, Eq, Structural, Debug)]
pub enum ConfigError {
    /// `vis_range` is negative or above `MAX_COORD`.
    VisionRange,
    /// `prot_range` is negative or above `MAX_COORD`.
    ProtectedRange,
    /// `cos_half_fov` lies outside `[-FOV_ONE, FOV_ONE]`.
    FovCosine,
    /// `center_weight` is out of bounds.
    CenterWeight,
    /// `matching_weight` is out of bounds.
    MatchingWeight,
    /// `avoid_weight` is out of bounds.
    AvoidWeight,
    /// `seek_weight` is out of bounds.
    SeekWeight,
    /// `decay` is out of bounds or above one.
    DecayFactor,
    /// `turn_factor` is negative or above `MAX_COORD`.
    TurnFactor,
    /// `min_speed` is negative, `max_speed` above `MAX_COORD`, or
    /// `min_speed > max_speed`.
    SpeedRange,
    /// A world half-extent is negative or above `MAX_COORD`.
    Bounds,
}

/// Read-only simulation configuration.
#[derive(Clone, Copy, PartialEq, Eq, Structural, Debug)]
pub struct Config {
    /// Vision radius: farther neighbors are not perceived at all.
    pub vis_range: i64,
    /// Protected radius: closer neighbors trigger separation.
    pub prot_range: i64,
    /// Whether the field-of-view cone is applied at all.
    pub fov_enabled: bool,
    /// Cosine of half the field-of-view angle, scaled by `FOV_ONE`.
    pub cos_half_fov: i64,
    /// Cohesion weight (pull toward the average neighbor position).
    pub center_weight: Weight,
    /// Alignment weight (pull toward the average neighbor velocity).
    pub matching_weight: Weight,
    /// Separation weight (push away from too-close neighbors).
    pub avoid_weight: Weight,
    /// Goal-seek weight (pull toward an optional target point).
    pub seek_weight: Weight,
    /// Per-axis velocity nudge applied outside the world bounds.
    pub turn_factor: i64,
    /// Lower speed bound enforced by the integrator.
    pub min_speed: i64,
    /// Upper speed bound enforced by the integrator.
    pub max_speed: i64,
    /// Uniform multiplicative velocity decay (one for no decay).
    pub decay: Weight,
    /// Half-extent of the visible region along x.
    pub bound_x: i64,
    /// Half-extent of the visible region along y.
    pub bound_y: i64,
    /// How candidate neighbors are selected from the spatial index.
    pub neighbor_mode: NeighborMode,
}

impl Config {
    pub open spec fn wf(self) -> bool {
        &&& 0 <= self.vis_range <= MAX_COORD
        &&& 0 <= self.prot_range <= MAX_COORD
        &&& -FOV_ONE <= self.cos_half_fov <= FOV_ONE
        &&& self.center_weight.wf()
        &&& self.matching_weight.wf()
        &&& self.avoid_weight.wf()
        &&& self.seek_weight.wf()
        &&& self.decay.wf()
        &&& self.decay.num <= self.decay.den
        &&& 0 <= self.turn_factor <= MAX_COORD
        &&& 0 <= self.min_speed
        &&& self.min_speed <= self.max_speed
        &&& self.max_speed <= MAX_COORD
        &&& 0 <= self.bound_x <= MAX_COORD
        &&& 0 <= self.bound_y <= MAX_COORD
    }

    /// The exact outcome of validation: the first field out of bounds, in
    /// declaration order, decides the error.
    pub open spec fn validate_spec(self) -> Result<(), ConfigError> {
        if !(0 <= self.vis_range <= MAX_COORD) {
            Err(ConfigError::VisionRange)
        } else if !(0 <= self.prot_range <= MAX_COORD) {
            Err(ConfigError::ProtectedRange)
        } else if !(-FOV_ONE <= self.cos_half_fov <= FOV_ONE) {
            Err(ConfigError::FovCosine)
        } else if !self.center_weight.wf() {
            Err(ConfigError::CenterWeight)
        } else if !self.matching_weight.wf() {
            Err(ConfigError::MatchingWeight)
        } else if !self.avoid_weight.wf() {
            Err(ConfigError::AvoidWeight)
        } else if !self.seek_weight.wf() {
            Err(ConfigError::SeekWeight)
        } else if !(self.decay.wf() && self.decay.num <= self.decay.den) {
            Err(ConfigError::DecayFactor)
        } else if !(0 <= self.turn_factor <= MAX_COORD) {
            Err(ConfigError::TurnFactor)
        } else if !(0 <= self.min_speed && self.min_speed <= self.max_speed
            && self.max_speed <= MAX_COORD) {
            Err(ConfigError::SpeedRange)
        } else if !(0 <= self.bound_x <= MAX_COORD && 0 <= self.bound_y <= MAX_COORD) {
            Err(ConfigError::Bounds)
        } else {
            Ok(())
        }
    }

    /// Validate the configuration once at startup.  Returns `Ok` exactly on
    /// well-formed configurations; a run never starts from a rejected one.
    pub fn validate(&self) -> (r: Result<(), ConfigError>)
        ensures
            r == self.validate_spec(),
            r is Ok <==> self.wf(),
    {
        if !(0 <= self.vis_range && self.vis_range <= MAX_COORD) {
            Err(ConfigError::VisionRange)
        } else if !(0 <= self.prot_range && self.prot_range <= MAX_COORD) {
            Err(ConfigError::ProtectedRange)
        } else if !(-FOV_ONE <= self.cos_half_fov && self.cos_half_fov <= FOV_ONE) {
            Err(ConfigError::FovCosine)
        } else if !weight_ok(&self.center_weight) {
            Err(ConfigError::CenterWeight)
        } else if !weight_ok(&self.matching_weight) {
            Err(ConfigError::MatchingWeight)
        } else if !weight_ok(&self.avoid_weight) {
            Err(ConfigError::AvoidWeight)
        } else if !weight_ok(&self.seek_weight) {
            Err(ConfigError::SeekWeight)
        } else if !(weight_ok(&self.decay) && self.decay.num <= self.decay.den) {
            Err(ConfigError::DecayFactor)
        } else if !(0 <= self.turn_factor && self.turn_factor <= MAX_COORD) {
            Err(ConfigError::TurnFactor)
        } else if !(0 <= self.min_speed && self.min_speed <= self.max_speed
            && self.max_speed <= MAX_COORD) {
            Err(ConfigError::SpeedRange)
        } else if !(0 <= self.bound_x && self.bound_x <= MAX_COORD
            && 0 <= self.bound_y && self.bound_y <= MAX_COORD) {
            Err(ConfigError::Bounds)
        } else {
            Ok(())
        }
    }
}

/// Exec mirror of `Weight::wf`.
fn weight_ok(w: &Weight) -> (r: bool)
    ensures
        r == w.wf(),
{
    0 <= w.num && w.num <= WEIGHT_NUM_MAX && 1 <= w.den && w.den <= WEIGHT_DEN_MAX
        && w.num <= WEIGHT_RATIO_MAX * w.den
}

} // verus!
