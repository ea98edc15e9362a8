//! Integrator: apply each agent's velocity delta, steer back toward the
//! visible region, clamp speed into the configured band, optionally decay,
//! and advance the position.  The only phase that mutates agent state.

use vstd::prelude::*;
use crate::agent::{all_wf, Agent, Delta};
use crate::config::Config;
use crate::math::{
    div_trunc, div_trunc_i64, isqrt, lemma_abs_le_of_sq_le, lemma_abs_lt_of_sq_lt,
    lemma_abs_mul_bound, lemma_div_trunc_bound, lemma_scaled_bound, lemma_square_nonneg,
    mul_div, sqrt_floor,
};
use crate::vec2::{Vec2I, V2};
use crate::{DV_LIMIT, MAX_COORD};

verus! {

/// Soft boundary steering: on each axis where the position lies outside the
/// visible region's half-extent, nudge the velocity by the turn factor back
/// toward the interior.  A steer, not a clamp or a bounce.
pub open spec fn steer_back(v: V2, pos: V2, cfg: Config) -> V2 {
    let x = if pos.x < -cfg.bound_x {
        v.x + cfg.turn_factor
    } else if pos.x > cfg.bound_x {
        v.x - cfg.turn_factor
    } else {
        v.x
    };
    let y = if pos.y < -cfg.bound_y {
        v.y + cfg.turn_factor
    } else if pos.y > cfg.bound_y {
        v.y - cfg.turn_factor
    } else {
        v.y
    };
    V2 { x, y }
}

/// Clamp the speed into `[min, max]` by rescaling against the floor square
/// root of the squared speed.  A zero velocity is left exactly zero: an
/// agent with no direction is given none (the documented degenerate-case
/// policy; rescaling it would divide by zero).
pub open spec fn clamp_speed(v: V2, min: int, max: int) -> V2 {
    let s2 = v.norm_sq();
    if s2 == 0 {
        v
    } else if s2 < min * min {
        let s = sqrt_floor(s2);
        V2 { x: div_trunc(v.x * min, s), y: div_trunc(v.y * min, s) }
    } else if s2 > max * max {
        let s = sqrt_floor(s2);
        V2 { x: div_trunc(v.x * max, s), y: div_trunc(v.y * max, s) }
    } else {
        v
    }
}

/// Saturate a coordinate at the world limit, so positions stay inside the
/// range the arithmetic is sized for.
pub open spec fn sat_coord(x: int) -> int {
    if x < -MAX_COORD {
        -MAX_COORD as int
    } else if x > MAX_COORD {
        MAX_COORD as int
    } else {
        x
    }
}

/// One integration step of one agent: velocity plus delta, boundary steer,
/// speed clamp, decay, then advance the position by the (per-tick) velocity.
/// Orientation is derived from the resulting velocity direction and is not
/// separate state.
pub open spec fn step_spec(a: Agent, dv: V2, cfg: Config) -> Agent {
    let v1 = a.vel@.plus(dv);
    let v2 = steer_back(v1, a.pos@, cfg);
    let v3 = clamp_speed(v2, cfg.min_speed as int, cfg.max_speed as int);
    let v4 = v3.scaled(cfg.decay.num as int, cfg.decay.den as int);
    Agent {
        vel: Vec2I { x: v4.x as i64, y: v4.y as i64 },
        pos: Vec2I {
            x: sat_coord(a.pos@.x + v4.x) as i64,
            y: sat_coord(a.pos@.y + v4.y) as i64,
        },
    }
}

/// Exec mirror of one integration step.  The result is well-formed again:
/// the clamp keeps both velocity components within `max_speed`, and the
/// saturating advance keeps the position inside `MAX_COORD`.
pub fn step(a: Agent, dv: Vec2I, cfg: &Config) -> (r: Agent)
    requires
        a.wf(),
        dv@.abs_le(DV_LIMIT as int),
        cfg.wf(),
    ensures
        r == step_spec(a, dv@, *cfg),
        r.wf(),
{
    let mut vx: i64 = a.vel.x + dv.x;
    let mut vy: i64 = a.vel.y + dv.y;

    if a.pos.x < -cfg.bound_x {
        vx = vx + cfg.turn_factor;
    } else if a.pos.x > cfg.bound_x {
        vx = vx - cfg.turn_factor;
    }
    if a.pos.y < -cfg.bound_y {
        vy = vy + cfg.turn_factor;
    } else if a.pos.y > cfg.bound_y {
        vy = vy - cfg.turn_factor;
    }
    proof {
        lemma_abs_mul_bound(vx as int, vx as int, 0x1000_0000, 0x1000_0000);
        lemma_abs_mul_bound(vy as int, vy as int, 0x1000_0000, 0x1000_0000);
        lemma_square_nonneg(vx as int);
        lemma_square_nonneg(vy as int);
        lemma_abs_mul_bound(cfg.min_speed as int, cfg.min_speed as int, MAX_COORD as int, MAX_COORD as int);
        lemma_abs_mul_bound(cfg.max_speed as int, cfg.max_speed as int, MAX_COORD as int, MAX_COORD as int);
    }
    let s2: i64 = vx * vx + vy * vy;
    let min2: i64 = cfg.min_speed * cfg.min_speed;
    let max2: i64 = cfg.max_speed * cfg.max_speed;
    if s2 == 0 {
        proof {
            assert(vx as int == 0 && vy as int == 0) by (nonlinear_arith)
                requires
                    vx as int * vx as int + vy as int * vy as int == 0,
            ;
        }
        // no direction: the velocity stays exactly zero
    } else if s2 < min2 {
        let s64: u64 = isqrt(s2 as u64);
        proof {
            lemma_rescale_bounds(vx as int, vy as int, s2 as int, s64 as int, cfg.min_speed as int);
        }
        let s: i64 = s64 as i64;
        vx = div_trunc_i64(vx * cfg.min_speed, s);
        vy = div_trunc_i64(vy * cfg.min_speed, s);
    } else if s2 > max2 {
        let s64: u64 = isqrt(s2 as u64);
        proof {
            lemma_rescale_bounds(vx as int, vy as int, s2 as int, s64 as int, cfg.max_speed as int);
        }
        let s: i64 = s64 as i64;
        vx = div_trunc_i64(vx * cfg.max_speed, s);
        vy = div_trunc_i64(vy * cfg.max_speed, s);
    } else {
        proof {
            lemma_abs_le_of_sq_le(vx as int, cfg.max_speed as int);
            lemma_abs_le_of_sq_le(vy as int, cfg.max_speed as int);
        }
    }
    proof {
        lemma_abs_mul_bound(vx as int, cfg.decay.num as int, MAX_COORD as int, crate::config::WEIGHT_NUM_MAX as int);
        lemma_abs_mul_bound(vy as int, cfg.decay.num as int, MAX_COORD as int, crate::config::WEIGHT_NUM_MAX as int);
        lemma_scaled_bound(vx as int, cfg.decay.num as int, cfg.decay.den as int, MAX_COORD as int, 1);
        lemma_scaled_bound(vy as int, cfg.decay.num as int, cfg.decay.den as int, MAX_COORD as int, 1);
    }
    vx = mul_div(vx, cfg.decay.num, cfg.decay.den);
    vy = mul_div(vy, cfg.decay.num, cfg.decay.den);

    let px: i64 = sat_add(a.pos.x, vx);
    let py: i64 = sat_add(a.pos.y, vy);
    Agent { pos: Vec2I { x: px, y: py }, vel: Vec2I { x: vx, y: vy } }
}

/// Magnitude facts needed to rescale a nonzero velocity against the floor
/// square root of its squared speed: the root is positive, each component's
/// magnitude is at most the root, and the rescaled components stay within
/// the target speed.
proof fn lemma_rescale_bounds(vx: int, vy: int, s2: int, s: int, m: int)
    requires
        s2 == vx * vx + vy * vy,
        1 <= s2,
        s == sqrt_floor(s2),
        0 <= m <= MAX_COORD,
        -0x1000_0000 <= vx <= 0x1000_0000,
        -0x1000_0000 <= vy <= 0x1000_0000,
    ensures
        1 <= s,
        s <= 0x4000_0000,
        -s <= vx <= s,
        -s <= vy <= s,
        -(0x1000_0000 * MAX_COORD as int) <= vx * m <= 0x1000_0000 * MAX_COORD as int,
        -(0x1000_0000 * MAX_COORD as int) <= vy * m <= 0x1000_0000 * MAX_COORD as int,
        -m <= div_trunc(vx * m, s) <= m,
        -m <= div_trunc(vy * m, s) <= m,
{
    crate::math::lemma_sqrt_floor(s2);
    lemma_square_nonneg(vx);
    lemma_square_nonneg(vy);
    lemma_abs_mul_bound(vx, vx, 0x1000_0000, 0x1000_0000);
    lemma_abs_mul_bound(vy, vy, 0x1000_0000, 0x1000_0000);
    assert(1 <= s);
    lemma_abs_le_of_sq_le(s, 0x4000_0000);
    lemma_abs_lt_of_sq_lt(vx, s + 1);
    lemma_abs_lt_of_sq_lt(vy, s + 1);
    lemma_abs_mul_bound(vx, m, 0x1000_0000, MAX_COORD as int);
    lemma_abs_mul_bound(vy, m, 0x1000_0000, MAX_COORD as int);
    lemma_abs_mul_bound(vx, m, s, m);
    lemma_abs_mul_bound(vy, m, s, m);
    assert(s * m == m * s) by (nonlinear_arith);
    lemma_div_trunc_bound(vx * m, s, m);
    lemma_div_trunc_bound(vy * m, s, m);
}

/// Speed-band law for the clamp itself: a velocity already inside the band
/// (or exactly zero) is untouched; one above it comes back to within
/// `max² + 2·max` squared; a nonzero one below it is raised to at least
/// `min² - 4·min` squared and at most `3·min²`.  The slack around the exact
/// band is fixed-point rounding: the rescale divides by the floor square
/// root of the squared speed, which for speeds of a few units or more is a
/// relative error of a few percent at worst.
pub proof fn lemma_clamp_speed_band(v: V2, min: int, max: int)
    requires
        0 <= min <= max <= MAX_COORD,
        v.abs_le(0x1000_0000),
    ensures
        v.norm_sq() == 0 ==> clamp_speed(v, min, max) == v,
        min * min <= v.norm_sq() <= max * max ==> clamp_speed(v, min, max) == v,
        v.norm_sq() > max * max ==> clamp_speed(v, min, max).norm_sq() <= max * max + 2 * max,
        0 < v.norm_sq() && v.norm_sq() < min * min ==> min * min - 4 * min <= clamp_speed(
            v,
            min,
            max,
        ).norm_sq() <= 3 * (min * min),
{
    let s2 = v.norm_sq();
    lemma_square_nonneg(v.x);
    lemma_square_nonneg(v.y);
    assert(min * min <= max * max) by (nonlinear_arith)
        requires
            0 <= min <= max,
    ;
    if s2 == 0 {
    } else if s2 < min * min {
        let s = sqrt_floor(s2);
        crate::math::lemma_sqrt_floor(s2);
        lemma_sqrt_pos(s2, s);
        lemma_abs_lt_of_sq_lt(s, min);
        lemma_abs_lt_of_sq_lt(v.x, s + 1);
        lemma_abs_lt_of_sq_lt(v.y, s + 1);
        let qx = div_trunc(v.x * min, s);
        let qy = div_trunc(v.y * min, s);
        crate::math::lemma_div_sq_le(v.x * min, s, qx);
        crate::math::lemma_div_sq_le(v.y * min, s, qy);
        crate::math::lemma_div_sq_ge(v.x * min, s, qx);
        crate::math::lemma_div_sq_ge(v.y * min, s, qy);
        lemma_band_raise(v.x, v.y, s, min, qx, qy);
        assert(clamp_speed(v, min, max) == (V2 { x: qx, y: qy }));
    } else if s2 > max * max {
        let s = sqrt_floor(s2);
        crate::math::lemma_sqrt_floor(s2);
        lemma_sqrt_pos(s2, s);
        lemma_abs_lt_of_sq_lt(max, s + 1);
        let qx = div_trunc(v.x * max, s);
        let qy = div_trunc(v.y * max, s);
        crate::math::lemma_div_sq_le(v.x * max, s, qx);
        crate::math::lemma_div_sq_le(v.y * max, s, qy);
        lemma_band_lower(v.x, v.y, s, max, qx, qy);
        assert(clamp_speed(v, min, max) == (V2 { x: qx, y: qy }));
    } else {
    }
}

/// The floor square root of a positive number is positive.
proof fn lemma_sqrt_pos(s2: int, s: int)
    by (nonlinear_arith)
    requires
        1 <= s2,
        0 <= s,
        s * s <= s2,
        s2 < (s + 1) * (s + 1),
    ensures
        1 <= s,
{
}

/// Rescaling down against the floor square root overshoots the target
/// squared speed `m²` by at most `2·m`.
proof fn lemma_band_lower(vx: int, vy: int, s: int, m: int, qx: int, qy: int)
    requires
        1 <= s,
        m <= s,
        0 <= m,
        vx * vx + vy * vy < (s + 1) * (s + 1),
        qx * qx * (s * s) <= (vx * m) * (vx * m),
        qy * qy * (s * s) <= (vy * m) * (vy * m),
    ensures
        qx * qx + qy * qy <= m * m + 2 * m,
{
    let w = qx * qx + qy * qy;
    let s2 = vx * vx + vy * vy;
    assert(w * (s * s) <= s2 * (m * m)) by (nonlinear_arith)
        requires
            qx * qx * (s * s) <= (vx * m) * (vx * m),
            qy * qy * (s * s) <= (vy * m) * (vy * m),
            w == qx * qx + qy * qy,
            s2 == vx * vx + vy * vy,
    ;
    assert(s2 * (m * m) <= (s * s) * (m * m) + 2 * s * (m * m)) by (nonlinear_arith)
        requires
            s2 < (s + 1) * (s + 1),
            0 <= m,
    ;
    assert(2 * s * (m * m) <= 2 * (s * s) * m) by (nonlinear_arith)
        requires
            m <= s,
            0 <= m,
            1 <= s,
    ;
    assert(w <= m * m + 2 * m) by (nonlinear_arith)
        requires
            w * (s * s) <= (s * s) * (m * m) + 2 * (s * s) * m,
            1 <= s,
    ;
}

/// Rescaling up against the floor square root lands between `m² - 4·m` and
/// `3·m²`.
proof fn lemma_band_raise(vx: int, vy: int, s: int, m: int, qx: int, qy: int)
    requires
        1 <= s,
        s < m,
        -s <= vx <= s,
        -s <= vy <= s,
        s * s <= vx * vx + vy * vy,
        vx * vx + vy * vy < (s + 1) * (s + 1),
        qx * qx * (s * s) <= (vx * m) * (vx * m),
        qy * qy * (s * s) <= (vy * m) * (vy * m),
        (vx * m) * (vx * m) - 2 * (s - 1) * (if vx * m >= 0 {
            vx * m
        } else {
            -(vx * m)
        }) <= qx * qx * (s * s),
        (vy * m) * (vy * m) - 2 * (s - 1) * (if vy * m >= 0 {
            vy * m
        } else {
            -(vy * m)
        }) <= qy * qy * (s * s),
    ensures
        m * m - 4 * m <= qx * qx + qy * qy <= 3 * (m * m),
{
    let w = qx * qx + qy * qy;
    let s2 = vx * vx + vy * vy;
    let axm: int = if vx * m >= 0 { vx * m } else { -(vx * m) };
    let aym: int = if vy * m >= 0 { vy * m } else { -(vy * m) };
    assert(0 <= axm <= s * m) by (nonlinear_arith)
        requires
            -s <= vx <= s,
            0 <= m,
            axm == (if vx * m >= 0 { vx * m } else { -(vx * m) }),
    ;
    assert(0 <= aym <= s * m) by (nonlinear_arith)
        requires
            -s <= vy <= s,
            0 <= m,
            aym == (if vy * m >= 0 { vy * m } else { -(vy * m) }),
    ;
    assert((vx * m) * (vx * m) + (vy * m) * (vy * m) == s2 * (m * m)) by (nonlinear_arith)
        requires
            s2 == vx * vx + vy * vy,
    ;
    assert(qx * qx * (s * s) + qy * qy * (s * s) == w * (s * s)) by (nonlinear_arith)
        requires
            w == qx * qx + qy * qy,
    ;
    assert(2 * (s - 1) * axm <= 2 * (s - 1) * (s * m)) by (nonlinear_arith)
        requires
            0 <= axm <= s * m,
            1 <= s,
    ;
    assert(2 * (s - 1) * aym <= 2 * (s - 1) * (s * m)) by (nonlinear_arith)
        requires
            0 <= aym <= s * m,
            1 <= s,
    ;
    assert(s2 * (m * m) - 4 * (s - 1) * (s * m) <= w * (s * s)) by (nonlinear_arith)
        requires
            (vx * m) * (vx * m) - 2 * (s - 1) * axm <= qx * qx * (s * s),
            (vy * m) * (vy * m) - 2 * (s - 1) * aym <= qy * qy * (s * s),
            2 * (s - 1) * axm <= 2 * (s - 1) * (s * m),
            2 * (s - 1) * aym <= 2 * (s - 1) * (s * m),
            (vx * m) * (vx * m) + (vy * m) * (vy * m) == s2 * (m * m),
            qx * qx * (s * s) + qy * qy * (s * s) == w * (s * s),
    ;
    assert((s * s) * (m * m) - 4 * (s * s) * m <= s2 * (m * m) - 4 * (s - 1) * (s * m))
        by (nonlinear_arith)
        requires
            s * s <= s2,
            1 <= s,
            0 <= m,
    ;
    assert(m * m - 4 * m <= w) by (nonlinear_arith)
        requires
            (s * s) * (m * m) - 4 * (s * s) * m <= w * (s * s),
            1 <= s,
            w == qx * qx + qy * qy,
            0 <= m,
    ;
    assert(w * (s * s) <= s2 * (m * m)) by (nonlinear_arith)
        requires
            qx * qx * (s * s) <= (vx * m) * (vx * m),
            qy * qy * (s * s) <= (vy * m) * (vy * m),
            w == qx * qx + qy * qy,
            s2 == vx * vx + vy * vy,
    ;
    assert(s2 * (m * m) <= 3 * (s * s) * (m * m)) by (nonlinear_arith)
        requires
            s2 < (s + 1) * (s + 1),
            1 <= s,
            0 <= m,
    ;
    assert(w <= 3 * (m * m)) by (nonlinear_arith)
        requires
            w * (s * s) <= 3 * (s * s) * (m * m),
            1 <= s,
    ;
}

/// Speed-band law for a whole integration step (the first testable
/// invariant of the simulation): with no decay configured, the velocity a
/// step leaves behind obeys the band of `lemma_clamp_speed_band` relative
/// to the steered velocity it clamped — in particular an agent whose
/// steered velocity was zero keeps exactly zero (the documented
/// degenerate-direction policy), and every other agent ends within the
/// rounding tolerance of `[min_speed, max_speed]`.
pub proof fn lemma_step_speed_band(a: Agent, dv: V2, cfg: Config)
    requires
        a.wf(),
        dv.abs_le(DV_LIMIT as int),
        cfg.wf(),
        cfg.decay.num == cfg.decay.den,
    ensures
        ({
            let w = step_spec(a, dv, cfg).vel@;
            let v2 = steer_back(a.vel@.plus(dv), a.pos@, cfg);
            let s2 = v2.norm_sq();
            let min = cfg.min_speed as int;
            let max = cfg.max_speed as int;
            &&& (s2 == 0 ==> w == v2)
            &&& (min * min <= s2 <= max * max ==> w == v2)
            &&& (s2 > max * max ==> w.norm_sq() <= max * max + 2 * max)
            &&& (0 < s2 && s2 < min * min ==> min * min - 4 * min <= w.norm_sq() <= 3 * (min
                * min))
        }),
{
    let v2 = steer_back(a.vel@.plus(dv), a.pos@, cfg);
    let min = cfg.min_speed as int;
    let max = cfg.max_speed as int;
    let v3 = clamp_speed(v2, min, max);
    lemma_clamp_speed_band(v2, min, max);
    crate::math::lemma_div_trunc_exact(v3.x, cfg.decay.num as int);
    crate::math::lemma_div_trunc_exact(v3.y, cfg.decay.num as int);
    assert(v3.scaled(cfg.decay.num as int, cfg.decay.den as int) == v3);
    let s2 = v2.norm_sq();
    if s2 != 0 && !(min * min <= s2 <= max * max) {
        lemma_square_nonneg(v2.x);
        lemma_square_nonneg(v2.y);
        let s = sqrt_floor(s2);
        crate::math::lemma_sqrt_floor(s2);
        lemma_rescale_bounds(v2.x, v2.y, s2, s, if s2 < min * min { min } else { max });
    }
}

/// Advance one coordinate, saturating at the world limit.
fn sat_add(x: i64, d: i64) -> (r: i64)
    requires
        -MAX_COORD <= x <= MAX_COORD,
        -MAX_COORD <= d <= MAX_COORD,
    ensures
        r == sat_coord(x as int + d as int),
        -MAX_COORD <= r <= MAX_COORD,
{
    let n: i64 = x + d;
    if n < -MAX_COORD {
        -MAX_COORD
    } else if n > MAX_COORD {
        MAX_COORD
    } else {
        n
    }
}

/// Apply one tick's delta records to the population: record `k` belongs to
/// agent `k` and is consumed exactly once.  This is the only phase that
/// mutates agent state.
pub fn integrate(agents: &mut Vec<Agent>, deltas: &Vec<Delta>, cfg: &Config)
    requires
        cfg.wf(),
        all_wf(old(agents)@),
        deltas@.len() == old(agents)@.len(),
        forall|k: int| 0 <= k < deltas@.len()
            ==> (#[trigger] deltas@[k]).id == k && deltas@[k].dv@.abs_le(DV_LIMIT as int),
    ensures
        final(agents)@.len() == old(agents)@.len(),
        forall|k: int| 0 <= k < old(agents)@.len()
            ==> final(agents)@[k] == step_spec(old(agents)@[k], (#[trigger] deltas@[k]).dv@, *cfg),
        all_wf(final(agents)@),
{
    let mut out: Vec<Agent> = Vec::new();
    let mut k: usize = 0;
    while k < agents.len()
        invariant
            cfg.wf(),
            all_wf(agents@),
            deltas@.len() == agents@.len(),
            forall|j: int| 0 <= j < deltas@.len()
                ==> (#[trigger] deltas@[j]).id == j && deltas@[j].dv@.abs_le(DV_LIMIT as int),
            k <= agents@.len(),
            out@.len() == k,
            forall|j: int| 0 <= j < k
                ==> out@[j] == step_spec(agents@[j], (#[trigger] deltas@[j]).dv@, *cfg)
                    && out@[j].wf(),
        decreases agents@.len() - k,
    {
        out.push(step(agents[k], deltas[k].dv, cfg));
        k = k + 1;
    }
    proof {
        assert forall|j: int| 0 <= j < out@.len() implies (#[trigger] out@[j]).wf() by {
            assert(out@[j] == step_spec(agents@[j], deltas@[j].dv@, *cfg) && out@[j].wf());
        }
    }
    *agents = out;
}

} // verus!
