//! Steering rule engine: from one agent and its candidate neighbors to a
//! single velocity delta, blending separation, cohesion, alignment and an
//! optional goal-seek pull.

use vstd::prelude::*;
use crate::agent::{all_wf, Agent};
use crate::config::{Config, Weight, FOV_ONE, WEIGHT_RATIO_MAX};
use crate::math::{
    div_trunc_i64, lemma_abs_le_of_sq_le, lemma_abs_lt_of_sq_lt, lemma_abs_mul_bound,
    lemma_div_trunc_bound, lemma_scaled_bound, lemma_square_nonneg, mul_div,
};
use crate::vec2::{dist_sq, Vec2I, V2};
use crate::{DV_LIMIT, MAX_AGENTS, MAX_COORD};

verus! {

/// Is the neighbor reached by going along `t` from the agent inside the
/// field-of-view cone of an agent heading along `h`?  `c` is the cosine of
/// half the field-of-view angle, scaled by `FOV_ONE`.  The comparison
/// `cos(angle) >= c` is carried out on squares so that no square root or
/// trigonometry is needed; an agent without a heading, or a neighbor at the
/// agent's exact position, is never excluded.
pub open spec fn in_fov(h: V2, t: V2, c: int) -> bool {
    let dot = h.dot(t);
    let h2 = h.norm_sq();
    let t2 = t.norm_sq();
    if h2 == 0 || t2 == 0 {
        true
    } else if c >= 0 {
        dot >= 0 && dot * dot * FOV_ONE * FOV_ONE >= c * c * h2 * t2
    } else {
        dot >= 0 || dot * dot * FOV_ONE * FOV_ONE <= c * c * h2 * t2
    }
}

/// Per-neighbor accumulators of one steering evaluation.
pub ghost struct Accum {
    /// Sum of vectors pointing away from too-close neighbors (separation).
    pub away: V2,
    /// Sum of relative positions of far neighbors (cohesion).
    pub pos_sum: V2,
    /// Sum of velocities of far neighbors (alignment).
    pub vel_sum: V2,
    /// How many neighbors fell inside the protected range.
    pub close: int,
    /// How many visible neighbors fell outside it.
    pub far: int,
}

impl Accum {
    pub open spec fn init() -> Accum {
        Accum {
            away: V2::zero(),
            pos_sum: V2::zero(),
            vel_sum: V2::zero(),
            close: 0,
            far: 0,
        }
    }
}

/// How one candidate neighbor changes the accumulators of agent `i`.  The
/// agent itself, an identity that does not resolve to a live agent (a stale
/// index entry — skipped silently, by design), a neighbor out of vision
/// range, and a neighbor outside the field of view all contribute nothing.
pub open spec fn accum_step(agents: Seq<Agent>, i: int, cand: usize, cfg: Config, acc: Accum) -> Accum {
    if cand == i || cand >= agents.len() {
        acc
    } else {
        let t = agents[cand as int].pos@.minus(agents[i].pos@);
        let d2 = t.norm_sq();
        if d2 > cfg.vis_range * cfg.vis_range {
            acc
        } else if cfg.fov_enabled && !in_fov(agents[i].vel@, t, cfg.cos_half_fov as int) {
            acc
        } else if d2 < cfg.prot_range * cfg.prot_range {
            Accum { away: acc.away.minus(t), close: acc.close + 1, ..acc }
        } else {
            Accum {
                pos_sum: acc.pos_sum.plus(t),
                vel_sum: acc.vel_sum.plus(agents[cand as int].vel@),
                far: acc.far + 1,
                ..acc
            }
        }
    }
}

/// Accumulators after scanning a whole candidate list, left to right.
pub open spec fn accum_seq(agents: Seq<Agent>, i: int, cands: Seq<usize>, cfg: Config) -> Accum
    decreases cands.len(),
{
    if cands.len() == 0 {
        Accum::init()
    } else {
        accum_step(agents, i, cands.last(), cfg, accum_seq(agents, i, cands.drop_last(), cfg))
    }
}

/// The velocity delta assembled from finished accumulators: averaged
/// cohesion and alignment pulls when any far neighbor was seen, an averaged
/// separation push when any close neighbor was, and a goal-seek pull when a
/// target is present.  Every average divides only when its counter is
/// positive.
pub open spec fn delta_of(acc: Accum, pos_i: V2, cfg: Config, target: Option<Vec2I>) -> V2 {
    let s0 = V2::zero();
    let s1 = if acc.far > 0 {
        s0.plus(
            acc.pos_sum.div_by(acc.far).scaled(
                cfg.center_weight.num as int,
                cfg.center_weight.den as int,
            ),
        ).plus(
            acc.vel_sum.div_by(acc.far).scaled(
                cfg.matching_weight.num as int,
                cfg.matching_weight.den as int,
            ),
        )
    } else {
        s0
    };
    let s2 = if acc.close > 0 {
        s1.plus(
            acc.away.div_by(acc.close).scaled(
                cfg.avoid_weight.num as int,
                cfg.avoid_weight.den as int,
            ),
        )
    } else {
        s1
    };
    match target {
        Some(tp) => s2.plus(
            tp@.minus(pos_i).scaled(cfg.seek_weight.num as int, cfg.seek_weight.den as int),
        ),
        None => s2,
    }
}

/// The delta of agent `i` against a candidate list: the single value the
/// steering engine owes for this agent and tick.
pub open spec fn delta_value(
    agents: Seq<Agent>,
    i: int,
    cands: Seq<usize>,
    cfg: Config,
    target: Option<Vec2I>,
) -> V2 {
    delta_of(accum_seq(agents, i, cands, cfg), agents[i].pos@, cfg, target)
}

/// Exec mirror of `in_fov`.
fn in_fov_check(h: Vec2I, t: Vec2I, c: i64) -> (r: bool)
    requires
        h@.abs_le(2 * MAX_COORD as int),
        t@.abs_le(2 * MAX_COORD as int),
        -FOV_ONE <= c <= FOV_ONE,
    ensures
        r == in_fov(h@, t@, c as int),
{
    let hx: i128 = h.x as i128;
    let hy: i128 = h.y as i128;
    let tx: i128 = t.x as i128;
    let ty: i128 = t.y as i128;
    proof {
        lemma_abs_mul_bound(hx as int, tx as int, 0x20_0000, 0x20_0000);
        lemma_abs_mul_bound(hy as int, ty as int, 0x20_0000, 0x20_0000);
        lemma_abs_mul_bound(hx as int, hx as int, 0x20_0000, 0x20_0000);
        lemma_abs_mul_bound(hy as int, hy as int, 0x20_0000, 0x20_0000);
        lemma_abs_mul_bound(tx as int, tx as int, 0x20_0000, 0x20_0000);
        lemma_abs_mul_bound(ty as int, ty as int, 0x20_0000, 0x20_0000);
        lemma_square_nonneg(hx as int);
        lemma_square_nonneg(hy as int);
        lemma_square_nonneg(tx as int);
        lemma_square_nonneg(ty as int);
    }
    let dot: i128 = hx * tx + hy * ty;
    let h2: i128 = hx * hx + hy * hy;
    let t2: i128 = tx * tx + ty * ty;
    if h2 == 0 || t2 == 0 {
        true
    } else {
        proof {
            lemma_abs_mul_bound(dot as int, dot as int, 0x800_0000_0000, 0x800_0000_0000);
            lemma_abs_mul_bound(
                dot as int * dot as int,
                0x1_0000,
                0x40_0000_0000_0000_0000_0000,
                0x1_0000,
            );
            lemma_abs_mul_bound(
                dot as int * dot as int * 0x1_0000,
                0x1_0000,
                0x40_0000_0000_0000_0000_0000_0000,
                0x1_0000,
            );
            lemma_abs_mul_bound(c as int, c as int, 0x1_0000, 0x1_0000);
            lemma_abs_mul_bound(c as int * c as int, h2 as int, 0x1_0000_0000, 0x800_0000_0000);
            lemma_abs_mul_bound(
                c as int * c as int * h2 as int,
                t2 as int,
                0x8_0000_0000_0000_0000_0000,
                0x800_0000_0000,
            );
        }
        let lhs: i128 = dot * dot * (FOV_ONE as i128) * (FOV_ONE as i128);
        let rhs: i128 = (c as i128) * (c as i128) * h2 * t2;
        if c >= 0 {
            dot >= 0 && lhs >= rhs
        } else {
            dot >= 0 || lhs <= rhs
        }
    }
}

/// Average a sum over a positive neighbor count.
fn avg_of(sum: Vec2I, count: usize) -> (r: Vec2I)
    requires
        1 <= count <= MAX_AGENTS,
        sum@.abs_le(count * MAX_COORD as int),
    ensures
        r@ == sum@.div_by(count as int),
        r@.abs_le(MAX_COORD as int),
{
    proof {
        lemma_div_trunc_bound(sum@.x, count as int, MAX_COORD as int);
        lemma_div_trunc_bound(sum@.y, count as int, MAX_COORD as int);
    }
    Vec2I {
        x: div_trunc_i64(sum.x, count as i64),
        y: div_trunc_i64(sum.y, count as i64),
    }
}

/// Scale a bounded vector by a rule weight.
fn weighted_term(v: Vec2I, w: Weight) -> (r: Vec2I)
    requires
        v@.abs_le(2 * MAX_COORD as int),
        w.wf(),
    ensures
        r@ == v@.scaled(w.num as int, w.den as int),
        r@.abs_le(2 * WEIGHT_RATIO_MAX as int * MAX_COORD as int),
{
    proof {
        let b: int = 2 * MAX_COORD as int;
        lemma_abs_mul_bound(v@.x, w.num as int, b, crate::config::WEIGHT_NUM_MAX as int);
        lemma_abs_mul_bound(v@.y, w.num as int, b, crate::config::WEIGHT_NUM_MAX as int);
        lemma_scaled_bound(v@.x, w.num as int, w.den as int, b, WEIGHT_RATIO_MAX as int);
        lemma_scaled_bound(v@.y, w.num as int, w.den as int, b, WEIGHT_RATIO_MAX as int);
        assert(WEIGHT_RATIO_MAX as int * (2 * MAX_COORD as int)
            == 2 * WEIGHT_RATIO_MAX as int * MAX_COORD as int) by (nonlinear_arith);
    }
    Vec2I {
        x: mul_div(v.x, w.num, w.den),
        y: mul_div(v.y, w.num, w.den),
    }
}

/// Compute the velocity delta of agent `i` from the candidate neighbor
/// identities `cands` (normally the result of a spatial-index query).  A pure
/// function of the read-only snapshot: it mutates nothing, and identities
/// that are the agent itself or do not resolve to a live agent are skipped
/// silently.
pub fn compute_delta(
    agents: &Vec<Agent>,
    i: usize,
    cands: &Vec<usize>,
    cfg: &Config,
    target: Option<Vec2I>,
) -> (r: Vec2I)
    requires
        agents@.len() <= MAX_AGENTS,
        all_wf(agents@),
        i < agents@.len(),
        cands@.len() <= MAX_AGENTS,
        cfg.wf(),
        target matches Some(tp) ==> tp@.abs_le(MAX_COORD as int),
    ensures
        r@ == delta_value(agents@, i as int, cands@, *cfg, target),
        r@.abs_le(DV_LIMIT as int),
{
    let a_pos: Vec2I = agents[i].pos;
    let a_vel: Vec2I = agents[i].vel;
    proof {
        lemma_abs_mul_bound(cfg.vis_range as int, cfg.vis_range as int, MAX_COORD as int, MAX_COORD as int);
        lemma_abs_mul_bound(cfg.prot_range as int, cfg.prot_range as int, MAX_COORD as int, MAX_COORD as int);
    }
    let vr2: i64 = cfg.vis_range * cfg.vis_range;
    let pr2: i64 = cfg.prot_range * cfg.prot_range;

    let mut away: Vec2I = Vec2I::zero();
    let mut pos_sum: Vec2I = Vec2I::zero();
    let mut vel_sum: Vec2I = Vec2I::zero();
    let mut close: usize = 0;
    let mut far: usize = 0;
    let mut j: usize = 0;
    while j < cands.len()
        invariant
            agents@.len() <= MAX_AGENTS,
            all_wf(agents@),
            i < agents@.len(),
            cands@.len() <= MAX_AGENTS,
            cfg.wf(),
            a_pos == agents@[i as int].pos,
            a_vel == agents@[i as int].vel,
            vr2 == cfg.vis_range * cfg.vis_range,
            pr2 == cfg.prot_range * cfg.prot_range,
            j <= cands@.len(),
            close + far <= j,
            away@.abs_le(close * MAX_COORD as int),
            pos_sum@.abs_le(far * MAX_COORD as int),
            vel_sum@.abs_le(far * MAX_COORD as int),
            (Accum { away: away@, pos_sum: pos_sum@, vel_sum: vel_sum@, close: close as int, far: far as int })
                == accum_seq(agents@, i as int, cands@.subrange(0, j as int), *cfg),
        decreases cands@.len() - j,
    {
        let ghost prefix = cands@.subrange(0, j as int);
        let ghost prefix1 = cands@.subrange(0, j as int + 1);
        proof {
            assert(prefix1.drop_last() =~= prefix);
            assert(prefix1.last() == cands@[j as int]);
        }
        let cand: usize = cands[j];
        if cand != i && cand < agents.len() {
            let other: Agent = agents[cand];
            let t: Vec2I = other.pos.minus(a_pos);
            let d2: i64 = dist_sq(a_pos, other.pos);
            if d2 <= vr2 {
                let visible: bool = if cfg.fov_enabled {
                    in_fov_check(a_vel, t, cfg.cos_half_fov)
                } else {
                    true
                };
                if visible {
                    proof {
                        lemma_square_nonneg(t@.x);
                        lemma_square_nonneg(t@.y);
                    }
                    if d2 < pr2 {
                        proof {
                            lemma_abs_lt_of_sq_lt(t@.x, cfg.prot_range as int);
                            lemma_abs_lt_of_sq_lt(t@.y, cfg.prot_range as int);
                        }
                        away = away.minus(t);
                        close = close + 1;
                    } else {
                        proof {
                            lemma_abs_le_of_sq_le(t@.x, cfg.vis_range as int);
                            lemma_abs_le_of_sq_le(t@.y, cfg.vis_range as int);
                        }
                        pos_sum = pos_sum.plus(t);
                        vel_sum = vel_sum.plus(other.vel);
                        far = far + 1;
                    }
                }
            }
        }
        j = j + 1;
    }
    proof {
        assert(cands@.subrange(0, cands@.len() as int) =~= cands@);
    }

    let mut dv: Vec2I = Vec2I::zero();
    if far > 0 {
        let avg_p: Vec2I = avg_of(pos_sum, far);
        dv = dv.plus(weighted_term(avg_p, cfg.center_weight));
        let avg_v: Vec2I = avg_of(vel_sum, far);
        dv = dv.plus(weighted_term(avg_v, cfg.matching_weight));
    }
    if close > 0 {
        let avg_a: Vec2I = avg_of(away, close);
        dv = dv.plus(weighted_term(avg_a, cfg.avoid_weight));
    }
    if let Some(tp) = target {
        let to_target: Vec2I = tp.minus(a_pos);
        dv = dv.plus(weighted_term(to_target, cfg.seek_weight));
    }
    dv
}

/// The accumulators of any candidate scan stay within the bounds the
/// counters dictate: each close neighbor moves the away-sum by at most the
/// protected radius per axis, each far neighbor moves the position- and
/// velocity-sums by at most the vision radius and the coordinate bound.
pub proof fn lemma_accum_bounds(agents: Seq<Agent>, i: int, cands: Seq<usize>, cfg: Config)
    requires
        all_wf(agents),
        cfg.wf(),
        0 <= i < agents.len(),
    ensures
        ({
            let acc = accum_seq(agents, i, cands, cfg);
            &&& 0 <= acc.close
            &&& 0 <= acc.far
            &&& acc.close + acc.far <= cands.len()
            &&& acc.away.abs_le(acc.close * MAX_COORD as int)
            &&& acc.pos_sum.abs_le(acc.far * MAX_COORD as int)
            &&& acc.vel_sum.abs_le(acc.far * MAX_COORD as int)
        }),
    decreases cands.len(),
{
    if cands.len() == 0 {
    } else {
        lemma_accum_bounds(agents, i, cands.drop_last(), cfg);
        let c = cands.last();
        if c == i || c >= agents.len() {
        } else {
            let t = agents[c as int].pos@.minus(agents[i].pos@);
            let d2 = t.norm_sq();
            lemma_square_nonneg(t.x);
            lemma_square_nonneg(t.y);
            if d2 > cfg.vis_range * cfg.vis_range {
            } else if cfg.fov_enabled && !in_fov(agents[i].vel@, t, cfg.cos_half_fov as int) {
            } else if d2 < cfg.prot_range * cfg.prot_range {
                lemma_abs_lt_of_sq_lt(t.x, cfg.prot_range as int);
                lemma_abs_lt_of_sq_lt(t.y, cfg.prot_range as int);
            } else {
                lemma_abs_le_of_sq_le(t.x, cfg.vis_range as int);
                lemma_abs_le_of_sq_le(t.y, cfg.vis_range as int);
            }
        }
    }
}

/// Every steering delta stays within `DV_LIMIT`, whatever candidates the
/// index supplied: the spec-level counterpart of `compute_delta`'s bound,
/// which lets the integrator's speed-band law be stated after a whole tick.
pub proof fn lemma_delta_bound(
    agents: Seq<Agent>,
    i: int,
    cands: Seq<usize>,
    cfg: Config,
    target: Option<Vec2I>,
)
    requires
        all_wf(agents),
        cfg.wf(),
        0 <= i < agents.len(),
        cands.len() <= MAX_AGENTS,
        target matches Some(tp) ==> tp@.abs_le(MAX_COORD as int),
    ensures
        delta_value(agents, i, cands, cfg, target).abs_le(DV_LIMIT as int),
{
    lemma_accum_bounds(agents, i, cands, cfg);
    let acc = accum_seq(agents, i, cands, cfg);
    let m: int = MAX_COORD as int;
    if acc.far > 0 {
        assert(acc.far * m == m * acc.far) by (nonlinear_arith);
        lemma_div_trunc_bound(acc.pos_sum.x, acc.far, m);
        lemma_div_trunc_bound(acc.pos_sum.y, acc.far, m);
        lemma_div_trunc_bound(acc.vel_sum.x, acc.far, m);
        lemma_div_trunc_bound(acc.vel_sum.y, acc.far, m);
        let ap = acc.pos_sum.div_by(acc.far);
        let av = acc.vel_sum.div_by(acc.far);
        lemma_scaled_bound(
            ap.x,
            cfg.center_weight.num as int,
            cfg.center_weight.den as int,
            m,
            WEIGHT_RATIO_MAX as int,
        );
        lemma_scaled_bound(
            ap.y,
            cfg.center_weight.num as int,
            cfg.center_weight.den as int,
            m,
            WEIGHT_RATIO_MAX as int,
        );
        lemma_scaled_bound(
            av.x,
            cfg.matching_weight.num as int,
            cfg.matching_weight.den as int,
            m,
            WEIGHT_RATIO_MAX as int,
        );
        lemma_scaled_bound(
            av.y,
            cfg.matching_weight.num as int,
            cfg.matching_weight.den as int,
            m,
            WEIGHT_RATIO_MAX as int,
        );
    }
    if acc.close > 0 {
        assert(acc.close * m == m * acc.close) by (nonlinear_arith);
        lemma_div_trunc_bound(acc.away.x, acc.close, m);
        lemma_div_trunc_bound(acc.away.y, acc.close, m);
        let aa = acc.away.div_by(acc.close);
        lemma_scaled_bound(
            aa.x,
            cfg.avoid_weight.num as int,
            cfg.avoid_weight.den as int,
            m,
            WEIGHT_RATIO_MAX as int,
        );
        lemma_scaled_bound(
            aa.y,
            cfg.avoid_weight.num as int,
            cfg.avoid_weight.den as int,
            m,
            WEIGHT_RATIO_MAX as int,
        );
    }
    if let Some(tp) = target {
        let to_t = tp@.minus(agents[i].pos@);
        lemma_scaled_bound(
            to_t.x,
            cfg.seek_weight.num as int,
            cfg.seek_weight.den as int,
            2 * m,
            WEIGHT_RATIO_MAX as int,
        );
        lemma_scaled_bound(
            to_t.y,
            cfg.seek_weight.num as int,
            cfg.seek_weight.den as int,
            2 * m,
            WEIGHT_RATIO_MAX as int,
        );
    }
}

/// Field-of-view exclusion: when the cone is enabled, adding a candidate
/// neighbor that lies outside agent `i`'s field of view (one placed behind
/// it) leaves the computed delta unchanged, all else equal.
pub proof fn lemma_fov_exclusion(
    agents: Seq<Agent>,
    i: int,
    cands: Seq<usize>,
    c: usize,
    cfg: Config,
    target: Option<Vec2I>,
)
    requires
        0 <= i < agents.len(),
        (c as int) < agents.len(),
        c as int != i,
        cfg.fov_enabled,
        !in_fov(
            agents[i].vel@,
            agents[c as int].pos@.minus(agents[i].pos@),
            cfg.cos_half_fov as int,
        ),
    ensures
        delta_value(agents, i, cands.push(c), cfg, target)
            == delta_value(agents, i, cands, cfg, target),
{
    assert(cands.push(c).drop_last() =~= cands);
    assert(cands.push(c).last() == c);
    // `accum_step` hands its accumulator back unchanged: either the
    // candidate is already out of vision range, or the field-of-view test
    // rejects it.
}

/// Separation dominance: two agents within each other's protected range
/// accumulate exactly opposite separation pushes along the line joining
/// them; with only each other as candidates, no goal target and the
/// field-of-view cone disabled, their whole deltas are exact negations.
pub proof fn lemma_separation_opposition(agents: Seq<Agent>, i: usize, j: usize, cfg: Config)
    requires
        (i as int) < agents.len(),
        (j as int) < agents.len(),
        i != j,
        !cfg.fov_enabled,
        agents[j as int].pos@.minus(agents[i as int].pos@).norm_sq()
            <= cfg.vis_range * cfg.vis_range,
        agents[j as int].pos@.minus(agents[i as int].pos@).norm_sq()
            < cfg.prot_range * cfg.prot_range,
        1 <= cfg.avoid_weight.den,
    ensures
        ({
            let t = agents[j as int].pos@.minus(agents[i as int].pos@);
            &&& accum_seq(agents, i as int, seq![j], cfg).away == t.neg()
            &&& accum_seq(agents, j as int, seq![i], cfg).away == t
            &&& delta_value(agents, i as int, seq![j], cfg, None)
                == delta_value(agents, j as int, seq![i], cfg, None).neg()
        }),
{
    let t = agents[j as int].pos@.minus(agents[i as int].pos@);
    let tn = agents[i as int].pos@.minus(agents[j as int].pos@);
    assert(tn == t.neg());
    crate::vec2::lemma_norm_sq_neg(t);
    assert(seq![j].drop_last() =~= Seq::<usize>::empty());
    assert(seq![i].drop_last() =~= Seq::<usize>::empty());
    assert(seq![j].last() == j);
    assert(seq![i].last() == i);
    assert(accum_seq(agents, i as int, Seq::<usize>::empty(), cfg) == Accum::init());
    assert(accum_seq(agents, j as int, Seq::<usize>::empty(), cfg) == Accum::init());
    let acc_i = accum_seq(agents, i as int, seq![j], cfg);
    let acc_j = accum_seq(agents, j as int, seq![i], cfg);
    assert(acc_i.away == V2::zero().minus(t));
    assert(acc_j.away == V2::zero().minus(tn));
    assert(V2::zero().minus(t) == t.neg());
    assert(V2::zero().minus(tn) == t);

    let num = cfg.avoid_weight.num as int;
    let den = cfg.avoid_weight.den as int;
    assert(t.neg().div_by(1) == t.neg());
    assert(t.div_by(1) == t);
    assert((-t.x) * num == -(t.x * num)) by (nonlinear_arith);
    assert((-t.y) * num == -(t.y * num)) by (nonlinear_arith);
    crate::math::lemma_div_trunc_neg(t.x * num, den);
    crate::math::lemma_div_trunc_neg(t.y * num, den);
    assert(t.neg().scaled(num, den) == t.scaled(num, den).neg());
    assert(delta_value(agents, i as int, seq![j], cfg, None)
        == V2::zero().plus(t.neg().scaled(num, den)));
    assert(delta_value(agents, j as int, seq![i], cfg, None)
        == V2::zero().plus(t.scaled(num, den)));
}

} // verus!
