//! Parallel evaluation scheduler and the per-tick pipeline.  Evaluation
//! reads a frozen snapshot and the spatial index and produces one delta
//! record per agent; it may be cut into contiguous batches evaluated
//! independently (on worker threads, by the surrounding application), and
//! the result does not depend on the cut.

use vstd::prelude::*;
use crate::agent::{all_wf, Agent, Delta};
use crate::config::Config;
use crate::config::NeighborMode;
use crate::index::{
    k_nearest_spec, radius_filter, snapshot_of, IndexEntry, QueryHit, SpatialIndex,
};
use crate::integrate::{integrate, step_spec};
use crate::steer::{accum_seq, compute_delta, delta_value};
use crate::vec2::{Vec2I, V2};
use crate::{DV_LIMIT, MAX_AGENTS, MAX_COORD};

verus! {

/// The candidate list naming every agent of an `n`-agent population.
pub open spec fn id_range(n: int) -> Seq<usize> {
    Seq::new(n as nat, |k: int| k as usize)
}

/// The identities of a sequence of index entries, in order.
pub open spec fn ids_of(s: Seq<IndexEntry>) -> Seq<usize> {
    Seq::new(s.len(), |k: int| s[k].id)
}

/// The candidate neighbors the configured selection mode gives agent `i`:
/// the whole population in radius mode (the vision-radius cut happens
/// inside the accumulation, so a radius query changes nothing — see
/// `lemma_delta_radius_query`), or the `k` nearest indexed points.
pub open spec fn candidates_spec(agents: Seq<Agent>, i: int, cfg: Config) -> Seq<usize> {
    match cfg.neighbor_mode {
        NeighborMode::Radius => id_range(agents.len() as int),
        NeighborMode::KNearest(k) => ids_of(
            k_nearest_spec(snapshot_of(agents), agents[i].pos@, k as int),
        ),
    }
}

/// The delta owed to agent `i` for one tick: its steering delta against the
/// mode-selected candidates.  A pure function of the snapshot and the
/// configuration alone.
pub open spec fn delta_spec(agents: Seq<Agent>, i: int, cfg: Config, target: Option<Vec2I>) -> V2 {
    delta_value(agents, i, candidates_spec(agents, i, cfg), cfg, target)
}

/// The full, identity-ordered delta list of one tick.
pub open spec fn deltas_spec(agents: Seq<Agent>, cfg: Config, target: Option<Vec2I>) -> Seq<Delta> {
    Seq::new(
        agents.len(),
        |i: int| Delta {
            id: i as usize,
            dv: Vec2I {
                x: delta_spec(agents, i, cfg, target).x as i64,
                y: delta_spec(agents, i, cfg, target).y as i64,
            },
        },
    )
}

/// Candidates that a fresh-index radius query drops are exactly those the
/// accumulation would skip anyway, so the accumulators agree with a scan of
/// the whole population.
proof fn lemma_accum_radius_filter(agents: Seq<Agent>, i: int, s: Seq<IndexEntry>, cfg: Config)
    requires
        0 <= i < agents.len(),
        forall|k: int| 0 <= k < s.len()
            ==> (#[trigger] s[k]).id < agents.len() && s[k].pos == agents[s[k].id as int].pos,
    ensures
        accum_seq(agents, i, ids_of(radius_filter(s, agents[i].pos@, cfg.vis_range as int)), cfg)
            == accum_seq(agents, i, ids_of(s), cfg),
    decreases s.len(),
{
    let center = agents[i].pos@;
    let r = cfg.vis_range as int;
    if s.len() == 0 {
        assert(ids_of(radius_filter(s, center, r)) =~= Seq::<usize>::empty());
        assert(ids_of(s) =~= Seq::<usize>::empty());
    } else {
        let p = s.drop_last();
        let e = s.last();
        lemma_accum_radius_filter(agents, i, p, cfg);
        assert(ids_of(s) =~= ids_of(p).push(e.id));
        assert(ids_of(p).push(e.id).drop_last() =~= ids_of(p));
        if crate::index::within(e, center, r) {
            assert(radius_filter(s, center, r) == radius_filter(p, center, r).push(e));
            assert(ids_of(radius_filter(p, center, r).push(e))
                =~= ids_of(radius_filter(p, center, r)).push(e.id));
            assert(ids_of(radius_filter(p, center, r)).push(e.id).drop_last()
                =~= ids_of(radius_filter(p, center, r)));
        } else {
            assert(radius_filter(s, center, r) == radius_filter(p, center, r));
            // the dropped candidate contributes nothing: it is out of vision
            // range of agent `i`
            assert(e.pos@.minus(center).norm_sq() > r * r);
        }
    }
}

/// Evaluating against a fresh radius query equals evaluating against the
/// whole population: the delta each agent is owed is independent of how the
/// index narrowed the candidates.
pub proof fn lemma_delta_radius_query(agents: Seq<Agent>, i: int, cfg: Config, target: Option<Vec2I>)
    requires
        0 <= i < agents.len(),
        agents.len() <= usize::MAX,
    ensures
        delta_value(
            agents,
            i,
            ids_of(radius_filter(snapshot_of(agents), agents[i].pos@, cfg.vis_range as int)),
            cfg,
            target,
        ) == delta_value(agents, i, id_range(agents.len() as int), cfg, target),
{
    assert forall|k: int| 0 <= k < snapshot_of(agents).len() implies
        (#[trigger] snapshot_of(agents)[k]).id < agents.len()
            && snapshot_of(agents)[k].pos == agents[snapshot_of(agents)[k].id as int].pos by {
        assert(snapshot_of(agents)[k] == (IndexEntry { id: k as usize, pos: agents[k].pos }));
    }
    lemma_accum_radius_filter(agents, i, snapshot_of(agents), cfg);
    assert(ids_of(snapshot_of(agents)) =~= id_range(agents.len() as int));
}

/// Evaluate the contiguous batch of agents `lo..hi` against the read-only
/// snapshot and a fresh spatial index.  Workers evaluating disjoint batches
/// mutate nothing they share; each batch's result is the matching slice of
/// the full delta list.
pub fn evaluate_range(
    agents: &Vec<Agent>,
    index: &SpatialIndex,
    cfg: &Config,
    target: Option<Vec2I>,
    lo: usize,
    hi: usize,
) -> (deltas: Vec<Delta>)
    requires
        agents@.len() <= MAX_AGENTS,
        all_wf(agents@),
        cfg.wf(),
        index@ == snapshot_of(agents@),
        index.wf(),
        target matches Some(tp) ==> tp@.abs_le(MAX_COORD as int),
        lo <= hi <= agents@.len(),
    ensures
        deltas@.len() == hi - lo,
        forall|k: int| 0 <= k < deltas@.len()
            ==> (#[trigger] deltas@[k]).id == lo + k
                && deltas@[k].dv@ == delta_spec(agents@, lo + k, *cfg, target)
                && deltas@[k].dv@.abs_le(DV_LIMIT as int),
        deltas@ == deltas_spec(agents@, *cfg, target).subrange(lo as int, hi as int),
{
    let mut deltas: Vec<Delta> = Vec::new();
    let mut i: usize = lo;
    while i < hi
        invariant
            agents@.len() <= MAX_AGENTS,
            all_wf(agents@),
            cfg.wf(),
            index@ == snapshot_of(agents@),
            index.wf(),
            target matches Some(tp) ==> tp@.abs_le(MAX_COORD as int),
            lo <= i <= hi <= agents@.len(),
            deltas@.len() == i - lo,
            forall|k: int| 0 <= k < deltas@.len()
                ==> (#[trigger] deltas@[k]).id == lo + k
                    && deltas@[k].dv@ == delta_spec(agents@, lo + k, *cfg, target)
                    && deltas@[k].dv@.abs_le(DV_LIMIT as int),
        decreases hi - i,
    {
        let center: Vec2I = agents[i].pos;
        let hits: Vec<QueryHit> = match cfg.neighbor_mode {
            NeighborMode::Radius => index.query_radius(center, cfg.vis_range),
            NeighborMode::KNearest(k) => index.query_k_nearest(center, k),
        };
        proof {
            crate::index::lemma_radius_filter_len(index@, center@, cfg.vis_range as int);
            crate::index::lemma_sort_by_key_len(index@, center@);
        }
        let mut ids: Vec<usize> = Vec::new();
        let mut m: usize = 0;
        while m < hits.len()
            invariant
                m <= hits@.len(),
                ids@.len() == m,
                forall|k: int| 0 <= k < m ==> ids@[k] == (#[trigger] hits@[k]).id,
            decreases hits@.len() - m,
        {
            ids.push(hits[m].id);
            m = m + 1;
        }
        proof {
            match cfg.neighbor_mode {
                NeighborMode::Radius => {
                    let rf = radius_filter(index@, center@, cfg.vis_range as int);
                    assert forall|k: int| 0 <= k < ids@.len() implies ids@[k] == ids_of(rf)[k] by {
                        assert(ids@[k] == hits@[k].id);
                        assert(hits@[k] == crate::index::hits_of(rf, center@)[k]);
                    }
                    assert(ids@ =~= ids_of(rf));
                    lemma_delta_radius_query(agents@, i as int, *cfg, target);
                },
                NeighborMode::KNearest(k) => {
                    let kn = k_nearest_spec(index@, center@, k as int);
                    assert forall|t: int| 0 <= t < ids@.len() implies ids@[t] == ids_of(kn)[t] by {
                        assert(ids@[t] == hits@[t].id);
                        assert(hits@[t] == crate::index::hits_of(kn, center@)[t]);
                    }
                    assert(ids@ =~= ids_of(kn));
                },
            }
            assert(delta_value(agents@, i as int, ids@, *cfg, target)
                == delta_spec(agents@, i as int, *cfg, target));
        }
        let dv: Vec2I = compute_delta(agents, i, &ids, cfg, target);
        deltas.push(Delta { id: i, dv });
        i = i + 1;
    }
    proof {
        assert(deltas@ =~= deltas_spec(agents@, *cfg, target).subrange(lo as int, hi as int));
    }
    deltas
}

/// Evaluate the whole population in one batch: the full, identity-ordered
/// delta list, each record produced exactly once.
pub fn evaluate_all(
    agents: &Vec<Agent>,
    index: &SpatialIndex,
    cfg: &Config,
    target: Option<Vec2I>,
) -> (deltas: Vec<Delta>)
    requires
        agents@.len() <= MAX_AGENTS,
        all_wf(agents@),
        cfg.wf(),
        index@ == snapshot_of(agents@),
        index.wf(),
        target matches Some(tp) ==> tp@.abs_le(MAX_COORD as int),
    ensures
        deltas@.len() == agents@.len(),
        forall|k: int| 0 <= k < deltas@.len()
            ==> (#[trigger] deltas@[k]).id == k
                && deltas@[k].dv@ == delta_spec(agents@, k, *cfg, target)
                && deltas@[k].dv@.abs_le(DV_LIMIT as int),
        deltas@ == deltas_spec(agents@, *cfg, target),
{
    let deltas = evaluate_range(agents, index, cfg, target, 0, agents.len());
    proof {
        assert(deltas_spec(agents@, *cfg, target).subrange(0, agents@.len() as int)
            =~= deltas_spec(agents@, *cfg, target));
    }
    deltas
}

/// One full simulation tick over a population: index refresh, steering
/// evaluation, integration.
pub open spec fn tick_spec(agents: Seq<Agent>, cfg: Config, target: Option<Vec2I>) -> Seq<Agent> {
    Seq::new(
        agents.len(),
        |k: int| step_spec(agents[k], delta_spec(agents, k, cfg, target), cfg),
    )
}

/// Run one tick: rebuild the spatial index from the current snapshot,
/// evaluate every agent's steering delta against it, then integrate.  Each
/// delta is produced and consumed exactly once, and the population stays
/// well-formed.
pub fn tick(agents: &mut Vec<Agent>, cfg: &Config, target: Option<Vec2I>)
    requires
        cfg.wf(),
        all_wf(old(agents)@),
        old(agents)@.len() <= MAX_AGENTS,
        target matches Some(tp) ==> tp@.abs_le(MAX_COORD as int),
    ensures
        final(agents)@ == tick_spec(old(agents)@, *cfg, target),
        final(agents)@.len() == old(agents)@.len(),
        all_wf(final(agents)@),
{
    let index: SpatialIndex = SpatialIndex::of_snapshot(agents);
    let deltas: Vec<Delta> = evaluate_all(agents, &index, cfg, target);
    integrate(agents, &deltas, cfg);
    proof {
        assert forall|k: int| 0 <= k < agents@.len() implies
            agents@[k] == tick_spec(old(agents)@, *cfg, target)[k] by {
            assert(agents@[k] == step_spec(old(agents)@[k], deltas@[k].dv@, *cfg));
            assert(deltas@[k].dv@ == delta_spec(old(agents)@, k, *cfg, target));
        }
        assert(agents@ =~= tick_spec(old(agents)@, *cfg, target));
    }
}

/// The mode-selected candidate list never exceeds the population size.
proof fn lemma_candidates_len(agents: Seq<Agent>, i: int, cfg: Config)
    requires
        0 <= i < agents.len(),
    ensures
        candidates_spec(agents, i, cfg).len() <= agents.len(),
{
    match cfg.neighbor_mode {
        NeighborMode::Radius => {},
        NeighborMode::KNearest(k) => {
            crate::index::lemma_sort_by_key_len(snapshot_of(agents), agents[i].pos@);
        },
    }
}

/// Speed-band invariant after any tick: each agent the tick leaves behind
/// has its velocity clamped as `lemma_step_speed_band` states — untouched
/// when its steered speed already sat inside `[min_speed, max_speed]`,
/// inside the fixed-point rounding tolerance of the band otherwise, and
/// exactly zero only when it had no direction at all.  (Before the first
/// tick the band is not yet enforced: agents start with whatever velocity
/// they were created with.)
pub proof fn lemma_tick_speed_band(
    agents: Seq<Agent>,
    cfg: Config,
    target: Option<Vec2I>,
    k: int,
)
    requires
        cfg.wf(),
        all_wf(agents),
        agents.len() <= MAX_AGENTS,
        0 <= k < agents.len(),
        cfg.decay.num == cfg.decay.den,
        target matches Some(tp) ==> tp@.abs_le(MAX_COORD as int),
    ensures
        ({
            let dv = delta_spec(agents, k, cfg, target);
            let w = tick_spec(agents, cfg, target)[k].vel@;
            let v2 = crate::integrate::steer_back(agents[k].vel@.plus(dv), agents[k].pos@, cfg);
            let s2 = v2.norm_sq();
            let min = cfg.min_speed as int;
            let max = cfg.max_speed as int;
            &&& dv.abs_le(crate::DV_LIMIT as int)
            &&& (s2 == 0 ==> w == v2)
            &&& (min * min <= s2 <= max * max ==> w == v2)
            &&& (s2 > max * max ==> w.norm_sq() <= max * max + 2 * max)
            &&& (0 < s2 && s2 < min * min ==> min * min - 4 * min <= w.norm_sq() <= 3 * (min
                * min))
        }),
{
    lemma_candidates_len(agents, k, cfg);
    crate::steer::lemma_delta_bound(agents, k, candidates_spec(agents, k, cfg), cfg, target);
    crate::integrate::lemma_step_speed_band(agents[k], delta_spec(agents, k, cfg, target), cfg);
    assert(tick_spec(agents, cfg, target)[k]
        == step_spec(agents[k], delta_spec(agents, k, cfg, target), cfg));
}

/// The delta lists of a batched evaluation, concatenated in batch order:
/// batch `b` covers agents `cuts[b] .. cuts[b+1]`.
pub open spec fn batched_deltas(
    agents: Seq<Agent>,
    cfg: Config,
    target: Option<Vec2I>,
    cuts: Seq<int>,
    b: int,
) -> Seq<Delta>
    decreases cuts.len() - b,
{
    if b + 1 >= cuts.len() {
        Seq::empty()
    } else {
        deltas_spec(agents, cfg, target).subrange(cuts[b], cuts[b + 1])
            + batched_deltas(agents, cfg, target, cuts, b + 1)
    }
}

/// A partition of `0..n` into contiguous batches.
pub open spec fn partition_ok(cuts: Seq<int>, n: int) -> bool {
    &&& cuts.len() >= 1
    &&& cuts[0] == 0
    &&& cuts[cuts.len() - 1] == n
    &&& forall|b: int| 0 <= b < cuts.len() - 1 ==> #[trigger] cuts[b] <= cuts[b + 1]
    &&& forall|b: int| 0 <= b < cuts.len() ==> 0 <= #[trigger] cuts[b] <= n
}

proof fn lemma_batched_suffix(
    agents: Seq<Agent>,
    cfg: Config,
    target: Option<Vec2I>,
    cuts: Seq<int>,
    b: int,
)
    requires
        partition_ok(cuts, agents.len() as int),
        0 <= b < cuts.len(),
    ensures
        batched_deltas(agents, cfg, target, cuts, b)
            == deltas_spec(agents, cfg, target).subrange(cuts[b], agents.len() as int),
    decreases cuts.len() - b,
{
    let full = deltas_spec(agents, cfg, target);
    if b + 1 >= cuts.len() {
        assert(cuts[b] == agents.len() as int);
        assert(full.subrange(cuts[b], agents.len() as int) =~= Seq::<Delta>::empty());
    } else {
        lemma_batched_suffix(agents, cfg, target, cuts, b + 1);
        assert(full.subrange(cuts[b], cuts[b + 1]) + full.subrange(cuts[b + 1], agents.len() as int)
            =~= full.subrange(cuts[b], agents.len() as int));
    }
}

/// Parallel-evaluation determinism: however the population is cut into
/// contiguous batches, the concatenated batch results equal the full
/// identity-ordered delta list — so the multiset of (identity, delta)
/// records does not depend on the partitioning or on how many workers
/// evaluated it.
pub proof fn lemma_partition_determinism(
    agents: Seq<Agent>,
    cfg: Config,
    target: Option<Vec2I>,
    cuts: Seq<int>,
)
    requires
        partition_ok(cuts, agents.len() as int),
    ensures
        batched_deltas(agents, cfg, target, cuts, 0) == deltas_spec(agents, cfg, target),
        batched_deltas(agents, cfg, target, cuts, 0).to_multiset()
            == deltas_spec(agents, cfg, target).to_multiset(),
{
    lemma_batched_suffix(agents, cfg, target, cuts, 0);
    assert(deltas_spec(agents, cfg, target).subrange(0, agents.len() as int)
        =~= deltas_spec(agents, cfg, target));
}

} // verus!
