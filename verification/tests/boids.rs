use boids::agent::{Agent, Delta};
use boids::config::{Config, ConfigError, NeighborMode, Weight};
use boids::engine::{evaluate_all, evaluate_range, tick};
use boids::index::{IndexEntry, SpatialIndex};
use boids::math::{div_trunc_i64, isqrt, mul_div};
use boids::steer::compute_delta;
use boids::vec2::Vec2I;

// The tests use milli-units: 1000 units stand for one world unit of the
// typical configuration (vision radius 40, protected radius 8, speeds 2..4).

fn test_config() -> Config {
    Config {
        vis_range: 40_000,
        prot_range: 8_000,
        fov_enabled: false,
        cos_half_fov: 32_768, // cos 60 degrees, scaled by FOV_ONE
        center_weight: Weight::new(5, 10_000),
        matching_weight: Weight::new(50, 1_000),
        avoid_weight: Weight::new(50, 1_000),
        seek_weight: Weight::new(5, 10_000),
        turn_factor: 200,
        min_speed: 2_000,
        max_speed: 4_000,
        decay: Weight::new(1, 1),
        bound_x: 325_000,
        bound_y: 125_000,
        neighbor_mode: NeighborMode::Radius,
    }
}

fn agent(px: i64, py: i64, vx: i64, vy: i64) -> Agent {
    Agent::new(Vec2I::new(px, py), Vec2I::new(vx, vy))
}

fn speed_sq(a: &Agent) -> i128 {
    let vx = a.vel.x as i128;
    let vy = a.vel.y as i128;
    vx * vx + vy * vy
}

#[test]
fn config_accepts_the_reference_parameters() {
    assert_eq!(test_config().validate(), Ok(()));
}

#[test]
fn config_rejects_min_speed_above_max_speed() {
    let mut cfg = test_config();
    cfg.min_speed = 5_000;
    assert_eq!(cfg.validate(), Err(ConfigError::SpeedRange));
}

#[test]
fn config_rejects_negative_vision_radius() {
    let mut cfg = test_config();
    cfg.vis_range = -1;
    assert_eq!(cfg.validate(), Err(ConfigError::VisionRange));
}

#[test]
fn config_rejects_negative_protected_radius() {
    let mut cfg = test_config();
    cfg.prot_range = -5;
    assert_eq!(cfg.validate(), Err(ConfigError::ProtectedRange));
}

#[test]
fn config_rejects_cosine_out_of_range() {
    let mut cfg = test_config();
    cfg.cos_half_fov = 70_000;
    assert_eq!(cfg.validate(), Err(ConfigError::FovCosine));
}

#[test]
fn config_rejects_bad_weights_and_decay() {
    let mut cfg = test_config();
    cfg.avoid_weight = Weight::new(1, 0);
    assert_eq!(cfg.validate(), Err(ConfigError::AvoidWeight));
    let mut cfg = test_config();
    cfg.center_weight = Weight::new(-3, 10);
    assert_eq!(cfg.validate(), Err(ConfigError::CenterWeight));
    let mut cfg = test_config();
    cfg.matching_weight = Weight::new(-1, 1);
    assert_eq!(cfg.validate(), Err(ConfigError::MatchingWeight));
    let mut cfg = test_config();
    cfg.seek_weight = Weight::new(17, 1);
    assert_eq!(cfg.validate(), Err(ConfigError::SeekWeight));
    let mut cfg = test_config();
    cfg.decay = Weight::new(3, 2);
    assert_eq!(cfg.validate(), Err(ConfigError::DecayFactor));
}

#[test]
fn config_rejects_bad_turn_factor_and_bounds() {
    let mut cfg = test_config();
    cfg.turn_factor = -1;
    assert_eq!(cfg.validate(), Err(ConfigError::TurnFactor));
    let mut cfg = test_config();
    cfg.bound_y = -2;
    assert_eq!(cfg.validate(), Err(ConfigError::Bounds));
}

#[test]
fn isqrt_exact_values() {
    assert_eq!(isqrt(0), 0);
    assert_eq!(isqrt(1), 1);
    assert_eq!(isqrt(2), 1);
    assert_eq!(isqrt(3), 1);
    assert_eq!(isqrt(4), 2);
    assert_eq!(isqrt(15), 3);
    assert_eq!(isqrt(16), 4);
    assert_eq!(isqrt(1_000_000_000_000), 1_000_000);
    assert_eq!(isqrt(999_999_999_999), 999_999);
}

#[test]
fn division_rounds_toward_zero() {
    assert_eq!(div_trunc_i64(7, 2), 3);
    assert_eq!(div_trunc_i64(-7, 2), -3);
    assert_eq!(div_trunc_i64(-1, 3), 0);
    assert_eq!(mul_div(-5000, 50, 1000), -250);
    assert_eq!(mul_div(5000, 50, 1000), 250);
}

#[test]
fn radius_query_matches_brute_force_oracle() {
    // a deterministic scatter from a linear congruential generator
    let mut state: i64 = 12345;
    let mut step = || {
        state = (state * 1103515245 + 12345) % 2147483648;
        state % 100_000 - 50_000
    };
    let mut entries: Vec<IndexEntry> = Vec::new();
    for id in 0..60usize {
        entries.push(IndexEntry {
            id,
            pos: Vec2I::new(step(), step()),
        });
    }
    let all = entries.clone();
    let index = SpatialIndex::build(entries);
    for &(cx, cy, r) in &[(0i64, 0i64, 30_000i64), (-20_000, 10_000, 55_000), (40_000, -40_000, 5_000)] {
        let center = Vec2I::new(cx, cy);
        let hits = index.query_radius(center, r);
        let mut got: Vec<usize> = hits.iter().map(|h| h.id).collect();
        let mut want: Vec<usize> = all
            .iter()
            .filter(|e| {
                let dx = (e.pos.x - cx) as i128;
                let dy = (e.pos.y - cy) as i128;
                dx * dx + dy * dy <= (r as i128) * (r as i128)
            })
            .map(|e| e.id)
            .collect();
        got.sort();
        want.sort();
        assert_eq!(got, want);
        for h in &hits {
            let dx = (h.pos.x - cx) as i128;
            let dy = (h.pos.y - cy) as i128;
            assert_eq!(h.d2 as i128, dx * dx + dy * dy);
        }
    }
}

#[test]
fn radius_query_includes_the_exact_boundary() {
    let entries = vec![
        IndexEntry { id: 0, pos: Vec2I::new(0, 0) },
        IndexEntry { id: 1, pos: Vec2I::new(5_000, 0) },
        IndexEntry { id: 2, pos: Vec2I::new(5_001, 0) },
    ];
    let index = SpatialIndex::build(entries);
    let hits = index.query_radius(Vec2I::new(0, 0), 5_000);
    let ids: Vec<usize> = hits.iter().map(|h| h.id).collect();
    assert_eq!(ids, vec![0, 1]);
}

#[test]
fn k_nearest_orders_by_distance_then_identity() {
    let entries = vec![
        IndexEntry { id: 0, pos: Vec2I::new(10_000, 0) },
        IndexEntry { id: 1, pos: Vec2I::new(1_000, 0) },
        IndexEntry { id: 2, pos: Vec2I::new(-1_000, 0) }, // tie with 1 by distance
        IndexEntry { id: 3, pos: Vec2I::new(0, 500) },
    ];
    let index = SpatialIndex::build(entries);
    let hits = index.query_k_nearest(Vec2I::new(0, 0), 3);
    let ids: Vec<usize> = hits.iter().map(|h| h.id).collect();
    assert_eq!(ids, vec![3, 1, 2]);
    // asking for more than is indexed returns everything, still in order
    let all = index.query_k_nearest(Vec2I::new(0, 0), 99);
    let ids: Vec<usize> = all.iter().map(|h| h.id).collect();
    assert_eq!(ids, vec![3, 1, 2, 0]);
}

#[test]
fn three_agents_close_neighbor_pushes_away() {
    // agents at (0,0), (5,0), (100,100) in milli-units; vision 40, protected 8:
    // the agent at (5,0) is a close neighbor, the far one is not seen at all,
    // and the avoidance term points in the negative-x direction.
    let cfg = test_config();
    let agents = vec![
        agent(0, 0, 0, 0),
        agent(5_000, 0, 0, 0),
        agent(100_000, 100_000, 0, 0),
    ];
    let cands: Vec<usize> = vec![0, 1, 2];
    let dv = compute_delta(&agents, 0, &cands, &cfg, None);
    assert!(dv.x < 0);
    assert_eq!(dv, Vec2I::new(-250, 0));
}

#[test]
fn far_neighbor_contributes_cohesion_and_alignment() {
    let cfg = test_config();
    let agents = vec![
        agent(0, 0, 0, 0),
        agent(20_000, 0, 1_000, 0),
    ];
    let cands: Vec<usize> = vec![0, 1];
    let dv = compute_delta(&agents, 0, &cands, &cfg, None);
    // cohesion: 20000 * 5/10000 = 10; alignment: 1000 * 50/1000 = 50
    assert_eq!(dv, Vec2I::new(60, 0));
}

#[test]
fn stale_identity_is_skipped_silently() {
    let cfg = test_config();
    let agents = vec![agent(0, 0, 0, 0), agent(5_000, 0, 0, 0)];
    let with_stale: Vec<usize> = vec![0, 1, 99];
    let without: Vec<usize> = vec![0, 1];
    let a = compute_delta(&agents, 0, &with_stale, &cfg, None);
    let b = compute_delta(&agents, 0, &without, &cfg, None);
    assert_eq!(a, b);
}

#[test]
fn neighbor_behind_contributes_nothing_when_fov_enabled() {
    let mut cfg = test_config();
    cfg.fov_enabled = true; // half-FOV of 60 degrees
    // heading along +x, neighbor squarely behind
    let agents = vec![agent(0, 0, 1_000, 0), agent(-5_000, 0, 0, 0)];
    let cands: Vec<usize> = vec![0, 1];
    let dv = compute_delta(&agents, 0, &cands, &cfg, None);
    assert_eq!(dv, Vec2I::new(0, 0));
    // the same neighbor in front does contribute
    let agents = vec![agent(0, 0, 1_000, 0), agent(5_000, 0, 0, 0)];
    let dv = compute_delta(&agents, 0, &cands, &cfg, None);
    assert_eq!(dv, Vec2I::new(-250, 0));
}

#[test]
fn neighbor_on_the_cone_edge_is_kept() {
    let mut cfg = test_config();
    cfg.fov_enabled = true;
    // heading +x, neighbor at 45 degrees: inside a 60-degree half-FOV
    let agents = vec![agent(0, 0, 1_000, 0), agent(4_000, 4_000, 0, 0)];
    let cands: Vec<usize> = vec![0, 1];
    let dv = compute_delta(&agents, 0, &cands, &cfg, None);
    assert_ne!(dv, Vec2I::new(0, 0));
}

#[test]
fn agent_without_heading_sees_all_around() {
    let mut cfg = test_config();
    cfg.fov_enabled = true;
    let agents = vec![agent(0, 0, 0, 0), agent(-5_000, 0, 0, 0)];
    let cands: Vec<usize> = vec![0, 1];
    let dv = compute_delta(&agents, 0, &cands, &cfg, None);
    assert_eq!(dv, Vec2I::new(250, 0));
}

#[test]
fn separation_pushes_are_opposite() {
    let cfg = test_config();
    let agents = vec![agent(0, 0, 0, 0), agent(3_000, 0, 0, 0)];
    let cands: Vec<usize> = vec![0, 1];
    let dv0 = compute_delta(&agents, 0, &cands, &cfg, None);
    let dv1 = compute_delta(&agents, 1, &cands, &cfg, None);
    assert!(dv0.x < 0 && dv1.x > 0);
    assert_eq!(dv0.x, -dv1.x);
    assert_eq!(dv0.y, -dv1.y);
}

#[test]
fn goal_seek_pulls_toward_the_target() {
    let cfg = test_config();
    let agents = vec![agent(0, 0, 0, 0)];
    let cands: Vec<usize> = vec![0];
    let dv = compute_delta(&agents, 0, &cands, &cfg, Some(Vec2I::new(100_000, -50_000)));
    // 100000 * 5/10000 = 50, -50000 * 5/10000 = -25
    assert_eq!(dv, Vec2I::new(50, -25));
}

#[test]
fn evaluation_is_identical_for_any_batch_partition() {
    let cfg = test_config();
    let mut agents = Vec::new();
    for i in 0..8i64 {
        agents.push(agent(i * 3_000, -i * 2_000, 1_000 + i * 100, -500));
    }
    let index = SpatialIndex::of_snapshot(&agents);
    let target = Some(Vec2I::new(10_000, 10_000));
    let full = evaluate_all(&agents, &index, &cfg, target);
    for cuts in [
        vec![0usize, 8],
        vec![0, 4, 8],
        vec![0, 2, 4, 6, 8],
        vec![0, 1, 2, 3, 4, 5, 6, 7, 8],
    ] {
        let mut stitched: Vec<Delta> = Vec::new();
        for w in cuts.windows(2) {
            stitched.extend(evaluate_range(&agents, &index, &cfg, target, w[0], w[1]));
        }
        assert_eq!(stitched, full);
    }
}

#[test]
fn evaluation_in_k_nearest_mode_caps_the_neighbor_count() {
    let mut cfg = test_config();
    cfg.neighbor_mode = NeighborMode::KNearest(2);
    // four agents in a tight cluster; with the cap only the two nearest
    // candidates (one of which is the agent itself) are consulted
    let agents = vec![
        agent(0, 0, 0, 0),
        agent(3_000, 0, 0, 0),
        agent(0, 4_000, 0, 0),
        agent(-5_000, 0, 0, 0),
    ];
    let index = SpatialIndex::of_snapshot(&agents);
    let deltas = evaluate_all(&agents, &index, &cfg, None);
    // nearest two to agent 0 are itself and agent 1: only agent 1 contributes
    assert_eq!(deltas[0].dv, Vec2I::new(-150, 0));
}

#[test]
fn zero_velocity_with_zero_delta_stays_zero() {
    // explicit degenerate-direction policy: an agent with no direction is
    // given none, rather than a fabricated one
    let cfg = test_config();
    let mut agents = vec![agent(0, 0, 0, 0)];
    tick(&mut agents, &cfg, None);
    assert_eq!(agents[0].vel, Vec2I::new(0, 0));
    assert_eq!(agents[0].pos, Vec2I::new(0, 0));
}

#[test]
fn slow_agent_is_rescaled_to_the_minimum_speed() {
    let cfg = test_config();
    let mut agents = vec![agent(0, 0, 1, 0)];
    tick(&mut agents, &cfg, None);
    // speed 1 along +x is rescaled to exactly min_speed in that direction
    assert_eq!(agents[0].vel, Vec2I::new(2_000, 0));
    assert_eq!(agents[0].pos, Vec2I::new(2_000, 0));
}

#[test]
fn fast_agent_is_clamped_toward_the_maximum_speed() {
    let cfg = test_config();
    let mut agents = vec![agent(0, 0, 9_000, 0)];
    tick(&mut agents, &cfg, None);
    assert_eq!(agents[0].vel, Vec2I::new(4_000, 0));
}

#[test]
fn speed_stays_in_band_over_many_ticks() {
    let cfg = test_config();
    let min = cfg.min_speed as i128;
    let max = cfg.max_speed as i128;
    let mut agents = Vec::new();
    for i in 0..12i64 {
        agents.push(agent(
            (i % 4) * 6_000 - 9_000,
            (i / 4) * 5_000 - 5_000,
            2_500 + i * 90,
            -2_000 + i * 111,
        ));
    }
    for t in 0..25 {
        let target = if t % 2 == 0 { Some(Vec2I::new(50_000, 0)) } else { None };
        tick(&mut agents, &cfg, target);
        for a in &agents {
            let s2 = speed_sq(a);
            assert!(s2 <= max * max + 2 * max, "speed above band: {}", s2);
            assert!(s2 == 0 || s2 >= min * min - 4 * min, "speed below band: {}", s2);
        }
    }
}

#[test]
fn boundary_overshoot_steers_back_softly() {
    let cfg = test_config();
    // beyond the +x half-extent: the turn factor nudges vx down, nothing more
    let mut agents = vec![agent(330_000, 0, 3_000, 0)];
    tick(&mut agents, &cfg, None);
    assert_eq!(agents[0].vel, Vec2I::new(2_800, 0));
    assert_eq!(agents[0].pos, Vec2I::new(332_800, 0));
    // beyond the -y half-extent: vy nudged up
    let mut agents = vec![agent(0, -130_000, 3_000, 0)];
    tick(&mut agents, &cfg, None);
    assert_eq!(agents[0].vel, Vec2I::new(3_000, 200));
}

#[test]
fn decay_shrinks_the_clamped_velocity()
{
    let mut cfg = test_config();
    cfg.decay = Weight::new(1, 2);
    let mut agents = vec![agent(0, 0, 4_000, 0)];
    tick(&mut agents, &cfg, None);
    assert_eq!(agents[0].vel, Vec2I::new(2_000, 0));
}

#[test]
fn position_saturates_at_the_world_limit() {
    let cfg = test_config();
    let mut agents = vec![agent(1_047_000, 0, 3_000, 0)];
    tick(&mut agents, &cfg, None);
    // 1_047_000 + 2_800 would pass MAX_COORD; the advance saturates there
    assert_eq!(agents[0].pos.x, boids::MAX_COORD);
}

#[test]
fn heading_is_derived_from_velocity() {
    let a = agent(5, 6, 70, -80);
    assert_eq!(a.heading(), Vec2I::new(70, -80));
}
