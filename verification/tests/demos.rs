//! Tests of the static distribution scenes and the pair-accounting
//! observables.

use boids::demos::{BoidSim, CubeSim, DistributionSim, SphereBiased1Sim, SphereBiased2Sim,
    SphereSim, CUBE_HALF, DEMO_POINTS, DEMO_RADIUS};
use boids::presets::Preset;
use boids::spatial::nearest_neighbors;
use boids::vec3::norm2;
use rand::SeedableRng;

fn rng(seed: u64) -> rand::rngs::StdRng {
    rand::rngs::StdRng::seed_from_u64(seed)
}

#[test]
fn cube_points_inside_cube() {
    let mut r = rng(0);
    let s = CubeSim::init(&mut r);
    assert_eq!(s.points.len(), DEMO_POINTS);
    for p in &s.points {
        assert!(p.x.abs() <= CUBE_HALF && p.y.abs() <= CUBE_HALF && p.z.abs() <= CUBE_HALF);
    }
    let first = s.points[0];
    assert!(s.points.iter().any(|p| *p != first));
}

#[test]
fn sphere_points_inside_ball() {
    let mut r = rng(0);
    let s = SphereSim::init(&mut r);
    assert_eq!(s.points.len(), DEMO_POINTS);
    let limit = (DEMO_RADIUS as u128) * (DEMO_RADIUS as u128);
    for p in &s.points {
        assert!(norm2(*p) <= limit);
    }
}

#[test]
fn biased_spheres_stay_bounded() {
    let mut r = rng(0);
    let s1 = SphereBiased1Sim::init(&mut r);
    let s2 = SphereBiased2Sim::init(&mut r);
    assert_eq!(s1.points.len(), DEMO_POINTS);
    assert_eq!(s2.points.len(), DEMO_POINTS);
    for p in s1.points.iter().chain(s2.points.iter()) {
        assert!(p.x.abs() <= DEMO_RADIUS && p.y.abs() <= DEMO_RADIUS && p.z.abs() <= DEMO_RADIUS);
    }
    let _ = BoidSim::init();
}

#[test]
fn distribution_halves_have_their_signs() {
    let mut r = rng(0);
    let s = DistributionSim::init(&mut r);
    assert_eq!(s.upper.len(), DEMO_POINTS);
    assert_eq!(s.lower.len(), DEMO_POINTS);
    for p in &s.upper {
        assert!(p.y >= 0 && p.z == 0);
    }
    for p in &s.lower {
        assert!(p.y <= 0 && p.z == 0);
    }
}

#[test]
fn pair_keys_match_neighbor_visits() {
    // Under the capped preset, count every accepted neighbor visit and
    // every distinct pair key of the first tick's enumeration.
    let mut r = rng(0);
    let mut sim = Preset::Neighbors5Small.build(&mut r);
    let p = sim.params;
    let mut visits: usize = 0;
    for i in 0..sim.boids.len() {
        visits += nearest_neighbors(&sim.boids, i, p.cohesion_range, p.max_neighbors).len();
    }
    let pairs = sim.accumulate_pairs();
    // Each visit touches one pair key; a key is created at most once per
    // side, so keys never outnumber visits and at least half the visits
    // hit an existing key.
    assert!(pairs.len() <= visits);
    assert!(2 * pairs.len() >= visits);
}
