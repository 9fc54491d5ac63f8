//! Tests of the update engine: pair accounting, symmetry, the speed
//! band, pause behavior, and determinism.

use boids::boid::Boid;
use boids::control::{host_step, should_tick, stop_simulation, toggle_running, SimState};
use boids::params::SimParams;
use boids::presets::Preset;
use boids::sim::BoidsSimulation;
use boids::spatial::nearest_neighbors;
use boids::vec3::{vnorm, vsub, Vec3};
use rand::SeedableRng;

fn rng(seed: u64) -> rand::rngs::StdRng {
    rand::rngs::StdRng::seed_from_u64(seed)
}

#[test]
fn params_constructor_accepts_exactly_valid_bundles() {
    let center = Vec3 { x: 0, y: 0, z: 0 };
    let ok = SimParams::new(center, None, 10, 20, 0, 0, 300, 100, 5);
    assert!(ok.is_some());
    // Separation range above cohesion range.
    assert!(SimParams::new(center, None, 30, 20, 0, 0, 300, 100, 5).is_none());
    // Minimum speed above maximum speed.
    assert!(SimParams::new(center, None, 10, 20, 0, 0, 100, 300, 5).is_none());
    // Blending weight outside [0, 1].
    assert!(SimParams::new(center, None, 10, 20, 2_000_000, 0, 300, 100, 5).is_none());
    // Negative minimum attraction range.
    assert!(SimParams::new(center, Some(-1), 10, 20, 0, 0, 300, 100, 5).is_none());
}

#[test]
fn preset_parameter_values() {
    let p = Preset::Separation.params();
    assert_eq!(p.separation_range, 30_000);
    assert_eq!(p.cohesion_range, 150_000);
    assert_eq!(p.max_speed, 3_000);
    assert_eq!(p.min_speed, 300);
    assert_eq!(p.alignment_strength, 0);
    assert_eq!(p.coherence_strength, 0);
    assert_eq!(p.attraction_min_range, None);
    assert_eq!(p.max_neighbors, usize::MAX);
    let q = Preset::Leaders.params();
    assert_eq!(q.separation_range, 10_000);
    assert_eq!(q.cohesion_range, 50_000);
    assert_eq!(q.max_speed, 1_000);
    assert_eq!(q.min_speed, 100);
    assert_eq!(q.attraction_min_range, Some(100_000));
    assert_eq!(q.max_neighbors, 5);
    assert_eq!(Preset::Leaders.agent_count(), 500);
}

#[test]
fn reset_clears_accumulators_only() {
    let mut b = Boid::new(
        3,
        Vec3 { x: 1, y: 2, z: 3 },
        Vec3 { x: 4, y: 5, z: 6 },
        Vec3 { x: 7, y: 8, z: 9 },
    );
    b.neighbor_velocity = Vec3 { x: 1, y: 1, z: 1 };
    b.reset();
    assert_eq!(b.acceleration, Vec3 { x: 0, y: 0, z: 0 });
    assert_eq!(b.neighbor_velocity, Vec3 { x: 0, y: 0, z: 0 });
    assert_eq!(b.id, 3);
    assert_eq!(b.translation, Vec3 { x: 1, y: 2, z: 3 });
    assert_eq!(b.velocity, Vec3 { x: 4, y: 5, z: 6 });
}

#[test]
fn no_constraints_scores_no_pairs_and_clamps_speeds() {
    let mut r = rng(0);
    let mut sim = Preset::NoConstraints.build(&mut r);
    let pairs = sim.accumulate_pairs();
    assert!(pairs.is_empty());
    for _ in 0..5 {
        sim.update();
    }
    let p = Preset::NoConstraints.params();
    for b in &sim.boids {
        let s = vnorm(b.velocity);
        assert!(s >= p.min_speed - 5 && s <= p.max_speed + 5, "speed {} out of band", s);
    }
}

#[test]
fn pair_forces_are_exact_negations() {
    // Two agents in separation range, everything else at rest: the
    // accelerations after the pair phase must cancel exactly.
    let p = Preset::Separation.params();
    let b0 = Boid::new(0, Vec3 { x: 0, y: 0, z: 0 }, Vec3 { x: 0, y: 0, z: 0 }, Vec3 {
        x: 0,
        y: 0,
        z: 0,
    });
    let b1 = Boid::new(1, Vec3 { x: 10_000, y: 3_000, z: -2_000 }, Vec3 { x: 0, y: 0, z: 0 }, Vec3 {
        x: 0,
        y: 0,
        z: 0,
    });
    let mut sim = BoidsSimulation { boids: vec![b0, b1], params: p };
    let pairs = sim.accumulate_pairs();
    assert_eq!(pairs.len(), 1);
    assert_eq!(pairs[0], (0, 1));
    let a0 = sim.boids[0].acceleration;
    let a1 = sim.boids[1].acceleration;
    assert_eq!(a0.x, -a1.x);
    assert_eq!(a0.y, -a1.y);
    assert_eq!(a0.z, -a1.z);
    assert!(a0.x != 0);
}

#[test]
fn separation_force_exact_value() {
    // Distance 10_000 under a separation range of 30_000: the closeness
    // ratio is 2/3, and the quadratic shaping gives a force of exactly
    // 44 sub-units on the axis.
    let p = Preset::Separation.params();
    let zero = Vec3 { x: 0, y: 0, z: 0 };
    let b0 = Boid::new(0, zero, zero, zero);
    let b1 = Boid::new(1, Vec3 { x: 10_000, y: 0, z: 0 }, zero, zero);
    let mut sim = BoidsSimulation { boids: vec![b0, b1], params: p };
    sim.accumulate_pairs();
    assert_eq!(sim.boids[0].acceleration, Vec3 { x: -44, y: 0, z: 0 });
    assert_eq!(sim.boids[1].acceleration, Vec3 { x: 44, y: 0, z: 0 });
}

#[test]
fn cohesion_and_alignment_exact_values() {
    // Distance 100_000 inside the cohesion band: the farness ratio
    // yields a pull of exactly one sub-unit, and each agent accumulates
    // one sub-unit of the other's velocity.
    let p = Preset::Separation.params();
    let zero = Vec3 { x: 0, y: 0, z: 0 };
    let mut b0 = Boid::new(0, zero, zero, zero);
    let mut b1 = Boid::new(1, Vec3 { x: 100_000, y: 0, z: 0 }, zero, zero);
    b0.velocity = Vec3 { x: 1_000, y: 0, z: 0 };
    b1.velocity = Vec3 { x: -1_000, y: 0, z: 0 };
    let mut sim = BoidsSimulation { boids: vec![b0, b1], params: p };
    sim.accumulate_pairs();
    assert_eq!(sim.boids[0].acceleration, Vec3 { x: 1, y: 0, z: 0 });
    assert_eq!(sim.boids[1].acceleration, Vec3 { x: -1, y: 0, z: 0 });
    assert_eq!(sim.boids[0].neighbor_velocity, Vec3 { x: -1, y: 0, z: 0 });
    assert_eq!(sim.boids[1].neighbor_velocity, Vec3 { x: 1, y: 0, z: 0 });
}

#[test]
fn generated_flock_is_well_formed() {
    let mut r = rng(11);
    let flock = Boid::generate_sphere(200, 100_000, 300, 3_000, &mut r);
    assert_eq!(flock.len(), 200);
    for (k, b) in flock.iter().enumerate() {
        assert_eq!(b.id, k);
        assert_eq!(b.acceleration, Vec3 { x: 0, y: 0, z: 0 });
        assert_eq!(b.neighbor_velocity, Vec3 { x: 0, y: 0, z: 0 });
        let d2 = boids::vec3::norm2(b.translation);
        assert!(d2 <= 100_000u128 * 100_000u128);
        assert!(b.velocity.x.abs() <= 3_000);
        assert!(b.velocity.y.abs() <= 3_000);
        assert!(b.velocity.z.abs() <= 3_000);
        let s = vnorm(b.velocity);
        assert!(s >= 295 && s <= 3_000, "initial speed {} out of band", s);
    }
}

#[test]
fn cutoff_pair_beyond_cohesion_range_is_ignored() {
    let p = Preset::Separation.params();
    let b0 = Boid::new(0, Vec3 { x: 0, y: 0, z: 0 }, Vec3 { x: 500, y: 0, z: 0 }, Vec3 {
        x: 0,
        y: 0,
        z: 0,
    });
    // Farther apart than the cohesion range of 150_000.
    let b1 = Boid::new(1, Vec3 { x: 200_000, y: 0, z: 0 }, Vec3 { x: 500, y: 0, z: 0 }, Vec3 {
        x: 0,
        y: 0,
        z: 0,
    });
    let mut sim = BoidsSimulation { boids: vec![b0, b1], params: p };
    let pairs = sim.accumulate_pairs();
    assert!(pairs.is_empty());
    assert_eq!(sim.boids[0].acceleration, Vec3 { x: 0, y: 0, z: 0 });
    assert_eq!(sim.boids[1].acceleration, Vec3 { x: 0, y: 0, z: 0 });
}

#[test]
fn neighbor_cap_bounds_pairs() {
    // Each agent contributes at most `max_neighbors` keys, so the
    // visited set of one tick never exceeds `5 * n` under the cap of 5.
    let mut r = rng(0);
    let mut sim = Preset::Neighbors5Small.build(&mut r);
    let n = sim.boids.len();
    let pairs = sim.accumulate_pairs();
    assert!(pairs.len() <= 5 * n, "{} pairs for {} agents", pairs.len(), n);
    // No key repeats and every key is ordered.
    for (k, &(a, b)) in pairs.iter().enumerate() {
        assert!(a < b && b < n);
        for &(c, d) in &pairs[k + 1..] {
            assert!((a, b) != (c, d));
        }
    }
}

#[test]
fn neighbor_query_respects_cap_and_range() {
    let mut r = rng(1);
    let sim = Preset::Neighbors5Small.build(&mut r);
    let p = &sim.params;
    for i in 0..sim.boids.len() {
        let ns = nearest_neighbors(&sim.boids, i, p.cohesion_range, p.max_neighbors);
        assert!(ns.len() <= 5);
        for &j in &ns {
            assert!(j != i);
            let d = vsub(sim.boids[j].translation, sim.boids[i].translation);
            let d2 = boids::vec3::norm2(d);
            let limit = (p.cohesion_range as u128) * (p.cohesion_range as u128);
            assert!(d2 <= limit);
        }
    }
}

#[test]
fn determinism_same_seed_same_trajectories() {
    let mut r1 = rng(7);
    let mut r2 = rng(7);
    let mut s1 = Preset::Cohesion.build(&mut r1);
    let mut s2 = Preset::Cohesion.build(&mut r2);
    assert_eq!(s1.boids, s2.boids);
    for _ in 0..20 {
        s1.update();
        s2.update();
    }
    assert_eq!(s1.boids, s2.boids);
}

#[test]
fn different_seeds_give_different_flocks() {
    let mut r1 = rng(1);
    let mut r2 = rng(2);
    let s1 = Preset::Cohesion.build(&mut r1);
    let s2 = Preset::Cohesion.build(&mut r2);
    assert_ne!(s1.boids, s2.boids);
    // A freshly generated flock is spread out, not collapsed on a point.
    let t0 = s1.boids[0].translation;
    assert!(s1.boids.iter().any(|b| b.translation != t0));
}

#[test]
fn paused_steps_leave_state_unchanged() {
    let mut r = rng(3);
    let mut sim = Preset::Coherence.build(&mut r);
    sim.update();
    let snapshot = sim.boids.clone();
    let paused = SimState::Paused;
    assert!(!should_tick(&paused));
    for _ in 0..10 {
        host_step(&mut sim, &paused);
    }
    assert_eq!(sim.boids, snapshot);
    let running = SimState::Running;
    host_step(&mut sim, &running);
    assert_ne!(sim.boids, snapshot);
}

#[test]
fn state_machine_transitions() {
    let mut s = SimState::Initialized;
    toggle_running(&mut s);
    assert_eq!(s, SimState::Running);
    toggle_running(&mut s);
    assert_eq!(s, SimState::Paused);
    toggle_running(&mut s);
    assert_eq!(s, SimState::Running);
    stop_simulation(&mut s);
    assert_eq!(s, SimState::Terminated);
    toggle_running(&mut s);
    assert_eq!(s, SimState::Terminated);
}

#[test]
fn restart_builds_a_fresh_flock() {
    let mut r = rng(4);
    let mut sim = Preset::Cohesion.build(&mut r);
    for _ in 0..3 {
        sim.update();
    }
    boids::control::restart(&mut sim, Preset::Cohesion, &mut r);
    assert_eq!(sim.boids.len(), 100);
    for (k, b) in sim.boids.iter().enumerate() {
        assert_eq!(b.id, k);
        assert_eq!(b.acceleration, Vec3 { x: 0, y: 0, z: 0 });
    }
}

#[test]
fn speeds_stay_in_band_across_presets() {
    for (preset, seed) in [
        (Preset::Separation, 0u64),
        (Preset::Alignment, 1),
        (Preset::Attraction, 2),
        (Preset::Coherence, 3),
        (Preset::Neighbors5Small, 4),
    ] {
        let mut r = rng(seed);
        let mut sim = preset.build(&mut r);
        for _ in 0..10 {
            sim.update();
        }
        let p = preset.params();
        for b in &sim.boids {
            let s = vnorm(b.velocity);
            assert!(
                s >= p.min_speed - 5 && s <= p.max_speed + 5,
                "speed {} out of [{}, {}]",
                s,
                p.min_speed,
                p.max_speed
            );
            // All fields stay inside the world's bounds.
            assert!(b.translation.x.abs() <= boids::math::POS_LIMIT);
            assert!(b.translation.y.abs() <= boids::math::POS_LIMIT);
            assert!(b.translation.z.abs() <= boids::math::POS_LIMIT);
        }
    }
}
