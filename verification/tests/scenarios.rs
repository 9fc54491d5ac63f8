//! End-to-end scenarios over whole presets.

use boids::boid::Boid;
use boids::params::SimParams;
use boids::presets::Preset;
use boids::sim::{apply_self_rules_one, BoidsSimulation};
use boids::vec3::{vnorm, vsub, Vec3};
use rand::SeedableRng;

fn rng(seed: u64) -> rand::rngs::StdRng {
    rand::rngs::StdRng::seed_from_u64(seed)
}

fn min_pair_dist2(sim: &BoidsSimulation) -> u128 {
    let mut best = u128::MAX;
    for i in 0..sim.boids.len() {
        for j in (i + 1)..sim.boids.len() {
            let d = vsub(sim.boids[j].translation, sim.boids[i].translation);
            let d2 = boids::vec3::norm2(d);
            if d2 < best {
                best = d2;
            }
        }
    }
    best
}

fn bounding_radius2(sim: &BoidsSimulation) -> u128 {
    let n = sim.boids.len() as i64;
    let mut cx: i64 = 0;
    let mut cy: i64 = 0;
    let mut cz: i64 = 0;
    for b in &sim.boids {
        cx += b.translation.x;
        cy += b.translation.y;
        cz += b.translation.z;
    }
    let c = Vec3 { x: cx / n, y: cy / n, z: cz / n };
    let mut worst: u128 = 0;
    for b in &sim.boids {
        let d2 = boids::vec3::norm2(vsub(b.translation, c));
        if d2 > worst {
            worst = d2;
        }
    }
    worst
}

#[test]
fn close_pair_under_separation_spreads_along_x() {
    // Two agents at the origin and 0.01 world units along +x, at rest,
    // under the separation rule set: one tick pushes them apart on x.
    let p = Preset::Separation.params();
    let zero = Vec3 { x: 0, y: 0, z: 0 };
    let b0 = Boid::new(0, zero, zero, zero);
    let b1 = Boid::new(1, Vec3 { x: 10_000, y: 0, z: 0 }, zero, zero);
    let mut sim = BoidsSimulation { boids: vec![b0, b1], params: p };
    let gap_before = sim.boids[1].translation.x - sim.boids[0].translation.x;
    sim.update();
    let gap_after = sim.boids[1].translation.x - sim.boids[0].translation.x;
    assert!(gap_after > gap_before, "{} vs {}", gap_after, gap_before);
    assert!(sim.boids[0].translation.x < 0 && sim.boids[1].translation.x > 10_000);
}

#[test]
fn coherence_blend_bends_acceleration_between_axes() {
    // One agent moving along +x with an injected acceleration along +y
    // and a coherence weight of one half: after the blend the
    // acceleration points strictly between +y and +x.
    let p = SimParams::new(Vec3 { x: 0, y: 0, z: 0 }, None, 30_000, 150_000, 0, 500_000, 3_000,
        300, usize::MAX)
        .unwrap();
    let b = Boid {
        id: 0,
        translation: Vec3 { x: 0, y: 0, z: 0 },
        velocity: Vec3 { x: 1_000, y: 0, z: 0 },
        acceleration: Vec3 { x: 0, y: 1_000, z: 0 },
        neighbor_velocity: Vec3 { x: 0, y: 0, z: 0 },
    };
    let r = apply_self_rules_one(b, &p);
    assert!(r.acceleration.x > 0, "acceleration x {}", r.acceleration.x);
    assert!(r.acceleration.y > 0, "acceleration y {}", r.acceleration.y);
    // An even blend of the two axes lands on the diagonal.
    assert_eq!(r.acceleration.x, r.acceleration.y);
}

#[test]
fn separation_pair_gains_relative_speed() {
    // A single pair at half the separation range, at rest: after one
    // tick their relative speed is positive.
    let p = Preset::Separation.params();
    let zero = Vec3 { x: 0, y: 0, z: 0 };
    let b0 = Boid::new(0, zero, zero, zero);
    let b1 = Boid::new(1, Vec3 { x: 15_000, y: 0, z: 0 }, zero, zero);
    let mut sim = BoidsSimulation { boids: vec![b0, b1], params: p };
    sim.update();
    let rel = vsub(sim.boids[1].velocity, sim.boids[0].velocity);
    assert!(vnorm(rel) > 0);
    assert!(sim.boids[1].velocity.x > 0 && sim.boids[0].velocity.x < 0);
}

#[test]
fn cohesion_keeps_flock_tighter_than_ballistic_motion() {
    // The same flock run twice over 200 ticks, once under cohesion and
    // once with every pairwise rule off: the cohesive flock ends with
    // the smaller bounding radius.
    let mut r = rng(0);
    let cohesive = Preset::Cohesion.build(&mut r);
    let mut ballistic = BoidsSimulation {
        boids: cohesive.boids.clone(),
        params: Preset::NoConstraints.params(),
    };
    let mut cohesive = cohesive;
    for _ in 0..200 {
        cohesive.update();
        ballistic.update();
    }
    let tight = bounding_radius2(&cohesive);
    let loose = bounding_radius2(&ballistic);
    assert!(tight < loose, "cohesion did not hold the flock: {} vs {}", tight, loose);
}

#[test]
fn cohesion_pair_accelerates_together() {
    // Two agents inside the cohesion band but beyond separation: after
    // the pair phase each accelerates toward the other.
    let p = Preset::Separation.params();
    let zero = Vec3 { x: 0, y: 0, z: 0 };
    let b0 = Boid::new(0, zero, zero, zero);
    let b1 = Boid::new(1, Vec3 { x: 100_000, y: 0, z: 0 }, zero, zero);
    let mut sim = BoidsSimulation { boids: vec![b0, b1], params: p };
    let pairs = sim.accumulate_pairs();
    assert_eq!(pairs, vec![(0, 1)]);
    assert!(sim.boids[0].acceleration.x > 0);
    assert!(sim.boids[1].acceleration.x < 0);
    assert_eq!(sim.boids[0].acceleration.x, -sim.boids[1].acceleration.x);
}

#[test]
fn alignment_preserves_shared_heading() {
    // All initial velocities along +x: ten ticks later every agent
    // still heads into the +x half-space.
    let mut r = rng(0);
    let mut sim = Preset::Alignment.build(&mut r);
    for b in sim.boids.iter_mut() {
        b.velocity = Vec3 { x: 1_000, y: 0, z: 0 };
    }
    for _ in 0..10 {
        sim.update();
    }
    for b in &sim.boids {
        assert!(b.velocity.x > 0, "agent {} turned back: {:?}", b.id, b.velocity);
    }
}

#[test]
fn ballistic_flock_spreads_out() {
    // Ten agents, no rules, each moving straight away from the origin
    // at a speed inside the band: motion is purely ballistic and every
    // pairwise distance, the minimum included, grows.
    let p = Preset::NoConstraints.params();
    let positions = [
        Vec3 { x: 30_000, y: 0, z: 0 },
        Vec3 { x: 0, y: 40_000, z: 0 },
        Vec3 { x: 0, y: 0, z: 50_000 },
        Vec3 { x: -60_000, y: 0, z: 0 },
        Vec3 { x: 0, y: -70_000, z: 0 },
        Vec3 { x: 0, y: 0, z: -80_000 },
        Vec3 { x: 30_000, y: 40_000, z: 0 },
        Vec3 { x: 0, y: 30_000, z: 40_000 },
        Vec3 { x: 40_000, y: 0, z: 30_000 },
        Vec3 { x: -30_000, y: -40_000, z: 0 },
    ];
    let mut boids = Vec::new();
    for (k, t) in positions.iter().enumerate() {
        let v = Vec3 { x: t.x / 50, y: t.y / 50, z: t.z / 50 };
        boids.push(Boid::new(k, *t, v, Vec3 { x: 0, y: 0, z: 0 }));
    }
    let mut sim = BoidsSimulation { boids, params: p };
    let before = min_pair_dist2(&sim);
    for _ in 0..50 {
        sim.update();
    }
    let after = min_pair_dist2(&sim);
    assert!(after > before, "min distance^2 shrank: {} -> {}", before, after);
}

#[test]
fn attraction_disabled_is_pure_motion() {
    // With attraction off and empty accumulators, a tick of the
    // self-rules is integration and motion alone.
    let p = Preset::Separation.params();
    let b = Boid {
        id: 0,
        translation: Vec3 { x: 5_000, y: -2_000, z: 1_000 },
        velocity: Vec3 { x: 0, y: 2_000, z: 0 },
        acceleration: Vec3 { x: 0, y: 0, z: 0 },
        neighbor_velocity: Vec3 { x: 0, y: 0, z: 0 },
    };
    let after = apply_self_rules_one(b, &p);
    assert_eq!(after.velocity, b.velocity);
    assert_eq!(after.translation, Vec3 { x: 5_000, y: 0, z: 1_000 });
}

#[test]
fn attraction_pulls_toward_center_beyond_min_range() {
    let p = SimParams::new(Vec3 { x: 0, y: 0, z: 0 }, Some(100_000), 0, 0, 0, 0, 3_000, 300,
        usize::MAX)
        .unwrap();
    let b = Boid {
        id: 0,
        translation: Vec3 { x: 500_000, y: 0, z: 0 },
        velocity: Vec3 { x: 0, y: 300, z: 0 },
        acceleration: Vec3 { x: 0, y: 0, z: 0 },
        neighbor_velocity: Vec3 { x: 0, y: 0, z: 0 },
    };
    let after = apply_self_rules_one(b, &p);
    assert!(after.velocity.x < 0, "no pull: {:?}", after.velocity);
}
