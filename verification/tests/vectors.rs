//! Unit tests of the fixed-point scalar and vector operations.

use boids::math::{isqrt64, mul_div, SCALE};
use boids::rot::{rotation_between, Quat};
use boids::sim::clamp_speed;
use boids::vec3::{norm2, vnorm, vnormalize, vslerp, Vec3};

#[test]
fn mul_div_rounds_toward_zero() {
    assert_eq!(mul_div(7, 3, 2), 10);
    assert_eq!(mul_div(-7, 3, 2), -10);
    assert_eq!(mul_div(7, -3, 2), -10);
    assert_eq!(mul_div(-7, -3, 2), 10);
    assert_eq!(mul_div(0, 123, 7), 0);
    assert_eq!(mul_div(1_000_000, 1_000_000, 1_000_000), 1_000_000);
}

#[test]
fn isqrt_exact_values() {
    assert_eq!(isqrt64(0), 0);
    assert_eq!(isqrt64(1), 1);
    assert_eq!(isqrt64(3), 1);
    assert_eq!(isqrt64(4), 2);
    assert_eq!(isqrt64(999_999), 999);
    assert_eq!(isqrt64(1_000_000_000_000_000_000_000_000), 1_000_000_000_000);
}

#[test]
fn norm_of_scaled_triangle() {
    let v = Vec3 { x: 300, y: 400, z: 0 };
    assert_eq!(vnorm(v), 500);
    assert_eq!(norm2(v), 250_000);
}

#[test]
fn normalize_axis_vector() {
    let v = Vec3 { x: 2_000_000, y: 0, z: 0 };
    let u = vnormalize(v);
    assert_eq!(u, Vec3 { x: SCALE, y: 0, z: 0 });
}

#[test]
fn slerp_returns_endpoints_exactly() {
    let u = Vec3 { x: SCALE, y: 0, z: 0 };
    let v = Vec3 { x: 0, y: SCALE, z: 0 };
    assert_eq!(vslerp(u, v, 0), u);
    assert_eq!(vslerp(u, v, SCALE), v);
}

#[test]
fn slerp_midpoint_is_unit_within_rounding() {
    let u = Vec3 { x: SCALE, y: 0, z: 0 };
    let v = Vec3 { x: 0, y: SCALE, z: 0 };
    let m = vslerp(u, v, SCALE / 2);
    assert!(m.x > 0 && m.y > 0);
    let n = vnorm(m);
    assert!((n - SCALE).abs() <= 2, "norm {} not within rounding of {}", n, SCALE);
    let w = Vec3 { x: 250_000, y: -800_000, z: 545_000 };
    let wn = vnormalize(w);
    let m2 = vslerp(wn, v, 300_000);
    let n2 = vnorm(m2);
    assert!((n2 - SCALE).abs() <= 2);
}

#[test]
fn clamp_speed_band() {
    let keep = Vec3 { x: 0, y: 2_000, z: 0 };
    assert_eq!(clamp_speed(keep, 300, 3_000), keep);
    let fast = Vec3 { x: 6_000, y: 0, z: 0 };
    assert_eq!(clamp_speed(fast, 300, 3_000), Vec3 { x: 3_000, y: 0, z: 0 });
    let slow = Vec3 { x: 0, y: 0, z: 100 };
    assert_eq!(clamp_speed(slow, 300, 3_000), Vec3 { x: 0, y: 0, z: 300 });
    let zero = Vec3 { x: 0, y: 0, z: 0 };
    assert_eq!(clamp_speed(zero, 300, 3_000), zero);
}

#[test]
fn rotation_between_directions() {
    let up = Vec3 { x: 0, y: SCALE, z: 0 };
    // A direction rotates to itself by the identity.
    assert_eq!(rotation_between(up, up), Quat { w: SCALE, x: 0, y: 0, z: 0 });
    // The antiparallel tie-break: a half-turn about the first axis.
    let down = Vec3 { x: 0, y: -SCALE, z: 0 };
    assert_eq!(rotation_between(up, down), Quat { w: 0, x: SCALE, y: 0, z: 0 });
    // A quarter-turn between orthogonal axes: equal scalar and axis
    // magnitudes, unit norm within rounding.
    let right = Vec3 { x: SCALE, y: 0, z: 0 };
    let q = rotation_between(up, right);
    assert_eq!(q.w, 707107);
    assert_eq!(q.z, -707107);
    assert_eq!(q.x, 0);
    assert_eq!(q.y, 0);
}

#[test]
fn distance_between_descriptors() {
    let a = boids::boid::BoidDesc::new(0, Vec3 { x: 0, y: 0, z: 0 });
    let p = Vec3 { x: 300, y: 400, z: 0 };
    assert_eq!(a.distance_2(&p), 500);
}
