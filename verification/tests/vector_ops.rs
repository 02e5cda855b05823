use ray_tracing_in_a_weekend::fixed::SCALE;
use ray_tracing_in_a_weekend::utilities::{reflection, refraction};
use ray_tracing_in_a_weekend::vector::Vec3;

#[test]
fn add_sub_neg_componentwise() {
    let a = Vec3::new(SCALE, -2 * SCALE, 3);
    let b = Vec3::new(5, 7, -11);
    assert_eq!(a.add(&b), Vec3::new(SCALE + 5, -2 * SCALE + 7, -8));
    assert_eq!(a.sub(&b), Vec3::new(SCALE - 5, -2 * SCALE - 7, 14));
    assert_eq!(a.neg(), Vec3::new(-SCALE, 2 * SCALE, -3));
}

#[test]
fn dot_and_magnitude() {
    let a = Vec3::new(SCALE, 2 * SCALE, 2 * SCALE);
    // |a|^2 = 1 + 4 + 4 = 9, |a| = 3
    assert_eq!(a.magnitude_squared(), 9 * SCALE);
    assert_eq!(a.magnitude(), 3 * SCALE);
    let b = Vec3::new(2 * SCALE, -SCALE, SCALE);
    // dot = 2 - 2 + 2 = 2
    assert_eq!(a.dot(&b), 2 * SCALE);
}

#[test]
fn normalize_unit_axis() {
    let a = Vec3::new(0, 0, -5 * SCALE);
    assert_eq!(a.normalize(), Vec3::new(0, 0, -SCALE));
    let b = Vec3::new(3 * SCALE, 4 * SCALE, 0);
    // 3-4-5 triangle: exactly (0.6, 0.8, 0)
    assert_eq!(b.normalize(), Vec3::new(39321, 52428, 0));
}

#[test]
fn lerp_endpoints_and_midpoint() {
    let white = Vec3::new(SCALE, SCALE, SCALE);
    let blue = Vec3::new(SCALE / 2, 45875, SCALE);
    assert_eq!(white.lerp(&blue, 0), white);
    assert_eq!(white.lerp(&blue, SCALE), blue);
    let mid = white.lerp(&blue, SCALE / 2);
    assert_eq!(mid, Vec3::new(49152, 55705, SCALE));
}

#[test]
fn component_mul_attenuates() {
    let c = Vec3::new(SCALE, SCALE / 2, 0);
    let albedo = Vec3::new(SCALE / 2, SCALE / 2, SCALE);
    assert_eq!(c.component_mul(&albedo), Vec3::new(SCALE / 2, SCALE / 4, 0));
}

#[test]
fn reflect_axis_normal() {
    let d = Vec3::new(SCALE / 2, -SCALE / 2, -SCALE);
    let n = Vec3::new(0, 0, SCALE);
    // reflection across z flips only the z component
    assert_eq!(reflection(d, n), Vec3::new(SCALE / 2, -SCALE / 2, SCALE));
}

#[test]
fn reflect_twice_is_identity() {
    // double mirror reflection returns the original vector
    let n = Vec3::new(0, 0, SCALE);
    for d in [
        Vec3::new(SCALE, 0, -SCALE),
        Vec3::new(-12345, 678, -SCALE),
        Vec3::new(0, SCALE / 2, 31415),
    ] {
        let once = reflection(d, n);
        assert_eq!(reflection(once, n), d);
    }
}

#[test]
fn refract_ratio_one_normal_incidence() {
    // at refraction ratio 1.0 the ray passes through undeviated
    let d = Vec3::new(0, 0, -SCALE);
    let n = Vec3::new(0, 0, SCALE);
    assert_eq!(refraction(d, n, SCALE), d);
}

#[test]
fn refract_bends_toward_normal_entering_dense_medium() {
    // unit incident at 45 degrees in the xz plane, ratio 1/1.5
    let d = Vec3::new(46341, 0, -46341);
    let n = Vec3::new(0, 0, SCALE);
    let ratio = 43690; // 65536 / 1.5, truncated
    let r = refraction(d, n, ratio);
    // the outgoing x component shrinks: sin(theta') = sin(45)/1.5
    assert!(r.x > 0 && r.x < 46341);
    assert!(r.z < 0);
}
