use ray_tracing_in_a_weekend::fixed::SCALE;
use ray_tracing_in_a_weekend::rng::Sampler;
use ray_tracing_in_a_weekend::utilities::{
    rand_point_in_unit_sphere, rand_point_range, rand_pouint_in_hemisphere, rand_vec3,
};
use ray_tracing_in_a_weekend::vector::Vec3;

#[test]
fn unit_cube_samples_stay_in_range() {
    let mut sampler = Sampler::new(11);
    for _ in 0..64 {
        let v = rand_vec3(&mut sampler);
        assert!(0 <= v.x && v.x < SCALE);
        assert!(0 <= v.y && v.y < SCALE);
        assert!(0 <= v.z && v.z < SCALE);
    }
}

#[test]
fn ranged_samples_stay_in_range() {
    let mut sampler = Sampler::new(12);
    for _ in 0..64 {
        let v = rand_point_range(&mut sampler, -3 * SCALE, 5 * SCALE);
        assert!(-3 * SCALE <= v.x && v.x < 5 * SCALE);
        assert!(-3 * SCALE <= v.y && v.y < 5 * SCALE);
        assert!(-3 * SCALE <= v.z && v.z < 5 * SCALE);
    }
}

#[test]
fn unit_sphere_samples_are_inside() {
    let mut sampler = Sampler::new(13);
    let mut seen_nonzero = false;
    for _ in 0..64 {
        let v = rand_point_in_unit_sphere(&mut sampler);
        assert!(v.magnitude_squared() < SCALE);
        if v != Vec3::zeros() {
            seen_nonzero = true;
        }
    }
    // the rejection loop finds real samples, not only the fallback center
    assert!(seen_nonzero);
}

#[test]
fn hemisphere_samples_lean_with_the_normal() {
    let mut sampler = Sampler::new(14);
    let normal = Vec3::new(0, SCALE, 0);
    for _ in 0..64 {
        let v = rand_pouint_in_hemisphere(&mut sampler, normal);
        assert!(v.dot(&normal) >= 0);
    }
}

#[test]
fn vector_sampling_entry_points_agree_on_ranges() {
    let mut sampler = Sampler::new(15);
    let v = Vec3::rand(&mut sampler);
    assert!(0 <= v.x && v.x < SCALE && 0 <= v.y && v.y < SCALE && 0 <= v.z && v.z < SCALE);
    let w = Vec3::rand_from_range(&mut sampler, -SCALE, SCALE);
    assert!(-SCALE <= w.x && w.x < SCALE);
    let s = Vec3::rand_in_unit_sphere(&mut sampler);
    assert!(s.magnitude_squared() < SCALE);
    let up = Vec3::new(0, SCALE, 0);
    let h = Vec3::rand_in_unit_hemisphere(&mut sampler, up);
    assert!(h.dot(&up) >= 0);
}

#[test]
fn equal_seeds_reproduce_the_sequence() {
    let mut a = Sampler::new(424242);
    let mut b = Sampler::new(424242);
    for _ in 0..16 {
        assert_eq!(rand_vec3(&mut a), rand_vec3(&mut b));
    }
}
