use ray_tracing_in_a_weekend::fixed::SCALE;
use ray_tracing_in_a_weekend::hittable::HitRecord;
use ray_tracing_in_a_weekend::materials::{Dielectric, Diffuse, Material, Metal};
use ray_tracing_in_a_weekend::ray::Ray;
use ray_tracing_in_a_weekend::rng::Sampler;
use ray_tracing_in_a_weekend::vector::Vec3;

fn flat_hit(material: Material) -> (Ray, HitRecord) {
    // a ray straight down the z axis onto a surface with normal +z
    let ray = Ray::new(Vec3::zeros(), Vec3::new(0, 0, -SCALE));
    let hit = HitRecord {
        point: Vec3::new(0, 0, -SCALE),
        normal: Vec3::new(0, 0, SCALE),
        material,
        t: SCALE,
        front: true,
    };
    (ray, hit)
}

#[test]
fn diffuse_attenuation_is_albedo() {
    let albedo = Vec3::new(45875, 19660, 13107);
    let diffuse = Diffuse::new(albedo);
    let (ray, hit) = flat_hit(Material::Diffuse(diffuse));
    let mut sampler = Sampler::new(7);
    for _ in 0..32 {
        let (attenuation, scattered) = diffuse.scatter(&ray, &hit, &mut sampler).unwrap();
        assert_eq!(attenuation, albedo);
        assert_eq!(scattered.origin, hit.point);
    }
}

#[test]
fn diffuse_direction_is_normal_plus_sample() {
    let diffuse = Diffuse::new(Vec3::new(SCALE, SCALE, SCALE));
    let (_ray, hit) = flat_hit(Material::Diffuse(diffuse));
    let sample = Vec3::new(100, -200, 300);
    let (_, scattered) = diffuse.scatter_with(&hit, sample);
    assert_eq!(scattered.direction, Vec3::new(100, -200, SCALE + 300));
}

#[test]
fn diffuse_degenerate_sum_falls_back_to_normal() {
    let diffuse = Diffuse::new(Vec3::new(SCALE, SCALE, SCALE));
    let (_ray, hit) = flat_hit(Material::Diffuse(diffuse));
    // the sample nearly cancels the normal: the normal itself is kept
    let sample = Vec3::new(0, 0, -SCALE + 3);
    let (_, scattered) = diffuse.scatter_with(&hit, sample);
    assert_eq!(scattered.direction, hit.normal);
}

#[test]
fn metal_zero_fuzz_is_perfect_mirror() {
    let albedo = Vec3::new(52428, 52428, 52428);
    let metal = Metal::new(albedo, 0);
    let ray = Ray::new(Vec3::new(SCALE, 0, SCALE), Vec3::new(0, 0, -SCALE));
    let hit = HitRecord {
        point: Vec3::new(SCALE, 0, 0),
        normal: Vec3::new(0, 0, SCALE),
        material: Material::Metal(metal),
        t: SCALE,
        front: true,
    };
    // any sample: with fuzz 0 it cannot perturb the reflection
    let sample = Vec3::new(-31000, 12000, 500);
    let (attenuation, scattered) = metal.scatter_with(&ray, &hit, sample).unwrap();
    assert_eq!(attenuation, albedo);
    // the analytic mirror reflection of (0, 0, -1) across +z is (0, 0, 1)
    assert_eq!(scattered.direction, Vec3::new(0, 0, SCALE));
    assert_eq!(scattered.origin, hit.point);
}

#[test]
fn metal_absorbs_rays_bent_into_surface() {
    let metal = Metal::new(Vec3::new(52428, 52428, 52428), SCALE);
    let (ray, hit) = flat_hit(Material::Metal(metal));
    // the reflection (0, 0, 1) pulled halfway down still leaves the surface
    let sample = Vec3::new(0, 0, -SCALE / 2);
    assert!(metal.scatter_with(&ray, &hit, sample).is_some());
    // grazing reflection pushed inside is absorbed
    let graze = Ray::new(Vec3::zeros(), Vec3::new(SCALE, 0, -1));
    let graze_hit = HitRecord {
        point: Vec3::new(SCALE, 0, 0),
        normal: Vec3::new(0, 0, SCALE),
        material: Material::Metal(metal),
        t: SCALE,
        front: true,
    };
    let down = Vec3::new(0, 0, -SCALE + 1);
    assert!(metal.scatter_with(&graze, &graze_hit, down).is_none());
}

#[test]
fn dielectric_ratio_one_passes_straight_through() {
    // refraction index one: the medium bends nothing
    let glass = Dielectric::new(SCALE);
    let (ray, hit) = flat_hit(Material::Dielectric(glass));
    // any draw at normal incidence refracts: the Schlick term is zero
    for draw in [0, 1, SCALE / 2, SCALE - 1] {
        let (attenuation, scattered) = glass.scatter_with(&ray, &hit, draw).unwrap();
        assert_eq!(attenuation, Vec3::new(SCALE, SCALE, SCALE));
        assert_eq!(scattered.direction, Vec3::new(0, 0, -SCALE));
    }
}

#[test]
fn metal_zero_fuzz_always_scatters_off_a_flat_hit() {
    // with zero fuzz the draw cannot change the outcome: the mirror
    // reflection leaves the surface, so every call scatters
    let metal = Metal::new(Vec3::new(52428, 52428, 52428), 0);
    let (ray, hit) = flat_hit(Material::Metal(metal));
    let mut sampler = Sampler::new(21);
    for _ in 0..16 {
        let (_, scattered) = metal.scatter(&ray, &hit, &mut sampler).unwrap();
        assert_eq!(scattered.direction, Vec3::new(0, 0, SCALE));
    }
}

#[test]
fn scattered_directions_stay_near_unit_length() {
    // the grid keeps the outgoing direction within a few steps of unit length
    let metal = Metal::new(Vec3::new(52428, 52428, 52428), 0);
    let (ray, hit) = flat_hit(Material::Metal(metal));
    let (_, mirror) = metal.scatter_with(&ray, &hit, Vec3::zeros()).unwrap();
    assert_eq!(mirror.direction.magnitude_squared(), SCALE);
    // refraction at 45 degrees into a denser medium
    let glass = Dielectric::new(98304);
    let oblique = Ray::new(Vec3::zeros(), Vec3::new(46341, 0, -46341));
    let oblique_hit = HitRecord {
        point: Vec3::new(SCALE, 0, -SCALE),
        normal: Vec3::new(0, 0, SCALE),
        material: Material::Dielectric(glass),
        t: SCALE,
        front: true,
    };
    let (_, bent) = glass.scatter_with(&oblique, &oblique_hit, SCALE - 1).unwrap();
    let m2 = bent.direction.magnitude_squared();
    assert!(SCALE - 4 <= m2 && m2 <= SCALE + 4);
}

#[test]
fn dielectric_total_internal_reflection_always_scatters() {
    // orthogonal exit from a dense medium: reflection for every draw
    let glass = Dielectric::new(98304);
    let ray = Ray::new(Vec3::zeros(), Vec3::new(SCALE, 0, 0));
    let hit = HitRecord {
        point: Vec3::new(SCALE, 0, 0),
        normal: Vec3::new(0, 0, SCALE),
        material: Material::Dielectric(glass),
        t: SCALE,
        front: false,
    };
    let mut sampler = Sampler::new(22);
    for _ in 0..16 {
        let (_, scattered) = glass.scatter(&ray, &hit, &mut sampler).unwrap();
        assert_eq!(scattered.direction, Vec3::new(SCALE, 0, 0));
    }
}

#[test]
fn dielectric_total_internal_reflection() {
    // leaving a dense medium at a right angle to the normal: must reflect
    let glass = Dielectric::new(98304);  // 1.5
    let ray = Ray::new(Vec3::zeros(), Vec3::new(SCALE, 0, 0));
    let hit = HitRecord {
        point: Vec3::new(SCALE, 0, 0),
        normal: Vec3::new(0, 0, SCALE),
        material: Material::Dielectric(glass),
        t: SCALE,
        front: false,
    };
    let (_, scattered) = glass.scatter_with(&ray, &hit, SCALE - 1).unwrap();
    // the mirror reflection of a direction orthogonal to the normal is itself
    assert_eq!(scattered.direction, Vec3::new(SCALE, 0, 0));
}
