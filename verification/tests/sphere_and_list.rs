use ray_tracing_in_a_weekend::fixed::SCALE;
use ray_tracing_in_a_weekend::hittable::{HitList, Hittable};
use ray_tracing_in_a_weekend::materials::{Diffuse, Material};
use ray_tracing_in_a_weekend::ray::Ray;
use ray_tracing_in_a_weekend::shapes::Sphere;
use ray_tracing_in_a_weekend::vector::Vec3;

fn gray() -> Material {
    Material::Diffuse(Diffuse::new(Vec3::new(SCALE / 2, SCALE / 2, SCALE / 2)))
}

#[test]
fn center_ray_hits_unit_half_sphere() {
    // sphere at (0, 0, -1) with radius 0.5, ray from the origin down -z
    let sphere = Sphere::new(Vec3::new(0, 0, -SCALE), SCALE / 2, gray());
    let ray = Ray::new(Vec3::zeros(), Vec3::new(0, 0, -SCALE));
    let hit = sphere.hit(&ray, 64, 1 << 28).unwrap();
    // the near surface is half a unit away
    assert_eq!(hit.t, SCALE / 2);
    assert_eq!(hit.point, Vec3::new(0, 0, -SCALE / 2));
    // the normal points exactly away from the center, with unit length
    assert_eq!(hit.normal, Vec3::new(0, 0, SCALE));
    assert_eq!(hit.normal.magnitude_squared(), SCALE);
    assert!(hit.front);
}

#[test]
fn ray_beside_sphere_misses() {
    let sphere = Sphere::new(Vec3::new(0, 0, -SCALE), SCALE / 2, gray());
    let ray = Ray::new(Vec3::new(2 * SCALE, 0, 0), Vec3::new(0, 0, -SCALE));
    assert!(sphere.hit(&ray, 64, 1 << 28).is_none());
}

#[test]
fn hit_behind_range_is_discarded() {
    let sphere = Sphere::new(Vec3::new(0, 0, -SCALE), SCALE / 2, gray());
    // looking away from the sphere: both roots are negative
    let ray = Ray::new(Vec3::zeros(), Vec3::new(0, 0, SCALE));
    assert!(sphere.hit(&ray, 64, 1 << 28).is_none());
    // the whole sphere lies beyond t_max
    let toward = Ray::new(Vec3::zeros(), Vec3::new(0, 0, -SCALE));
    assert!(sphere.hit(&toward, 64, SCALE / 4).is_none());
}

#[test]
fn second_root_used_from_inside() {
    // from the center of the sphere the first root is behind t_min
    let sphere = Sphere::new(Vec3::new(0, 0, -SCALE), SCALE / 2, gray());
    let ray = Ray::new(Vec3::new(0, 0, -SCALE), Vec3::new(0, 0, -SCALE));
    let hit = sphere.hit(&ray, 64, 1 << 28).unwrap();
    assert_eq!(hit.t, SCALE / 2);
    assert_eq!(hit.point, Vec3::new(0, 0, -SCALE - SCALE / 2));
    // leaving the sphere: the outward normal is flipped toward the ray
    assert!(!hit.front);
    assert_eq!(hit.normal, Vec3::new(0, 0, SCALE));
}

#[test]
fn outward_normal_from_accessor() {
    let sphere = Sphere::new(Vec3::new(0, 0, -SCALE), SCALE / 2, gray());
    let p = Vec3::new(0, 0, -SCALE / 2);
    assert_eq!(sphere.normal(&p), Vec3::new(0, 0, SCALE));
}

#[test]
fn list_keeps_nearest_hit() {
    let mut list = HitList::new();
    list.add(Hittable::Sphere(Sphere::new(Vec3::new(0, 0, -4 * SCALE), SCALE, gray())));
    list.add(Hittable::Sphere(Sphere::new(Vec3::new(0, 0, -2 * SCALE), SCALE / 2, gray())));
    let ray = Ray::new(Vec3::zeros(), Vec3::new(0, 0, -SCALE));
    let hit = list.hit(&ray, 64, 1 << 28).unwrap();
    // the nearer sphere wins: 2 - 0.5 = 1.5
    assert_eq!(hit.t, SCALE + SCALE / 2);
}

#[test]
fn empty_list_misses() {
    let list = HitList::new();
    let ray = Ray::new(Vec3::zeros(), Vec3::new(0, 0, -SCALE));
    assert!(list.hit(&ray, 64, 1 << 28).is_none());
}

#[test]
fn cleared_list_misses() {
    let mut list = HitList::new();
    list.add(Hittable::Sphere(Sphere::new(Vec3::new(0, 0, -2 * SCALE), SCALE, gray())));
    list.clear();
    let ray = Ray::new(Vec3::zeros(), Vec3::new(0, 0, -SCALE));
    assert!(list.hit(&ray, 64, 1 << 28).is_none());
}
