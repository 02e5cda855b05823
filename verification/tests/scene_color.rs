use ray_tracing_in_a_weekend::fixed::SCALE;
use ray_tracing_in_a_weekend::materials::{Diffuse, Material};
use ray_tracing_in_a_weekend::ray::Ray;
use ray_tracing_in_a_weekend::rng::Sampler;
use ray_tracing_in_a_weekend::scene::Scene;
use ray_tracing_in_a_weekend::vector::Vec3;

#[test]
fn zero_bounces_is_black() {
    let mut scene = Scene::new();
    scene.add_sphere(0, 0, -SCALE, SCALE / 2, Material::Diffuse(Diffuse::new(Vec3::new(
        SCALE, SCALE, SCALE,
    ))));
    let mut sampler = Sampler::new(1);
    // even a ray aimed straight at the sphere resolves to black
    let ray = Ray::new(Vec3::zeros(), Vec3::new(0, 0, -SCALE));
    assert_eq!(scene.ray_color(&ray, 0, &mut sampler), Vec3::zeros());
}

#[test]
fn miss_is_the_sky_gradient() {
    let scene = Scene::new();
    let mut sampler = Sampler::new(1);
    // horizontal ray: unit y is 0, the gradient sits halfway
    let ray = Ray::new(Vec3::zeros(), Vec3::new(0, 0, -SCALE));
    let c = scene.ray_color(&ray, 8, &mut sampler);
    assert_eq!(c, Vec3::new(49152, 55705, SCALE));
    // straight up: sky blue exactly
    let up = Ray::new(Vec3::zeros(), Vec3::new(0, SCALE, 0));
    assert_eq!(scene.ray_color(&up, 8, &mut sampler), Vec3::new(32768, 45875, SCALE));
    // straight down: white exactly
    let down = Ray::new(Vec3::zeros(), Vec3::new(0, -SCALE, 0));
    assert_eq!(scene.ray_color(&down, 8, &mut sampler), Vec3::new(SCALE, SCALE, SCALE));
}

#[test]
fn background_ignores_origin() {
    let scene = Scene::new();
    let mut sampler = Sampler::new(1);
    let dir = Vec3::new(12288, 24576, -SCALE);
    let a = scene.ray_color(&Ray::new(Vec3::zeros(), dir), 4, &mut sampler);
    let b = scene.ray_color(&Ray::new(Vec3::new(-7 * SCALE, SCALE, 99), dir), 4, &mut sampler);
    assert_eq!(a, b);
}

#[test]
fn background_lies_between_white_and_blue() {
    let scene = Scene::new();
    let mut sampler = Sampler::new(99);
    for dir in [
        Vec3::new(300, 21000, -SCALE),
        Vec3::new(-SCALE, -3000, 500),
        Vec3::new(12345, 54321, 23456),
    ] {
        let c = scene.ray_color(&Ray::new(Vec3::zeros(), dir), 4, &mut sampler);
        assert!(32768 <= c.x && c.x <= SCALE);
        assert!(45875 <= c.y && c.y <= SCALE);
        assert_eq!(c.z, SCALE);
    }
}

#[test]
fn single_sphere_scene_shades_the_center_ray() {
    // the scene of one sphere at (0, 0, -1), radius 0.5, camera at the origin
    let mut scene = Scene::new();
    let albedo = Vec3::new(52428, 52428, 0);
    scene.add_sphere(0, 0, -SCALE, SCALE / 2, Material::Diffuse(Diffuse::new(albedo)));
    let mut sampler = Sampler::new(3);
    let ray = Ray::new(Vec3::zeros(), Vec3::new(0, 0, -SCALE));
    let c = scene.ray_color(&ray, 4, &mut sampler);
    // the diffuse albedo has no blue: the shaded color cannot be background,
    // whose blue channel is full
    assert_eq!(c.z, 0);
    assert!(c != Vec3::new(49152, 55705, SCALE));
}
