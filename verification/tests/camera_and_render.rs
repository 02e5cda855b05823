use ray_tracing_in_a_weekend::camera::Camera;
use ray_tracing_in_a_weekend::fixed::SCALE;
use ray_tracing_in_a_weekend::materials::{Diffuse, Material};
use ray_tracing_in_a_weekend::render::Render;
use ray_tracing_in_a_weekend::scene::Scene;
use ray_tracing_in_a_weekend::utilities::vec_to_color_array;
use ray_tracing_in_a_weekend::vector::Vec3;

#[test]
fn default_camera_fields() {
    // 16:9 viewport of height 2
    let aspect = (16 * SCALE) / 9;
    let camera = Camera::default(aspect, 2 * SCALE);
    assert_eq!(camera.width, 2 * aspect);
    assert_eq!(camera.height, 2 * SCALE);
    assert_eq!(camera.focal_length, SCALE);
    assert_eq!(camera.position, Vec3::zeros());
}

#[test]
fn top_left_of_default_camera() {
    let camera = Camera::default((16 * SCALE) / 9, 2 * SCALE);
    let tl = camera.top_left();
    assert_eq!(tl, Vec3::new(-(16 * SCALE) / 9, SCALE, -SCALE));
}

#[test]
fn center_ray_looks_down_negative_z() {
    let camera = Camera::default((16 * SCALE) / 9, 2 * SCALE);
    let ray = camera.cast_ray(SCALE / 2, SCALE / 2);
    assert_eq!(ray.origin, Vec3::zeros());
    assert_eq!(ray.direction, Vec3::new(0, 0, -SCALE));
}

#[test]
fn corner_ray_is_the_top_left() {
    let camera = Camera::default((16 * SCALE) / 9, 2 * SCALE);
    let ray = camera.cast_ray(0, 0);
    assert_eq!(ray.direction, camera.top_left());
}

#[test]
fn color_bytes_gamma_and_clamp() {
    // full white: every channel saturates
    assert_eq!(vec_to_color_array(&Vec3::new(SCALE, SCALE, SCALE)), [255, 255, 255]);
    // black stays black; negative light is clamped
    assert_eq!(vec_to_color_array(&Vec3::new(0, -5, 2 * SCALE)), [0, 0, 255]);
    // a quarter intensity becomes one half after gamma: 127 of 255
    assert_eq!(vec_to_color_array(&Vec3::new(SCALE / 4, SCALE / 4, SCALE / 4)), [127, 127, 127]);
}

#[test]
fn new_render_holds_the_black_image() {
    let render = Render::new(8, 4, 2, 3);
    let data = render.pixel_data();
    assert_eq!(data.len(), 8 * 4 * 3);
    assert!(data.iter().all(|&b| b == 0));
}

#[test]
fn render_fills_row_major_rgb_buffer() {
    let mut scene = Scene::new();
    scene.add_sphere(0, 0, -SCALE, SCALE / 2, Material::Diffuse(Diffuse::new(Vec3::new(
        45875, 45875, 0,
    ))));
    let camera = Camera::default((16 * SCALE) / 9, 2 * SCALE);
    let mut render = Render::new(8, 4, 2, 3);
    render.render(&camera, &scene);
    let data = render.pixel_data();
    assert_eq!(data.len(), 8 * 4 * 3);
    // a sky pixel at the top-left corner: blue-ish, blue at full brightness
    // after gamma
    assert_eq!(data[2], 255);
}
