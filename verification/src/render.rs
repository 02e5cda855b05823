//! The render loop: jittered samples per pixel, averaged, gamma-corrected and
//! quantized into a row-major RGB byte buffer.

use vstd::prelude::*;
use vstd::arithmetic::div_mod::{lemma_div_pos_is_pos, lemma_div_is_ordered, lemma_div_multiples_vanish};
use crate::fixed::{SCALE, tdiv};
use crate::vector::{Vec3, Vec3i, vadd};
use crate::ray::Ray;
use crate::rng::Sampler;
use crate::camera::{Camera, cam_ray_dir};
use crate::scene::{Scene, ray_color_outcome, black};
use crate::hittable::Hittable;
use crate::utilities::{vec_to_color_array, color_byte};

verus! {

/// A color some jittered sample ray through pixel `(x, y)` can resolve to:
/// for two jitter fractions from `[0, 1)` there is a camera ray through
/// `((x + ju)/width, (y + jv)/height)` whose recursive resolution allows it.
pub open spec fn pixel_sample_outcome(
    objs: Seq<Hittable>,
    camera: Camera,
    x: int,
    y: int,
    width: int,
    height: int,
    depth: int,
    col: Vec3i,
) -> bool {
    exists|ju: int, jv: int, r: Ray|
        #![trigger cam_ray_dir(camera, tdiv(x * SCALE + ju, width), tdiv(y * SCALE + jv, height)), ray_color_outcome(objs, r, depth, col)]
        0 <= ju < SCALE && 0 <= jv < SCALE && r.origin == camera.position && r.direction@
            == cam_ray_dir(camera, tdiv(x * SCALE + ju, width), tdiv(y * SCALE + jv, height))
            && ray_color_outcome(objs, r, depth, col)
}

/// The componentwise sum of a sequence of colors.
pub open spec fn color_sum(cols: Seq<Vec3i>) -> Vec3i
    decreases cols.len(),
{
    if cols.len() == 0 {
        black()
    } else {
        vadd(color_sum(cols.drop_last()), cols.last())
    }
}

/// The three bytes of pixel `(x, y)` are the quantized per-channel average of
/// `samples` colors, each one an admissible jittered sample of that pixel.
pub open spec fn pixel_bytes_outcome(
    objs: Seq<Hittable>,
    camera: Camera,
    x: int,
    y: int,
    width: int,
    height: int,
    samples: int,
    depth: int,
    b0: int,
    b1: int,
    b2: int,
) -> bool {
    exists|cols: Seq<Vec3i>|
        #![trigger color_sum(cols)]
        cols.len() == samples && (forall|k: int|
            0 <= k < cols.len() ==> pixel_sample_outcome(
                objs,
                camera,
                x,
                y,
                width,
                height,
                depth,
                #[trigger] cols[k],
            )) && b0 == color_byte(tdiv(color_sum(cols).x, samples)) && b1 == color_byte(
            tdiv(color_sum(cols).y, samples),
        ) && b2 == color_byte(tdiv(color_sum(cols).z, samples))
}

/// The byte offset of pixel `(x, y)` in the row-major RGB buffer.
pub open spec fn pix_idx(yi: int, xi: int, width: int) -> int {
    3 * (yi * width + xi)
}

/// The seed the renderer starts its sampler from, so that renders are
/// reproducible.
pub const DEFAULT_SEED: u64 = 4857;

/// Largest image extent in pixels.
pub const IMG_MAX: u64 = 4096;

/// Largest number of samples per pixel.
pub const SAMPLES_MAX: u64 = 65536;

/// A render target: the image buffer and the sampling configuration.
pub struct Render {
    pub pixels: Vec<u8>,
    pub width: u64,
    pub height: u64,
    pub samples_per_pixel: u64,
    pub sampler: Sampler,
    pub max_ray_depth: u64,
}

impl View for Render {
    type V = Seq<u8>;

    open spec fn view(&self) -> Seq<u8> {
        self.pixels@
    }
}

impl Render {
    pub open spec fn wf(self) -> bool {
        &&& 0 < self.width <= IMG_MAX
        &&& 0 < self.height <= IMG_MAX
        &&& 0 < self.samples_per_pixel <= SAMPLES_MAX
    }

    /// A fresh render target whose buffer already holds the all-black image.
    pub fn new(width: u64, height: u64, samples: u64, depth: u64) -> (r: Render)
        requires
            0 < width <= IMG_MAX,
            0 < height <= IMG_MAX,
            0 < samples <= SAMPLES_MAX,
        ensures
            r.width == width,
            r.height == height,
            r.samples_per_pixel == samples,
            r.max_ray_depth == depth,
            r@.len() == 3 * width * height,
            forall|i: int| 0 <= i < r@.len() ==> r@[i] == 0,
            r.wf(),
    {
        proof {
            assert((3 * width) * height <= 0x300_0000 && (3 * width) * height == 3 * width
                * height) by (nonlinear_arith)
                requires
                    width <= 4096,
                    height <= 4096,
            ;
        }
        let count: u64 = 3 * width * height;
        let mut pixels: Vec<u8> = Vec::new();
        let mut i: u64 = 0;
        while i < count
            invariant
                i <= count,
                pixels@.len() == i,
                forall|j: int| 0 <= j < pixels@.len() ==> pixels@[j] == 0,
            decreases count - i,
        {
            pixels.push(0);
            i = i + 1;
        }
        Render {
            pixels,
            width,
            height,
            samples_per_pixel: samples,
            sampler: Sampler::new(DEFAULT_SEED),
            max_ray_depth: depth,
        }
    }

    /// The rendered bytes: three per pixel, rows top to bottom.
    pub fn pixel_data(&self) -> (r: &Vec<u8>)
        ensures
            r@ == self@,
    {
        &self.pixels
    }

    /// Renders the scene through the camera into the pixel buffer: each
    /// pixel's three bytes are the quantized average of the colors that
    /// `samples_per_pixel` admissible jittered rays through that pixel can
    /// resolve to.
    pub fn render(&mut self, camera: &Camera, scene: &Scene)
        requires
            camera.wf(),
            scene.wf(),
            old(self).wf(),
        ensures
            final(self)@.len() == 3 * old(self).width * old(self).height,
            final(self).width == old(self).width,
            final(self).height == old(self).height,
            final(self).samples_per_pixel == old(self).samples_per_pixel,
            final(self).max_ray_depth == old(self).max_ray_depth,
            final(self).wf(),
            forall|xi: int, yi: int|
                0 <= xi < old(self).width && 0 <= yi < old(self).height
                    ==> #[trigger] pixel_bytes_outcome(
                    scene@,
                    *camera,
                    xi,
                    yi,
                    old(self).width as int,
                    old(self).height as int,
                    old(self).samples_per_pixel as int,
                    old(self).max_ray_depth as int,
                    final(self)@[pix_idx(yi, xi, old(self).width as int)] as int,
                    final(self)@[pix_idx(yi, xi, old(self).width as int) + 1] as int,
                    final(self)@[pix_idx(yi, xi, old(self).width as int) + 2] as int,
                ),
    {
        let width: u64 = self.width;
        let height: u64 = self.height;
        let samples: u64 = self.samples_per_pixel;
        let depth: u64 = self.max_ray_depth;
        let px: Vec<u8> = render_pixels(
            camera,
            scene,
            &mut self.sampler,
            width,
            height,
            samples,
            depth,
        );
        self.pixels = px;
    }
}

/// One pixel's color: the average of `samples` jittered rays, one ray per
/// draw of two jitter fractions.
fn sample_pixel(
    camera: &Camera,
    scene: &Scene,
    sampler: &mut Sampler,
    x: u64,
    y: u64,
    width: u64,
    height: u64,
    samples: u64,
    depth: u64,
) -> (r: [u8; 3])
    requires
        camera.wf(),
        scene.wf(),
        x < width <= IMG_MAX,
        y < height <= IMG_MAX,
        0 < samples <= SAMPLES_MAX,
    ensures
        pixel_bytes_outcome(
            scene@,
            *camera,
            x as int,
            y as int,
            width as int,
            height as int,
            samples as int,
            depth as int,
            r[0] as int,
            r[1] as int,
            r[2] as int,
        ),
{
    let ghost mut cols: Seq<Vec3i> = Seq::empty();
    let mut sum_x: i64 = 0;
    let mut sum_y: i64 = 0;
    let mut sum_z: i64 = 0;
    let mut k: u64 = 0;
    while k < samples
        invariant
            camera.wf(),
            scene.wf(),
            x < width <= IMG_MAX,
            y < height <= IMG_MAX,
            0 < samples <= SAMPLES_MAX,
            k <= samples,
            0 <= sum_x <= k * 65536,
            0 <= sum_y <= k * 65536,
            0 <= sum_z <= k * 65536,
            cols.len() == k,
            sum_x == color_sum(cols).x,
            sum_y == color_sum(cols).y,
            sum_z == color_sum(cols).z,
            forall|j: int|
                0 <= j < cols.len() ==> pixel_sample_outcome(
                    scene@,
                    *camera,
                    x as int,
                    y as int,
                    width as int,
                    height as int,
                    depth as int,
                    #[trigger] cols[j],
                ),
        decreases samples - k,
    {
        let ju: i64 = sampler.next_in(0, SCALE);
        let jv: i64 = sampler.next_in(0, SCALE);
        let u: i64 = pixel_fraction(x, ju, width);
        let v: i64 = pixel_fraction(y, jv, height);
        let ray: Ray = camera.cast_ray(u, v);
        let color: Vec3 = scene.ray_color(&ray, depth, sampler);
        proof {
            assert(cam_ray_dir(
                *camera,
                tdiv(x as int * SCALE + ju, width as int),
                tdiv(y as int * SCALE + jv, height as int),
            ) == ray.direction@);
            assert(ray_color_outcome(scene@, ray, depth as int, color@));
            assert(pixel_sample_outcome(
                scene@,
                *camera,
                x as int,
                y as int,
                width as int,
                height as int,
                depth as int,
                color@,
            ));
            assert((cols.push(color@)).drop_last() =~= cols);
            assert(color_sum(cols.push(color@)) == vadd(color_sum(cols), color@));
            cols = cols.push(color@);
        }
        sum_x = sum_x + color.x;
        sum_y = sum_y + color.y;
        sum_z = sum_z + color.z;
        k = k + 1;
    }
    let avg: Vec3 = Vec3::new(
        average(sum_x, samples, k),
        average(sum_y, samples, k),
        average(sum_z, samples, k),
    );
    let bytes: [u8; 3] = vec_to_color_array(&avg);
    proof {
        assert(bytes[0] as int == color_byte(tdiv(color_sum(cols).x, samples as int)) && bytes[1]
            as int == color_byte(tdiv(color_sum(cols).y, samples as int)) && bytes[2] as int
            == color_byte(tdiv(color_sum(cols).z, samples as int)));
        assert(pixel_bytes_outcome(
            scene@,
            *camera,
            x as int,
            y as int,
            width as int,
            height as int,
            samples as int,
            depth as int,
            bytes[0] as int,
            bytes[1] as int,
            bytes[2] as int,
        ));
    }
    bytes
}

/// The image-plane fraction of pixel `i` with jitter `j`: `(i + j)/extent`.
fn pixel_fraction(i: u64, j: i64, extent: u64) -> (r: i64)
    requires
        i < extent <= IMG_MAX,
        0 <= j < SCALE,
    ensures
        0 <= r <= SCALE,
        r as int == crate::fixed::tdiv(i * SCALE + j, extent as int),
{
    let n: u64 = i * (SCALE as u64) + (j as u64);
    proof {
        assert(n < extent * (SCALE as u64)) by (nonlinear_arith)
            requires
                n == i * 65536 + j,
                0 <= j < 65536,
                i < extent,
        ;
        assert(n / extent < 65536) by {
            vstd::arithmetic::div_mod::lemma_multiply_divide_lt(n as int, extent as int, 65536);
            assert(extent as int * 65536 == 65536 * (extent as int)) by (nonlinear_arith);
        }
        lemma_div_pos_is_pos(n as int, extent as int);
    }
    (n / extent) as i64
}

/// The average of a channel sum over the sample count.
fn average(sum: i64, samples: u64, k: u64) -> (r: i64)
    requires
        0 < samples,
        k == samples,
        0 <= sum <= k * 65536,
    ensures
        0 <= r <= SCALE,
        r as int == crate::fixed::tdiv(sum as int, samples as int),
{
    proof {
        lemma_div_pos_is_pos(sum as int, samples as int);
        lemma_div_is_ordered(sum as int, samples as int * 65536, samples as int);
        lemma_div_multiples_vanish(65536, samples as int);
        assert(samples as int * 65536 == 65536 * (samples as int)) by (nonlinear_arith);
    }
    ((sum as u64) / samples) as i64
}

/// The whole image: pixels in row-major order, three bytes per pixel.
fn render_pixels(
    camera: &Camera,
    scene: &Scene,
    sampler: &mut Sampler,
    width: u64,
    height: u64,
    samples: u64,
    depth: u64,
) -> (px: Vec<u8>)
    requires
        camera.wf(),
        scene.wf(),
        0 < width <= IMG_MAX,
        0 < height <= IMG_MAX,
        0 < samples <= SAMPLES_MAX,
    ensures
        px@.len() == 3 * width * height,
        forall|xi: int, yi: int|
            0 <= xi < width && 0 <= yi < height ==> #[trigger] pixel_bytes_outcome(
                scene@,
                *camera,
                xi,
                yi,
                width as int,
                height as int,
                samples as int,
                depth as int,
                px@[pix_idx(yi, xi, width as int)] as int,
                px@[pix_idx(yi, xi, width as int) + 1] as int,
                px@[pix_idx(yi, xi, width as int) + 2] as int,
            ),
{
    let mut px: Vec<u8> = Vec::new();
    let mut y: u64 = 0;
    while y < height
        invariant
            camera.wf(),
            scene.wf(),
            0 < width <= IMG_MAX,
            0 < height <= IMG_MAX,
            0 < samples <= SAMPLES_MAX,
            y <= height,
            px@.len() == 3 * y * width,
            forall|xi: int, yi: int|
                0 <= xi < width && 0 <= yi < y ==> #[trigger] pixel_bytes_outcome(
                    scene@,
                    *camera,
                    xi,
                    yi,
                    width as int,
                    height as int,
                    samples as int,
                    depth as int,
                    px@[pix_idx(yi, xi, width as int)] as int,
                    px@[pix_idx(yi, xi, width as int) + 1] as int,
                    px@[pix_idx(yi, xi, width as int) + 2] as int,
                ),
        decreases height - y,
    {
        let mut x: u64 = 0;
        while x < width
            invariant
                camera.wf(),
                scene.wf(),
                0 < width <= IMG_MAX,
                0 < height <= IMG_MAX,
                0 < samples <= SAMPLES_MAX,
                y < height,
                x <= width,
                px@.len() == 3 * y * width + 3 * x,
                forall|xi: int, yi: int|
                    (0 <= xi < width && 0 <= yi < y) || (0 <= xi < x && yi == y)
                        ==> #[trigger] pixel_bytes_outcome(
                        scene@,
                        *camera,
                        xi,
                        yi,
                        width as int,
                        height as int,
                        samples as int,
                        depth as int,
                        px@[pix_idx(yi, xi, width as int)] as int,
                        px@[pix_idx(yi, xi, width as int) + 1] as int,
                        px@[pix_idx(yi, xi, width as int) + 2] as int,
                    ),
            decreases width - x,
        {
            let pixel: [u8; 3] = sample_pixel(
                camera,
                scene,
                sampler,
                x,
                y,
                width,
                height,
                samples,
                depth,
            );
            let ghost px_old: Seq<u8> = px@;
            px.push(pixel[0]);
            px.push(pixel[1]);
            px.push(pixel[2]);
            proof {
                assert(pix_idx(y as int, x as int, width as int) == 3 * (y as int) * width + 3 * (
                x as int)) by (nonlinear_arith);
                assert forall|xi: int, yi: int|
                    (0 <= xi < width && 0 <= yi < y) || (0 <= xi < x + 1 && yi == y) implies 0
                    <= #[trigger] pix_idx(yi, xi, width as int) && pix_idx(yi, xi, width as int)
                    + 2 < px@.len() && px@[pix_idx(yi, xi, width as int)] == (if yi == y && xi == x {
                    pixel[0]
                } else {
                    px_old[pix_idx(yi, xi, width as int)]
                }) && px@[pix_idx(yi, xi, width as int) + 1] == (if yi == y && xi == x {
                    pixel[1]
                } else {
                    px_old[pix_idx(yi, xi, width as int) + 1]
                }) && px@[pix_idx(yi, xi, width as int) + 2] == (if yi == y && xi == x {
                    pixel[2]
                } else {
                    px_old[pix_idx(yi, xi, width as int) + 2]
                }) by {
                    assert(0 <= yi * width + xi && (yi < y ==> yi * width + xi < y * width) && (
                    yi == y ==> yi * width + xi == y * width + xi)) by (nonlinear_arith)
                        requires
                            (0 <= xi < width && 0 <= yi < y) || (0 <= xi < x + 1 && yi == y),
                            width >= 1,
                    ;
                    assert(3 * (yi * width + xi) + 2 < px@.len()) by (nonlinear_arith)
                        requires
                            0 <= yi * width + xi,
                            (yi < y ==> yi * width + xi < y * width) && (yi == y ==> yi * width
                                + xi == y * width + xi),
                            (0 <= xi < width && 0 <= yi < y) || (0 <= xi < x + 1 && yi == y),
                            px@.len() == 3 * y * width + 3 * x + 3,
                    ;
                    assert(!(yi == y && xi == x) ==> 3 * (yi * width + xi) + 2 < px_old.len())
                        by (nonlinear_arith)
                        requires
                            0 <= yi * width + xi,
                            (yi < y ==> yi * width + xi < y * width) && (yi == y ==> yi * width
                                + xi == y * width + xi),
                            (0 <= xi < width && 0 <= yi < y) || (0 <= xi < x + 1 && yi == y),
                            px_old.len() == 3 * y * width + 3 * x,
                    ;
                }
            }
            x = x + 1;
        }
        proof {
            assert(3 * (y + 1) * width == 3 * y * width + 3 * width) by (nonlinear_arith);
        }
        y = y + 1;
    }
    proof {
        assert(3 * height * width == 3 * width * height) by (nonlinear_arith);
    }
    px
}

} // verus!
