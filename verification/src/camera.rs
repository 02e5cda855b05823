//! The pinhole camera: image-plane fractions to world-space rays.

use vstd::prelude::*;
use vstd::arithmetic::div_mod::{
    lemma_div_pos_is_pos, lemma_div_is_ordered_by_denominator, lemma_div_of0,
};
use crate::fixed::{SCALE, fmul, fdiv, fx_mul};
use crate::vector::{
    Vec3, Vec3i, in_bounds, vadd, vsub, vscale, vdivc, lemma_vscale_le, lemma_fmul_le,
    lemma_tdiv_scale_cancel,
};
use crate::ray::{Ray, ray_wf, POS_BOUND};

verus! {

/// Largest viewport extent and focal length: 16 world units.
pub const CAM_MAX: i64 = 0x10_0000;

/// A pinhole camera at `position`, looking down the negative z axis onto a
/// viewport of `width` by `height` world units at distance `focal_length`.
/// Derived vectors are recomputed on demand rather than cached.
#[derive(Clone, Copy, PartialEq, Eq, Structural, Debug)]
pub struct Camera {
    pub width: i64,
    pub height: i64,
    pub focal_length: i64,
    pub position: Vec3,
}

/// The viewport's horizontal extent as a vector.
pub open spec fn cam_horizontal(c: Camera) -> Vec3i {
    Vec3i { x: c.width as int, y: 0, z: 0 }
}

/// The viewport's vertical extent as a vector.
pub open spec fn cam_vertical(c: Camera) -> Vec3i {
    Vec3i { x: 0, y: c.height as int, z: 0 }
}

/// The world-space point behind the image's top-left corner:
/// `position - horizontal/2 + vertical/2 - (0, 0, focal_length)`.
pub open spec fn cam_top_left(c: Camera) -> Vec3i {
    vsub(
        vadd(
            vsub(c.position@, vdivc(cam_horizontal(c), 2 * SCALE as int)),
            vdivc(cam_vertical(c), 2 * SCALE as int),
        ),
        Vec3i { x: 0, y: 0, z: c.focal_length as int },
    )
}

/// The direction of the ray through image fractions `(u, v)`:
/// `top_left + u*horizontal - v*vertical - position`.
pub open spec fn cam_ray_dir(c: Camera, u: int, v: int) -> Vec3i {
    vsub(
        vsub(vadd(cam_top_left(c), vscale(cam_horizontal(c), u)), vscale(cam_vertical(c), v)),
        c.position@,
    )
}

impl Camera {
    pub open spec fn wf(self) -> bool {
        &&& 0 < self.width <= CAM_MAX
        &&& 0 < self.height <= CAM_MAX
        &&& 0 < self.focal_length <= CAM_MAX
        &&& in_bounds(self.position@, (POS_BOUND / 2) as int)
    }

    /// The camera the renderer starts from: a viewport of
    /// `zoom * aspect_ratio` by `zoom` world units, focal length one, at the
    /// origin.
    pub fn default(aspect_ratio: i64, zoom: i64) -> (r: Camera)
        requires
            0 < aspect_ratio <= 4 * SCALE,
            0 < zoom <= 4 * SCALE,
            fmul(zoom as int, aspect_ratio as int) >= 1,
        ensures
            r.width as int == fmul(zoom as int, aspect_ratio as int),
            r.height == zoom,
            r.focal_length == SCALE,
            r.position@ == (Vec3i { x: 0, y: 0, z: 0 }),
            r.wf(),
    {
        proof {
            let s: int = SCALE as int;
            assert((4 * s) * (4 * s) <= (16 * s) * s) by (nonlinear_arith);
            lemma_fmul_le(zoom as int, aspect_ratio as int, 4 * s, 4 * s, 16 * s);
        }
        Camera {
            width: fx_mul(zoom, aspect_ratio),
            height: zoom,
            focal_length: SCALE,
            position: Vec3::zeros(),
        }
    }

    pub fn horizontal_vec(&self) -> (r: Vec3)
        ensures
            r@ == cam_horizontal(*self),
    {
        Vec3::new(self.width, 0, 0)
    }

    pub fn vertical_vec(&self) -> (r: Vec3)
        ensures
            r@ == cam_vertical(*self),
    {
        Vec3::new(0, self.height, 0)
    }

    /// The viewport's top-left corner in world space.
    pub fn top_left(&self) -> (r: Vec3)
        requires
            self.wf(),
        ensures
            r@ == cam_top_left(*self),
            in_bounds(r@, (POS_BOUND / 2) as int + 3 * (CAM_MAX as int)),
    {
        proof {
            lemma_halving(self.width as int);
            lemma_halving(self.height as int);
            lemma_fdiv_zero();
        }
        let horizontal: Vec3 = self.horizontal_vec();
        let vertical: Vec3 = self.vertical_vec();
        let half_h: Vec3 = horizontal.div(2 * SCALE);
        let half_v: Vec3 = vertical.div(2 * SCALE);
        self.position.sub(&half_h).add(&half_v).sub(&Vec3::new(0, 0, self.focal_length))
    }

    /// The ray from the camera through image fractions `(u, v)`.
    pub fn cast_ray(&self, u: i64, v: i64) -> (r: Ray)
        requires
            self.wf(),
            0 <= u <= SCALE,
            0 <= v <= SCALE,
        ensures
            r.origin == self.position,
            r.direction@ == cam_ray_dir(*self, u as int, v as int),
            ray_wf(r),
    {
        proof {
            let s: int = SCALE as int;
            let cm: int = CAM_MAX as int;
            lemma_vscale_le(cam_horizontal(*self), u as int, cm, s, cm);
            lemma_vscale_le(cam_vertical(*self), v as int, cm, s, cm);
            lemma_halving(self.width as int);
            lemma_halving(self.height as int);
            lemma_fdiv_zero();
        }
        let origin: Vec3 = self.position;
        let tl: Vec3 = self.top_left();
        let uh: Vec3 = self.horizontal_vec().scale(u);
        let vv: Vec3 = self.vertical_vec().scale(v);
        let direction: Vec3 = tl.add(&uh).sub(&vv).sub(&self.position);
        Ray { origin, direction }
    }
}

/// Halving a nonnegative viewport extent keeps it within the extent.
proof fn lemma_halving(a: int)
    requires
        0 <= a <= CAM_MAX as int,
    ensures
        0 <= fdiv(a, 2 * SCALE as int) <= a,
{
    let s: int = SCALE as int;
    assert(0 <= a * s) by (nonlinear_arith)
        requires
            a >= 0,
            s >= 0,
    ;
    lemma_div_pos_is_pos(a * s, 2 * s);
    lemma_div_is_ordered_by_denominator(a * s, s, 2 * s);
    lemma_tdiv_scale_cancel(a);
}

/// Scaling or halving zero gives zero.
proof fn lemma_fdiv_zero()
    ensures
        fdiv(0, 2 * SCALE as int) == 0,
        forall|u: int| #[trigger] fmul(0, u) == 0,
{
    lemma_div_of0(2 * SCALE as int);
    lemma_div_of0(SCALE as int);
    assert forall|u: int| #[trigger] fmul(0, u) == 0 by {
        assert(0 * u == 0) by (nonlinear_arith);
        lemma_div_of0(SCALE as int);
    }
}

} // verus!
