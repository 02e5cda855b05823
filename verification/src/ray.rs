//! Rays: an origin and an unnormalized direction, with point evaluation.

use vstd::prelude::*;
use crate::vector::{Vec3, Vec3i, vadd, vscale, v_in_i64, in_bounds, vmag2};

verus! {

/// Largest coordinate magnitude of ray origins, sphere centers and hit
/// points: 2048 world units on the fixed-point grid.
pub const POS_BOUND: i64 = 0x800_0000;

/// Largest component magnitude of a ray direction: 512 world units.
pub const DIR_BOUND: i64 = 0x200_0000;

/// The ray parameter that stands in for infinity: 4096 direction lengths.
pub const HORIZON: i64 = 0x1000_0000;

/// The small positive ray parameter that suppresses self-intersection of
/// bounce rays (about 1/1000).
pub const T_EPS: i64 = 64;

/// A ray the tracer can work with: origin and direction on the grid.
pub open spec fn ray_wf(r: Ray) -> bool {
    in_bounds(r.origin@, POS_BOUND as int) && in_bounds(r.direction@, DIR_BOUND as int)
}

/// A direction a bounce can continue with: representable and not degenerate.
pub open spec fn dir_ok(d: Vec3i) -> bool {
    in_bounds(d, DIR_BOUND as int) && vmag2(d) >= 1
}

/// A ray through the scene; the direction's magnitude carries meaning for
/// parameter scaling, so it is not normalized on construction.
#[derive(Clone, Copy, PartialEq, Eq, Structural, Debug)]
pub struct Ray {
    pub origin: Vec3,
    pub direction: Vec3,
}

/// The point `origin + t*direction` in fixed-point arithmetic.
pub open spec fn ray_at(r: Ray, t: int) -> Vec3i {
    vadd(r.origin@, vscale(r.direction@, t))
}

impl Ray {
    pub fn new(origin: Vec3, direction: Vec3) -> (r: Ray)
        ensures
            r.origin == origin,
            r.direction == direction,
    {
        Self { origin, direction }
    }

    pub fn default() -> (r: Ray)
        ensures
            r.origin@ == (Vec3i { x: 0, y: 0, z: 0 }),
            r.direction@ == (Vec3i { x: 0, y: 0, z: 0 }),
    {
        Ray { origin: Vec3::zeros(), direction: Vec3::zeros() }
    }

    /// The point at parameter `t` along the ray.
    pub fn at(&self, t: i64) -> (p: Vec3)
        requires
            v_in_i64(vscale(self.direction@, t as int)),
            v_in_i64(ray_at(*self, t as int)),
        ensures
            p@ == ray_at(*self, t as int),
    {
        let d: Vec3 = self.direction.scale(t);
        self.origin.add(&d)
    }
}

} // verus!
