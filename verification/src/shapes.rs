//! Sphere primitives and their ray intersection.

use vstd::prelude::*;
use crate::fixed::{SCALE, fmul, fdiv, fsqrt, fx_mul, fx_sqrt, fx_div, lemma_tdiv_mag, lemma_isqrt_le};
use crate::vector::{
    Vec3, Vec3i, in_bounds, in_i64, vadd, vsub, vneg, vdot, vmag2, vdivc, vscale, rdot,
    lemma_vdot_le, lemma_vscale_le, lemma_rdot_self_nonneg, lemma_tdiv_pos,
};
use crate::ray::{Ray, ray_at, ray_wf, POS_BOUND, DIR_BOUND, HORIZON};
use crate::hittable::{HitRecord, HitInfo, opt_view};
use crate::materials::Material;

verus! {

/// The grid margin a well-formed sphere keeps to the coordinate bound:
/// 256 world units, far above any rounding of the intersection arithmetic.
pub const GRID_MARGIN: i64 = 0x100_0000;

/// Smallest accepted radius: about 1/1000 of a world unit, so the outward
/// normal never degenerates by division alone.
pub const RAD_MIN: i64 = 64;

/// A sphere with its material.
#[derive(Clone, Copy, PartialEq, Eq, Structural, Debug)]
pub struct Sphere {
    pub position: Vec3,
    pub radius: i64,
    pub material: Material,
}

impl Sphere {
    /// A sphere is well formed when the whole ball sits inside the coordinate
    /// grid with a margin, the radius lies in its band, and the material is
    /// valid. The margin keeps honest hits of well-formed spheres away from
    /// the grid edge that `hit`'s representability guards watch.
    pub open spec fn wf(self) -> bool {
        &&& in_bounds(self.position@, POS_BOUND - GRID_MARGIN - self.radius)
        &&& RAD_MIN <= self.radius <= DIR_BOUND
        &&& self.material.wf()
    }

    pub fn new(position: Vec3, radius: i64, material: Material) -> (r: Sphere)
        ensures
            r.position == position,
            r.radius == radius,
            r.material == material,
    {
        Self { position, radius, material }
    }

    /// The outward geometric normal at a point: `(p - center)/radius`.
    pub fn normal(&self, p: &Vec3) -> (r: Vec3)
        requires
            self.wf(),
            in_bounds(p@, POS_BOUND as int),
        ensures
            r@ == vdivc(vsub(p@, self.position@), self.radius as int),
    {
        proof {
            lemma_outward_in_i64(vsub(p@, self.position@), self.radius as int);
        }
        let d: Vec3 = p.sub(&self.position);
        d.div(self.radius)
    }

    /// Nearest intersection of `ray` with this sphere inside `[t_min, t_max]`,
    /// or none. Mirrors `sphere_hit_spec` exactly: the quadratic is solved on
    /// the fixed-point grid and the smaller admissible root is preferred.
    /// The geometry is promised within the working grid only: a root whose
    /// hit point leaves the coordinate grid (`POS_BOUND`, 2048 world units
    /// per axis) or whose outward normal degenerates below one raw step is
    /// reported as a miss, so "none" means "no admissible root with a
    /// representable record", not "no real root".
    pub fn hit(&self, ray: &Ray, t_min: i64, t_max: i64) -> (r: Option<HitRecord>)
        requires
            self.wf(),
            ray_wf(*ray),
            0 < t_min,
            t_max <= HORIZON,
        ensures
            opt_view(r) == sphere_hit_spec(*self, *ray, t_min as int, t_max as int),
            r matches Some(rec) ==> rec.wf() && t_min <= rec.t <= t_max && rec.material
                == self.material,
            r is Some ==> vmag2(ray.direction@) >= 1,
    {
        let ghost pb: int = POS_BOUND as int;
        let ghost db: int = DIR_BOUND as int;
        let ghost s: int = SCALE as int;
        proof {
            assert(3 * ((2 * pb) * db) <= (0x60_0000_0000 as int) * s && 3 * (db * db) <= (
            0xC_0000_0000 as int) * s && 3 * ((2 * pb) * (2 * pb)) <= (0x300_0000_0000 as int) * s
                && db * db <= (0x4_0000_0000 as int) * s) by (nonlinear_arith)
                requires
                    pb == 0x800_0000,
                    db == 0x200_0000,
                    s == 65536,
            ;
            lemma_vdot_le(ray.direction@, ray.direction@, db, db, 0xC_0000_0000);
            lemma_rdot_self_nonneg(ray.direction@);
            lemma_tdiv_pos(rdot(ray.direction@, ray.direction@), s);
        }
        let oc: Vec3 = ray.origin.sub(&self.position);
        let a: i64 = ray.direction.magnitude_squared();
        proof {
            lemma_vdot_le(oc@, ray.direction@, 2 * pb, db, 0x60_0000_0000);
            lemma_vdot_le(oc@, oc@, 2 * pb, 2 * pb, 0x300_0000_0000);
            lemma_rdot_self_nonneg(oc@);
            lemma_tdiv_pos(rdot(oc@, oc@), s);
            crate::vector::lemma_fmul_le(
                self.radius as int,
                self.radius as int,
                db,
                db,
                0x4_0000_0000,
            );
        }
        let half_b: i64 = oc.dot(&ray.direction);
        let c: i64 = oc.magnitude_squared() - fx_mul(self.radius, self.radius);
        if a <= 0 {
            // a degenerate direction meets nothing
            return None;
        }
        proof {
            assert((0x60_0000_0000 as int) * (0x60_0000_0000 as int) <= (0x2400_0000_0000_0000
                as int) * s && (0xC_0000_0000 as int) * (0x304_0000_0000 as int) <= (
            0x2430_0000_0000_0000 as int) * s) by (nonlinear_arith)
                requires
                    s == 65536,
            ;
            crate::vector::lemma_fmul_le(
                half_b as int,
                half_b as int,
                0x60_0000_0000,
                0x60_0000_0000,
                0x2400_0000_0000_0000,
            );
            crate::vector::lemma_fmul_le(
                a as int,
                c as int,
                0xC_0000_0000,
                0x304_0000_0000,
                0x2430_0000_0000_0000,
            );
        }
        let disc: i64 = fx_mul(half_b, half_b) - fx_mul(a, c);
        if disc < 0 {
            return None;
        }
        proof {
            assert((disc as int) * s <= (0x100_0000_0000 as int) * (0x100_0000_0000 as int))
                by (nonlinear_arith)
                requires
                    0 <= disc as int <= 0x7fff_ffff_ffff_ffff,
                    s == 65536,
            ;
            lemma_isqrt_le(disc as int * s, 0x100_0000_0000);
        }
        let dsqrt: i64 = fx_sqrt(disc);
        proof {
            lemma_root_in_i64((-half_b - dsqrt) as int, a as int);
            lemma_root_in_i64((-half_b + dsqrt) as int, a as int);
        }
        let mut root: i64 = fx_div(-half_b - dsqrt, a);
        if root < t_min || t_max < root {
            root = fx_div(-half_b + dsqrt, a);
            if root < t_min || t_max < root {
                return None;
            }
        }
        proof {
            assert(db * (HORIZON as int) <= (0x20_0000_0000 as int) * s) by (nonlinear_arith)
                requires
                    db == 0x200_0000,
                    s == 65536,
                    HORIZON as int == 0x1000_0000,
            ;
            lemma_vscale_le(ray.direction@, root as int, db, HORIZON as int, 0x20_0000_0000);
        }
        let p: Vec3 = ray.at(root);
        if !p.check_bounds(POS_BOUND) {
            return None;
        }
        proof {
            lemma_outward_in_i64(vsub(p@, self.position@), self.radius as int);
        }
        let normal_out: Vec3 = p.sub(&self.position).div(self.radius);
        if !normal_out.check_bounds(4 * SCALE) {
            return None;
        }
        proof {
            assert(3 * ((4 * s) * (4 * s)) <= (48 * s) * s) by (nonlinear_arith);
            lemma_vdot_le(normal_out@, normal_out@, 4 * s, 4 * s, 48 * s);
            lemma_rdot_self_nonneg(normal_out@);
            lemma_tdiv_pos(rdot(normal_out@, normal_out@), s);
        }
        if normal_out.magnitude_squared() < 1 {
            return None;
        }
        let rec: HitRecord = HitRecord::new(ray, root, normal_out, self.material);
        proof {
            let nv: Vec3i = normal_out@;
            assert((-nv.x) * (-nv.x) == nv.x * nv.x) by (nonlinear_arith);
            assert((-nv.y) * (-nv.y) == nv.y * nv.y) by (nonlinear_arith);
            assert((-nv.z) * (-nv.z) == nv.z * nv.z) by (nonlinear_arith);
            assert(rdot(vneg(nv), vneg(nv)) == rdot(nv, nv));
        }
        Some(rec)
    }
}

/// The full intersection routine as a mathematical function: quadratic
/// coefficients, discriminant, preferred smaller root, grid checks, and the
/// oriented normal, all in exact fixed-point arithmetic.
pub open spec fn sphere_hit_spec(sp: Sphere, ray: Ray, t_min: int, t_max: int) -> Option<HitInfo> {
    let oc: Vec3i = vsub(ray.origin@, sp.position@);
    let a: int = vdot(ray.direction@, ray.direction@);
    let half_b: int = vdot(oc, ray.direction@);
    let c: int = vdot(oc, oc) - fmul(sp.radius as int, sp.radius as int);
    if a <= 0 {
        None
    } else {
        let disc: int = fmul(half_b, half_b) - fmul(a, c);
        if disc < 0 {
            None
        } else {
            let dsqrt: int = fsqrt(disc);
            let r1: int = fdiv(-half_b - dsqrt, a);
            let r2: int = fdiv(-half_b + dsqrt, a);
            if t_min <= r1 <= t_max {
                sphere_hit_at(sp, ray, r1)
            } else if t_min <= r2 <= t_max {
                sphere_hit_at(sp, ray, r2)
            } else {
                None
            }
        }
    }
}

/// The record built for a root that lies in range, or none where the point or
/// the normal leaves the fixed-point grid.
pub open spec fn sphere_hit_at(sp: Sphere, ray: Ray, root: int) -> Option<HitInfo> {
    let p: Vec3i = ray_at(ray, root);
    if !in_bounds(p, POS_BOUND as int) {
        None
    } else {
        let normal_out: Vec3i = vdivc(vsub(p, sp.position@), sp.radius as int);
        if !in_bounds(normal_out, 4 * (SCALE as int)) || vmag2(normal_out) < 1 {
            None
        } else {
            let front: bool = vdot(ray.direction@, normal_out) < 0;
            Some(
                HitInfo {
                    t: root,
                    point: p,
                    normal: if front {
                        normal_out
                    } else {
                        vneg(normal_out)
                    },
                    front: front,
                    material: sp.material,
                },
            )
        }
    }
}

/// Law: the raw outward normal points away from the center. Componentwise,
/// `(p - center)/radius` keeps the sign of `p - center`, so the two vectors
/// never oppose each other. (That the normal has exactly unit length holds in
/// exact arithmetic; on the grid each component is rounded toward zero.)
pub proof fn lemma_normal_outward(d: Vec3i, radius: int)
    requires
        radius >= 1,
    ensures
        rdot(vdivc(d, radius), d) >= 0,
        d.x >= 0 ==> vdivc(d, radius).x >= 0,
        d.x <= 0 ==> vdivc(d, radius).x <= 0,
        d.y >= 0 ==> vdivc(d, radius).y >= 0,
        d.y <= 0 ==> vdivc(d, radius).y <= 0,
        d.z >= 0 ==> vdivc(d, radius).z >= 0,
        d.z <= 0 ==> vdivc(d, radius).z <= 0,
{
    lemma_outward_sign(d.x, radius);
    lemma_outward_sign(d.y, radius);
    lemma_outward_sign(d.z, radius);
    assert(fdiv(d.x, radius) * d.x >= 0) by (nonlinear_arith)
        requires
            (d.x >= 0 && fdiv(d.x, radius) >= 0) || (d.x <= 0 && fdiv(d.x, radius) <= 0),
    ;
    assert(fdiv(d.y, radius) * d.y >= 0) by (nonlinear_arith)
        requires
            (d.y >= 0 && fdiv(d.y, radius) >= 0) || (d.y <= 0 && fdiv(d.y, radius) <= 0),
    ;
    assert(fdiv(d.z, radius) * d.z >= 0) by (nonlinear_arith)
        requires
            (d.z >= 0 && fdiv(d.z, radius) >= 0) || (d.z <= 0 && fdiv(d.z, radius) <= 0),
    ;
}

/// Fixed-point division by a positive scalar keeps a component's sign.
proof fn lemma_outward_sign(c: int, radius: int)
    requires
        radius >= 1,
    ensures
        c >= 0 ==> fdiv(c, radius) >= 0,
        c <= 0 ==> fdiv(c, radius) <= 0,
{
    let s: int = SCALE as int;
    if c >= 0 {
        assert(c * s >= 0) by (nonlinear_arith)
            requires
                c >= 0,
                s >= 0,
        ;
        vstd::arithmetic::div_mod::lemma_div_pos_is_pos(c * s, radius);
    } else {
        assert(-(c * s) >= 0) by (nonlinear_arith)
            requires
                c <= 0,
                s >= 0,
        ;
        vstd::arithmetic::div_mod::lemma_div_pos_is_pos(-(c * s), radius);
    }
}

/// Dividing a grid difference by a positive radius stays representable.
proof fn lemma_outward_in_i64(d: Vec3i, radius: int)
    requires
        in_bounds(d, 2 * (POS_BOUND as int)),
        radius >= 1,
    ensures
        in_bounds(vdivc(d, radius), 0x1_0000_0000_0000),
{
    lemma_outward_component(d.x, radius);
    lemma_outward_component(d.y, radius);
    lemma_outward_component(d.z, radius);
}

proof fn lemma_outward_component(c: int, radius: int)
    requires
        -2 * (POS_BOUND as int) <= c <= 2 * (POS_BOUND as int),
        radius >= 1,
    ensures
        -0x1_0000_0000_0000 <= fdiv(c, radius) <= 0x1_0000_0000_0000,
{
    assert(-0x1_0000_0000_0000 <= c * (SCALE as int) <= 0x1_0000_0000_0000) by (nonlinear_arith)
        requires
            -0x1000_0000 <= c <= 0x1000_0000,
            SCALE as int == 65536,
    ;
    lemma_tdiv_mag(c * (SCALE as int), radius, 0x1_0000_0000_0000);
}

/// A quotient of the quadratic stays representable.
proof fn lemma_root_in_i64(num: int, a: int)
    requires
        -0x200_0000_0000 <= num <= 0x200_0000_0000,
        a >= 1,
    ensures
        in_i64(fdiv(num, a)),
{
    assert((-0x200_0000_0000 * 65536) <= num * (SCALE as int) <= (0x200_0000_0000 * 65536))
        by (nonlinear_arith)
        requires
            -0x200_0000_0000 <= num <= 0x200_0000_0000,
            SCALE as int == 65536,
    ;
    lemma_tdiv_mag(num * (SCALE as int), a, (0x200_0000_0000 * 65536) as int);
}

} // verus!
