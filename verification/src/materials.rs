//! The three surface models: diffuse (Lambertian), metal and dielectric.
//!
//! Each scatter function exists twice: a deterministic form that takes the
//! random draw as an argument and carries an exact contract, and the form the
//! tracer calls, which draws from the sampler and states what holds of every
//! outcome.

use vstd::prelude::*;
use vstd::arithmetic::div_mod::{lemma_div_is_ordered_by_denominator, lemma_div_of0};
use crate::fixed::{SCALE, fmul, fdiv, fsqrt, fx_mul, fx_div, fx_sqrt, lemma_tdiv_mag};
use crate::vector::{
    Vec3, Vec3i, in_ball, in_bounds, in_i64, vadd, vneg, vscale, vdot, vmag2, vunit, vreflect,
    vrefract, refract_cos, rdot, lemma_vdot_le, lemma_vscale_le, lemma_fmul_le,
    lemma_rdot_self_nonneg, lemma_tdiv_pos, lemma_tdiv_scale_cancel,
};
use crate::ray::{Ray, ray_wf, dir_ok, DIR_BOUND};
use crate::hittable::HitRecord;
use crate::rng::Sampler;
use crate::utilities::rand_point_in_unit_sphere;

verus! {

/// A linear-light color: every channel within `[0, 1]`.
pub open spec fn color_wf(c: Vec3i) -> bool {
    &&& 0 <= c.x <= SCALE as int
    &&& 0 <= c.y <= SCALE as int
    &&& 0 <= c.z <= SCALE as int
}

/// Lambertian surface.
#[derive(Clone, Copy, PartialEq, Eq, Structural, Debug)]
pub struct Diffuse {
    pub albedo: Vec3,
}

/// Reflective surface with a roughness parameter.
#[derive(Clone, Copy, PartialEq, Eq, Structural, Debug)]
pub struct Metal {
    pub albedo: Vec3,
    pub fuzz: i64,
}

/// Transparent surface with a refraction index.
#[derive(Clone, Copy, PartialEq, Eq, Structural, Debug)]
pub struct Dielectric {
    pub albedo: Vec3,
    pub refraction_index: i64,
}

/// The closed set of surface models, dispatched by matching.
#[derive(Clone, Copy, PartialEq, Eq, Structural, Debug)]
pub enum Material {
    Diffuse(Diffuse),
    Metal(Metal),
    Dielectric(Dielectric),
}

/// Smallest accepted refraction index: 1/16. The band `[1/16, 16]` is what
/// the 64-bit grid's overflow bounds need for the reciprocal ratio; physical
/// media sit far inside it.
pub const IOR_MIN: i64 = 4096;

/// Largest accepted refraction index: 16.
pub const IOR_MAX: i64 = 1048576;

/// The direction a Lambertian bounce takes for a given unit-ball sample: the
/// normal plus the sample, or the bare normal when that sum degenerates.
pub open spec fn diffuse_dir(normal: Vec3i, sample: Vec3i) -> Vec3i {
    let cand: Vec3i = vadd(normal, sample);
    if vmag2(cand) >= 1 {
        cand
    } else {
        normal
    }
}

impl Diffuse {
    pub fn new(albedo: Vec3) -> (r: Diffuse)
        ensures
            r.albedo == albedo,
    {
        Self { albedo }
    }

    pub open spec fn wf(self) -> bool {
        color_wf(self.albedo@)
    }

    /// The deterministic core of the Lambertian bounce, for a chosen sample.
    pub fn scatter_with(&self, hit: &HitRecord, sample: Vec3) -> (r: (Vec3, Ray))
        requires
            hit.wf(),
            in_bounds(sample@, SCALE as int),
        ensures
            r.0 == self.albedo,
            r.1.origin == hit.point,
            r.1.direction@ == diffuse_dir(hit.normal@, sample@),
            ray_wf(r.1),
            dir_ok(r.1.direction@),
    {
        let cand: Vec3 = hit.normal.add(&sample);
        proof {
            let s: int = SCALE as int;
            assert(3 * ((5 * s) * (5 * s)) <= (75 * s) * s) by (nonlinear_arith);
            lemma_vdot_le(cand@, cand@, 5 * s, 5 * s, 75 * s);
            lemma_rdot_self_nonneg(cand@);
            lemma_tdiv_pos(rdot(cand@, cand@), s);
        }
        let dir: Vec3 = if cand.magnitude_squared() >= 1 {
            cand
        } else {
            hit.normal
        };
        (self.albedo, Ray::new(hit.point, dir))
    }

    /// Lambertian scatter: always scatters, attenuating by the albedo.
    pub fn scatter(&self, _ray: &Ray, hit: &HitRecord, sampler: &mut Sampler) -> (r: Option<
        (Vec3, Ray),
    >)
        requires
            hit.wf(),
        ensures
            r is Some,
            r matches Some((att, sc)) ==> att == self.albedo && sc.origin == hit.point && ray_wf(sc)
                && dir_ok(sc.direction@) && (exists|p: Vec3i|
                in_bounds(p, SCALE as int) && 0 <= vmag2(p) < SCALE as int && sc.direction@
                    == #[trigger] diffuse_dir(hit.normal@, p)),
    {
        let sample: Vec3 = rand_point_in_unit_sphere(sampler);
        let r = self.scatter_with(hit, sample);
        proof {
            assert(r.1.direction@ == diffuse_dir(hit.normal@, sample@));
        }
        Some(r)
    }
}

/// The direction a metal bounce takes for a given unit-ball sample: the
/// mirror reflection of the normalized incident direction, perturbed by the
/// fuzz-scaled sample.
pub open spec fn metal_dir(d: Vec3i, n: Vec3i, fuzz: int, sample: Vec3i) -> Vec3i {
    vadd(vreflect(vunit(d), n), vscale(sample, fuzz))
}

impl Metal {
    pub fn new(albedo: Vec3, fuzz: i64) -> (r: Metal)
        ensures
            r.albedo == albedo,
            r.fuzz == fuzz,
    {
        Self { albedo, fuzz }
    }

    pub open spec fn wf(self) -> bool {
        color_wf(self.albedo@) && 0 <= self.fuzz <= SCALE
    }

    /// The deterministic core of the metal bounce, for a chosen sample.
    /// With `fuzz` zero the outgoing direction is exactly the mirror
    /// reflection, and the ray is scattered precisely when that reflection
    /// leaves the surface.
    pub fn scatter_with(&self, ray: &Ray, hit: &HitRecord, sample: Vec3) -> (r: Option<
        (Vec3, Ray),
    >)
        requires
            self.wf(),
            hit.wf(),
            ray_wf(*ray),
            vmag2(ray.direction@) >= 1,
            in_bounds(sample@, SCALE as int),
        ensures
            ({
                let dir = metal_dir(ray.direction@, hit.normal@, self.fuzz as int, sample@);
                &&& (r is Some <==> (vdot(dir, hit.normal@) > 0 && vmag2(dir) >= 1))
                &&& (r matches Some((att, sc)) ==> att == self.albedo && sc.origin == hit.point
                    && sc.direction@ == dir && ray_wf(sc) && dir_ok(sc.direction@) && vdot(
                    sc.direction@,
                    hit.normal@,
                ) > 0)
            }),
    {
        proof {
            let s: int = SCALE as int;
            let db: int = DIR_BOUND as int;
            assert(3 * (db * db) <= (0xC_0000_0000 as int) * s) by (nonlinear_arith)
                requires
                    db == 0x200_0000,
                    s == 65536,
            ;
            lemma_vdot_le(ray.direction@, ray.direction@, db, db, 0xC_0000_0000);
            lemma_rdot_self_nonneg(ray.direction@);
            lemma_tdiv_pos(rdot(ray.direction@, ray.direction@), s);
        }
        let ud: Vec3 = ray.direction.normalize();
        let refl: Vec3 = ud.reflect(&hit.normal);
        proof {
            let s: int = SCALE as int;
            lemma_vscale_le(sample@, self.fuzz as int, s, s, s);
            if self.fuzz == 0 {
                lemma_div_of0(s);
                assert(sample@.x * 0 == 0 && sample@.y * 0 == 0 && sample@.z * 0 == 0) by (nonlinear_arith);
            }
        }
        let fuzzed: Vec3 = sample.scale(self.fuzz);
        let cand: Vec3 = refl.add(&fuzzed);
        proof {
            let s: int = SCALE as int;
            assert(3 * ((401 * s) * (4 * s)) <= (4812 * s) * s && 3 * ((401 * s) * (401 * s)) <= (
            482403 * s) * s) by (nonlinear_arith)
                requires
                    s >= 0,
            ;
            lemma_vdot_le(cand@, hit.normal@, 401 * s, 4 * s, 4812 * s);
            lemma_vdot_le(cand@, cand@, 401 * s, 401 * s, 482403 * s);
        }
        if cand.dot(&hit.normal) > 0 {
            if cand.magnitude_squared() >= 1 {
                return Some((self.albedo, Ray::new(hit.point, cand)));
            }
        }
        None
    }

    /// Metal scatter: reflect about the normal with a fuzzed perturbation,
    /// absorbing rays that end up inside the surface. With zero fuzz the
    /// outcome does not depend on the draw: the ray scatters exactly when the
    /// mirror reflection leaves the surface and stays on the grid.
    pub fn scatter(&self, ray: &Ray, hit: &HitRecord, sampler: &mut Sampler) -> (r: Option<
        (Vec3, Ray),
    >)
        requires
            self.wf(),
            hit.wf(),
            ray_wf(*ray),
            vmag2(ray.direction@) >= 1,
        ensures
            r matches Some((att, sc)) ==> att == self.albedo && sc.origin == hit.point && ray_wf(sc)
                && dir_ok(sc.direction@) && vdot(sc.direction@, hit.normal@) > 0 && (exists|
                p: Vec3i,
            |
                in_bounds(p, SCALE as int) && 0 <= vmag2(p) < SCALE as int && sc.direction@
                    == #[trigger] metal_dir(
                    ray.direction@,
                    hit.normal@,
                    self.fuzz as int,
                    p,
                )),
            self.fuzz == 0 ==> (r is Some <==> (vdot(
                vreflect(vunit(ray.direction@), hit.normal@),
                hit.normal@,
            ) > 0 && vmag2(vreflect(vunit(ray.direction@), hit.normal@)) >= 1)),
            r is None ==> (exists|p: Vec3i|
                in_ball(p) && !(vdot(
                    #[trigger] metal_dir(ray.direction@, hit.normal@, self.fuzz as int, p),
                    hit.normal@,
                ) > 0 && vmag2(metal_dir(ray.direction@, hit.normal@, self.fuzz as int, p))
                    >= 1)),
    {
        let sample: Vec3 = rand_point_in_unit_sphere(sampler);
        let r = self.scatter_with(ray, hit, sample);
        proof {
            if self.fuzz == 0 {
                lemma_metal_mirror(ray.direction@, hit.normal@, sample@);
            }
            if r is Some {
                assert(r.unwrap().1.direction@ == metal_dir(
                    ray.direction@,
                    hit.normal@,
                    self.fuzz as int,
                    sample@,
                ));
            } else {
                assert(in_ball(sample@) && !(vdot(
                    metal_dir(ray.direction@, hit.normal@, self.fuzz as int, sample@),
                    hit.normal@,
                ) > 0 && vmag2(metal_dir(ray.direction@, hit.normal@, self.fuzz as int, sample@))
                    >= 1));
            }
        }
        r
    }
}

/// Fifth power on the fixed-point grid, one rounding per product.
pub open spec fn pow5(x: int) -> int {
    fmul(fmul(fmul(fmul(x, x), x), x), x)
}

/// Schlick's reflectance approximation
/// `r0 + (1 - r0)*(1 - cosine)^5`, `r0 = ((1 - n)/(1 + n))^2`.
pub open spec fn schlick(cosine: int, ref_idx: int) -> int {
    let q: int = fdiv(SCALE as int - ref_idx, SCALE as int + ref_idx);
    let r0: int = fmul(q, q);
    r0 + fmul(SCALE as int - r0, pow5(SCALE as int - cosine))
}

/// The ratio of refraction indices a dielectric uses on each side.
pub open spec fn dielectric_ratio(ior: int, front: bool) -> int {
    if front {
        fdiv(SCALE as int, ior)
    } else {
        ior
    }
}

/// Total internal reflection test: `ratio * sin(theta) > 1`, where a cosine
/// beyond the unit range also counts as non-refractable.
pub open spec fn cannot_refract_spec(cosine: int, ratio: int) -> bool {
    let s2: int = SCALE as int - fmul(cosine, cosine);
    s2 < 0 || fmul(ratio, fsqrt(s2)) > SCALE as int
}

/// Whether a dielectric reflects for a given draw from `[0, 1)`.
pub open spec fn dielectric_reflects(ud: Vec3i, n: Vec3i, ratio: int, draw: int) -> bool {
    cannot_refract_spec(refract_cos(ud, n), ratio) || draw < schlick(refract_cos(ud, n), ratio)
}

/// The direction a dielectric bounce takes for a given draw.
pub open spec fn dielectric_dir(ud: Vec3i, n: Vec3i, ratio: int, draw: int) -> Vec3i {
    if dielectric_reflects(ud, n, ratio, draw) {
        vreflect(ud, n)
    } else {
        vrefract(ud, n, ratio)
    }
}

impl Dielectric {
    /// A clear medium: the attenuation is white.
    pub fn new(refraction_index: i64) -> (r: Dielectric)
        ensures
            r.albedo@ == (Vec3i { x: SCALE as int, y: SCALE as int, z: SCALE as int }),
            r.refraction_index == refraction_index,
    {
        Self { albedo: Vec3::new(SCALE, SCALE, SCALE), refraction_index }
    }

    pub open spec fn wf(self) -> bool {
        color_wf(self.albedo@) && IOR_MIN <= self.refraction_index <= IOR_MAX
    }

    /// Schlick's approximation of angle-dependent reflectance.
    fn reflectance(cosine: i64, ref_idx: i64) -> (r: i64)
        requires
            -24 * SCALE <= cosine <= SCALE,
            0 < ref_idx <= 16 * SCALE,
        ensures
            r as int == schlick(cosine as int, ref_idx as int),
    {
        proof {
            let s: int = SCALE as int;
            lemma_fdiv_floor(s - ref_idx, s + ref_idx, 15 * s, s, 15 * s);
            assert((15 * s) * (15 * s) <= (225 * s) * s && (25 * s) * (25 * s) <= (625 * s) * s
                && (625 * s) * (25 * s) <= (15625 * s) * s && (15625 * s) * (25 * s) <= (390625 * s)
                * s && (390625 * s) * (25 * s) <= (9765625 * s) * s && (226 * s) * (9765625 * s)
                <= (2207031250 * s) * s) by (nonlinear_arith)
                requires
                    s >= 0,
            ;
        }
        let q: i64 = fx_div(SCALE - ref_idx, SCALE + ref_idx);
        proof {
            lemma_fmul_le(q as int, q as int, 15 * (SCALE as int), 15 * (SCALE as int), 225 * (
            SCALE as int));
            assert(q as int * q as int >= 0) by (nonlinear_arith);
            lemma_tdiv_pos(q as int * q as int, SCALE as int);
        }
        let r0: i64 = fx_mul(q, q);
        let omc: i64 = SCALE - cosine;
        proof {
            let s: int = SCALE as int;
            lemma_fmul_le(omc as int, omc as int, 25 * s, 25 * s, 625 * s);
        }
        let p2: i64 = fx_mul(omc, omc);
        proof {
            lemma_fmul_le(p2 as int, omc as int, 625 * (SCALE as int), 25 * (SCALE as int), 15625
                * (SCALE as int));
        }
        let p3: i64 = fx_mul(p2, omc);
        proof {
            lemma_fmul_le(p3 as int, omc as int, 15625 * (SCALE as int), 25 * (SCALE as int), 390625
                * (SCALE as int));
        }
        let p4: i64 = fx_mul(p3, omc);
        proof {
            lemma_fmul_le(p4 as int, omc as int, 390625 * (SCALE as int), 25 * (SCALE as int), 9765625
                * (SCALE as int));
        }
        let p5: i64 = fx_mul(p4, omc);
        proof {
            lemma_fmul_le(SCALE as int - r0 as int, p5 as int, 226 * (SCALE as int), 9765625 * (
            SCALE as int), 2207031250 * (SCALE as int));
        }
        r0 + fx_mul(SCALE - r0, p5)
    }

    /// The deterministic core of the dielectric bounce, for a chosen draw
    /// from `[0, 1)`: reflect under total internal reflection or when the
    /// draw falls below the Schlick reflectance, refract otherwise. The ray
    /// is scattered whenever the chosen direction stays on the grid.
    pub fn scatter_with(&self, ray: &Ray, hit: &HitRecord, draw: i64) -> (r: Option<(Vec3, Ray)>)
        requires
            self.wf(),
            hit.wf(),
            ray_wf(*ray),
            vmag2(ray.direction@) >= 1,
            0 <= draw < SCALE,
        ensures
            ({
                let ud = vunit(ray.direction@);
                let ratio = dielectric_ratio(self.refraction_index as int, hit.front);
                let dir = dielectric_dir(ud, hit.normal@, ratio, draw as int);
                &&& (r is Some <==> dir_ok(dir))
                &&& (r matches Some((att, sc)) ==> att == self.albedo && sc.origin == hit.point
                    && sc.direction@ == dir && ray_wf(sc) && dir_ok(sc.direction@))
            }),
    {
        proof {
            let s: int = SCALE as int;
            let db: int = DIR_BOUND as int;
            assert(3 * (db * db) <= (0xC_0000_0000 as int) * s) by (nonlinear_arith)
                requires
                    db == 0x200_0000,
                    s == 65536,
            ;
            lemma_vdot_le(ray.direction@, ray.direction@, db, db, 0xC_0000_0000);
            lemma_rdot_self_nonneg(ray.direction@);
            lemma_tdiv_pos(rdot(ray.direction@, ray.direction@), s);
            lemma_ratio_bounds(self.refraction_index as int);
        }
        let ratio: i64 = if hit.front {
            fx_div(SCALE, self.refraction_index)
        } else {
            self.refraction_index
        };
        let ud: Vec3 = ray.direction.normalize();
        proof {
            let s: int = SCALE as int;
            assert(3 * ((2 * s) * (4 * s)) <= (24 * s) * s) by (nonlinear_arith);
            lemma_vdot_le(vneg(ud@), hit.normal@, 2 * s, 4 * s, 24 * s);
        }
        let cos0: i64 = ud.neg().dot(&hit.normal);
        let cos: i64 = if cos0 > SCALE {
            SCALE
        } else {
            cos0
        };
        proof {
            let s: int = SCALE as int;
            assert((24 * s) * (24 * s) <= (576 * s) * s) by (nonlinear_arith);
            lemma_fmul_le(cos as int, cos as int, 24 * s, 24 * s, 576 * s);
            assert(cos as int * cos as int >= 0) by (nonlinear_arith);
            lemma_tdiv_pos(cos as int * cos as int, s);
        }
        let c2: i64 = fx_mul(cos, cos);
        let s2: i64 = SCALE - c2;
        let cannot_refract: bool = if s2 < 0 {
            true
        } else {
            proof {
                let s: int = SCALE as int;
                assert((s2 as int) * s <= s * s) by (nonlinear_arith)
                    requires
                        0 <= s2 as int <= s,
                ;
                crate::fixed::lemma_isqrt_le(s2 as int * s, s);
            }
            let sin: i64 = fx_sqrt(s2);
            proof {
                lemma_fmul_le(ratio as int, sin as int, 16 * (SCALE as int), SCALE as int, 16 * (
                SCALE as int));
            }
            fx_mul(ratio, sin) > SCALE
        };
        let will_reflect: bool = draw < Self::reflectance(cos, ratio);
        let dir: Vec3 = if cannot_refract || will_reflect {
            ud.reflect(&hit.normal)
        } else {
            ud.refract(&hit.normal, ratio)
        };
        proof {
            let s: int = SCALE as int;
            assert(3 * ((0x8_0000_0000 as int) * (0x8_0000_0000 as int)) <= (0xC0_0000_0000_0000
                as int) * s) by (nonlinear_arith)
                requires
                    s == 65536,
            ;
            lemma_vdot_le(dir@, dir@, 0x8_0000_0000, 0x8_0000_0000, 0xC0_0000_0000_0000);
            lemma_rdot_self_nonneg(dir@);
            lemma_tdiv_pos(rdot(dir@, dir@), s);
        }
        if dir.check_bounds(DIR_BOUND) {
            if dir.magnitude_squared() >= 1 {
                return Some((self.albedo, Ray::new(hit.point, dir)));
            }
        }
        None
    }

    /// Dielectric scatter: the attenuation is the near-white albedo, and the
    /// outgoing direction is always either the mirror reflection or the
    /// refraction of the normalized incident direction. The ray is scattered
    /// whenever both candidate directions stay on the grid, and under total
    /// internal reflection whenever the reflection does, whatever was drawn.
    pub fn scatter(&self, ray: &Ray, hit: &HitRecord, sampler: &mut Sampler) -> (r: Option<
        (Vec3, Ray),
    >)
        requires
            self.wf(),
            hit.wf(),
            ray_wf(*ray),
            vmag2(ray.direction@) >= 1,
        ensures
            r matches Some((att, sc)) ==> att == self.albedo && sc.origin == hit.point && ray_wf(sc)
                && dir_ok(sc.direction@) && (sc.direction@ == vreflect(
                vunit(ray.direction@),
                hit.normal@,
            ) || sc.direction@ == vrefract(
                vunit(ray.direction@),
                hit.normal@,
                dielectric_ratio(self.refraction_index as int, hit.front),
            )),
            ({
                let ud = vunit(ray.direction@);
                let ratio = dielectric_ratio(self.refraction_index as int, hit.front);
                &&& (cannot_refract_spec(refract_cos(ud, hit.normal@), ratio) && dir_ok(
                    vreflect(ud, hit.normal@),
                ) ==> r is Some)
                &&& (dir_ok(vreflect(ud, hit.normal@)) && dir_ok(
                    vrefract(ud, hit.normal@, ratio),
                ) ==> r is Some)
                &&& (r matches Some((att, sc)) ==> (exists|draw: int|
                    0 <= draw < SCALE as int && sc.direction@ == #[trigger] dielectric_dir(
                        ud,
                        hit.normal@,
                        ratio,
                        draw,
                    ) && dir_ok(sc.direction@)))
                &&& (r is None ==> (exists|draw: int|
                    0 <= draw < SCALE as int && !dir_ok(
                        #[trigger] dielectric_dir(ud, hit.normal@, ratio, draw),
                    )))
            }),
    {
        let draw: i64 = sampler.next_in(0, SCALE);
        let r = self.scatter_with(ray, hit, draw);
        proof {
            if r is Some {
                assert(r.unwrap().1.direction@ == dielectric_dir(
                    vunit(ray.direction@),
                    hit.normal@,
                    dielectric_ratio(self.refraction_index as int, hit.front),
                    draw as int,
                ));
            } else {
                assert(!dir_ok(dielectric_dir(
                    vunit(ray.direction@),
                    hit.normal@,
                    dielectric_ratio(self.refraction_index as int, hit.front),
                    draw as int,
                )));
            }
        }
        r
    }
}

/// Magnitude bound of a fixed-point quotient from a floor on its divisor.
proof fn lemma_fdiv_floor(a: int, b: int, ma: int, floor: int, bound: int)
    requires
        -ma <= a <= ma,
        0 <= ma,
        1 <= floor <= b,
        0 <= bound,
        ma * (SCALE as int) <= bound * floor,
    ensures
        -bound <= fdiv(a, b) <= bound,
{
    let s: int = SCALE as int;
    assert(-(ma * s) <= a * s <= ma * s && 0 <= ma * s) by (nonlinear_arith)
        requires
            -ma <= a <= ma,
            0 <= ma,
            s >= 0,
    ;
    lemma_tdiv_mag(a * s, b, ma * s);
    lemma_div_is_ordered_by_denominator(ma * s, floor, b);
    vstd::arithmetic::div_mod::lemma_div_is_ordered(ma * s, bound * floor, floor);
    vstd::arithmetic::div_mod::lemma_div_multiples_vanish(bound, floor);
    assert(bound * floor == floor * bound) by (nonlinear_arith);
}

/// Bounds of the side-dependent refraction ratio.
proof fn lemma_ratio_bounds(ior: int)
    requires
        IOR_MIN <= ior <= IOR_MAX,
    ensures
        1 <= fdiv(SCALE as int, ior) <= 16 * (SCALE as int),
{
    let s: int = SCALE as int;
    assert(s * s <= (16 * s) * (IOR_MIN as int)) by (nonlinear_arith)
        requires
            s == 65536,
            IOR_MIN as int == 4096,
    ;
    lemma_fdiv_floor(s, ior, s, IOR_MIN as int, 16 * s);
    assert(s * s == 0x1_0000_0000) by (nonlinear_arith)
        requires
            s == 65536,
    ;
    lemma_div_is_ordered_by_denominator(0x1_0000_0000, ior, 0x10_0000);
    vstd::arithmetic::div_mod::lemma_div_multiples_vanish(0x1000, 0x10_0000);
    assert((0x10_0000 as int) * 0x1000 == 0x1_0000_0000) by (nonlinear_arith);
}

impl Material {
    pub open spec fn wf(self) -> bool {
        match self {
            Material::Diffuse(m) => m.wf(),
            Material::Metal(m) => m.wf(),
            Material::Dielectric(m) => m.wf(),
        }
    }

    /// The attenuation color this material would apply.
    pub open spec fn albedo_spec(self) -> Vec3i {
        match self {
            Material::Diffuse(m) => m.albedo@,
            Material::Metal(m) => m.albedo@,
            Material::Dielectric(m) => m.albedo@,
        }
    }

    /// Decide whether the incoming ray scatters at the hit; if so, the
    /// attenuation is the material's albedo and the outgoing ray starts at
    /// the hit point with a direction the tracer can keep bouncing.
    /// A diffuse surface always scatters.
    pub fn scatter(&self, ray: &Ray, hit: &HitRecord, sampler: &mut Sampler) -> (r: Option<
        (Vec3, Ray),
    >)
        requires
            self.wf(),
            hit.wf(),
            ray_wf(*ray),
            vmag2(ray.direction@) >= 1,
        ensures
            r matches Some((att, sc)) ==> att@ == self.albedo_spec() && color_wf(att@) && sc.origin
                == hit.point && ray_wf(sc) && dir_ok(sc.direction@) && scatter_outcome(
                *self,
                *ray,
                hit@,
                Some((att@, sc.direction@)),
            ),
            r is None ==> scatter_outcome(*self, *ray, hit@, None),
            self is Diffuse ==> r is Some,
    {
        proof {
            assert(hit@.normal == hit.normal@ && hit@.front == hit.front);
        }
        match self {
            Material::Diffuse(m) => {
                let r = m.scatter(ray, hit, sampler);
                proof {
                    if r is Some {
                        let sc = r.unwrap().1;
                        let p = choose|p: Vec3i|
                            in_bounds(p, SCALE as int) && 0 <= vmag2(p) < SCALE as int
                                && sc.direction@ == #[trigger] diffuse_dir(hit.normal@, p);
                        assert(in_ball(p) && sc.direction@ == diffuse_dir(hit@.normal, p));
                    }
                }
                r
            },
            Material::Metal(m) => {
                let r = m.scatter(ray, hit, sampler);
                proof {
                    if r is Some {
                        let sc = r.unwrap().1;
                        let p = choose|p: Vec3i|
                            in_bounds(p, SCALE as int) && 0 <= vmag2(p) < SCALE as int
                                && sc.direction@ == #[trigger] metal_dir(
                                ray.direction@,
                                hit.normal@,
                                m.fuzz as int,
                                p,
                            );
                        assert(in_ball(p) && sc.direction@ == metal_dir(
                            ray.direction@,
                            hit@.normal,
                            m.fuzz as int,
                            p,
                        ));
                    } else {
                        let p = choose|p: Vec3i|
                            in_ball(p) && !(vdot(
                                #[trigger] metal_dir(ray.direction@, hit.normal@, m.fuzz as int, p),
                                hit.normal@,
                            ) > 0 && vmag2(metal_dir(ray.direction@, hit.normal@, m.fuzz as int, p))
                                >= 1);
                        assert(in_ball(p) && !(vdot(
                            metal_dir(ray.direction@, hit@.normal, m.fuzz as int, p),
                            hit@.normal,
                        ) > 0 && vmag2(metal_dir(ray.direction@, hit@.normal, m.fuzz as int, p))
                            >= 1));
                    }
                }
                r
            },
            Material::Dielectric(m) => {
                let r = m.scatter(ray, hit, sampler);
                proof {
                    let ud = vunit(ray.direction@);
                    let ratio = dielectric_ratio(m.refraction_index as int, hit.front);
                    if r is Some {
                        let sc = r.unwrap().1;
                        let draw = choose|draw: int|
                            0 <= draw < SCALE as int && sc.direction@ == #[trigger] dielectric_dir(
                                ud,
                                hit.normal@,
                                ratio,
                                draw,
                            );
                        assert(0 <= draw < SCALE as int && sc.direction@ == dielectric_dir(
                            ud,
                            hit@.normal,
                            dielectric_ratio(m.refraction_index as int, hit@.front),
                            draw,
                        ));
                    } else {
                        let draw = choose|draw: int|
                            0 <= draw < SCALE as int && !dir_ok(
                                #[trigger] dielectric_dir(ud, hit.normal@, ratio, draw),
                            );
                        assert(0 <= draw < SCALE as int && !dir_ok(dielectric_dir(
                            ud,
                            hit@.normal,
                            dielectric_ratio(m.refraction_index as int, hit@.front),
                            draw,
                        )));
                    }
                }
                r
            },
        }
    }
}

/// One decision the material model allows at a hit: for some draw of the
/// sampler the material yields this attenuation and outgoing direction, or
/// this absorption.
pub open spec fn scatter_outcome(m: Material, ray: Ray, h: crate::hittable::HitInfo, out: Option<
    (Vec3i, Vec3i),
>) -> bool {
    match m {
        Material::Diffuse(dm) => match out {
            Some(o) => o.0 == dm.albedo@ && (exists|p: Vec3i|
                in_ball(p) && o.1 == #[trigger] diffuse_dir(h.normal, p)),
            None => false,
        },
        Material::Metal(mm) => match out {
            Some(o) => o.0 == mm.albedo@ && (exists|p: Vec3i|
                in_ball(p) && o.1 == #[trigger] metal_dir(ray.direction@, h.normal, mm.fuzz as int, p))
                && vdot(o.1, h.normal) > 0 && vmag2(o.1) >= 1,
            None => exists|p: Vec3i|
                in_ball(p) && !(vdot(
                    #[trigger] metal_dir(ray.direction@, h.normal, mm.fuzz as int, p),
                    h.normal,
                ) > 0 && vmag2(metal_dir(ray.direction@, h.normal, mm.fuzz as int, p)) >= 1),
        },
        Material::Dielectric(dm) => {
            let ud = vunit(ray.direction@);
            let ratio = dielectric_ratio(dm.refraction_index as int, h.front);
            match out {
                Some(o) => o.0 == dm.albedo@ && (exists|draw: int|
                    0 <= draw < SCALE as int && o.1 == #[trigger] dielectric_dir(
                        ud,
                        h.normal,
                        ratio,
                        draw,
                    )) && dir_ok(o.1),
                None => exists|draw: int|
                    0 <= draw < SCALE as int && !dir_ok(
                        #[trigger] dielectric_dir(ud, h.normal, ratio, draw),
                    ),
            }
        },
    }
}

/// A valid material's albedo is a valid color.
pub proof fn lemma_albedo_wf(m: Material)
    requires
        m.wf(),
    ensures
        color_wf(m.albedo_spec()),
{
    match m {
        Material::Diffuse(_) => {},
        Material::Metal(_) => {},
        Material::Dielectric(_) => {},
    }
}

/// Law: a refraction index of one gives a ratio of one on both sides of the
/// surface.
pub proof fn lemma_ratio_one(front: bool)
    ensures
        dielectric_ratio(SCALE as int, front) == SCALE as int,
{
    lemma_tdiv_scale_cancel(SCALE as int);
}

/// Law: at ratio one, total internal reflection never occurs — refraction is
/// geometrically possible at every incidence angle whose cosine lies in the
/// unit range.
pub proof fn lemma_ratio_one_always_refracts(cosine: int)
    requires
        fmul(cosine, cosine) <= SCALE as int,
    ensures
        !cannot_refract_spec(cosine, SCALE as int),
{
    let s: int = SCALE as int;
    assert(cosine * cosine >= 0) by (nonlinear_arith);
    lemma_tdiv_pos(cosine * cosine, s);
    let s2: int = s - fmul(cosine, cosine);
    assert(s2 * s <= s * s) by (nonlinear_arith)
        requires
            0 <= s2 <= s,
    ;
    crate::fixed::lemma_isqrt_le(s2 * s, s);
    crate::fixed::lemma_isqrt(s2 * s);
    let sin: int = fsqrt(s2);
    assert(s * sin == sin * s) by (nonlinear_arith);
    crate::fixed::lemma_fmul_unit_range(sin, s);
}

/// Law: a metal with zero fuzz is a perfect mirror. For every sample the
/// perturbation vanishes and the outgoing direction is exactly the analytic
/// reflection of the normalized incident direction.
pub proof fn lemma_metal_mirror(d: Vec3i, n: Vec3i, sample: Vec3i)
    ensures
        metal_dir(d, n, 0, sample) == vreflect(vunit(d), n),
{
    lemma_div_of0(SCALE as int);
    assert(sample.x * 0 == 0 && sample.y * 0 == 0 && sample.z * 0 == 0) by (nonlinear_arith);
}

} // verus!
