//! Three-component fixed-point vectors, used for points, directions and
//! linear-light colors alike.
//!
//! Every executable operation returns exactly the value of its spec
//! counterpart over `Vec3i`, the unbounded integer model of a vector.

use vstd::prelude::*;
use crate::fixed::{SCALE, tdiv, fmul, fdiv, fsqrt, fx_mul, fx_div, fx_sqrt};
use crate::fixed::{lemma_tdiv_mag, lemma_isqrt, lemma_isqrt_le};
use vstd::arithmetic::div_mod::{
    lemma_fundamental_div_mod,
    lemma_mod_division_less_than_divisor,
    lemma_div_multiples_vanish,
    lemma_div_of0,
};

verus! {

/// Mathematical model of a vector: three unbounded integers, each a multiple
/// of `1/SCALE`.
pub ghost struct Vec3i {
    pub x: int,
    pub y: int,
    pub z: int,
}

/// A fixed-point 3-vector.
#[derive(Clone, Copy, PartialEq, Eq, Structural, Debug)]
pub struct Vec3 {
    pub x: i64,
    pub y: i64,
    pub z: i64,
}

impl View for Vec3 {
    type V = Vec3i;

    open spec fn view(&self) -> Vec3i {
        Vec3i { x: self.x as int, y: self.y as int, z: self.z as int }
    }
}

/// Every component lies in `[-m, m]`.
pub open spec fn in_bounds(v: Vec3i, m: int) -> bool {
    &&& -m <= v.x <= m
    &&& -m <= v.y <= m
    &&& -m <= v.z <= m
}

/// The value fits an `i64` (symmetrically, so that negation is always safe).
pub open spec fn in_i64(v: int) -> bool {
    -0x7fff_ffff_ffff_ffff <= v <= 0x7fff_ffff_ffff_ffff
}

/// Every component fits an `i64`.
pub open spec fn v_in_i64(v: Vec3i) -> bool {
    in_i64(v.x) && in_i64(v.y) && in_i64(v.z)
}

/// Largest component magnitude the dot product accepts; generous enough for
/// every quantity the tracer forms, small enough that the raw sum of three
/// products fits an `i128`.
pub const DOT_BOUND: i64 = 0x1_0000_0000_0000;

pub open spec fn vadd(a: Vec3i, b: Vec3i) -> Vec3i {
    Vec3i { x: a.x + b.x, y: a.y + b.y, z: a.z + b.z }
}

pub open spec fn vsub(a: Vec3i, b: Vec3i) -> Vec3i {
    Vec3i { x: a.x - b.x, y: a.y - b.y, z: a.z - b.z }
}

pub open spec fn vneg(a: Vec3i) -> Vec3i {
    Vec3i { x: -a.x, y: -a.y, z: -a.z }
}

/// Componentwise fixed-point scaling.
pub open spec fn vscale(a: Vec3i, s: int) -> Vec3i {
    Vec3i { x: fmul(a.x, s), y: fmul(a.y, s), z: fmul(a.z, s) }
}

/// Componentwise product (color attenuation).
pub open spec fn vcmul(a: Vec3i, b: Vec3i) -> Vec3i {
    Vec3i { x: fmul(a.x, b.x), y: fmul(a.y, b.y), z: fmul(a.z, b.z) }
}

/// Componentwise fixed-point division by a positive scalar.
pub open spec fn vdivc(a: Vec3i, s: int) -> Vec3i {
    Vec3i { x: fdiv(a.x, s), y: fdiv(a.y, s), z: fdiv(a.z, s) }
}

/// Raw dot product: scaled by `SCALE * SCALE`, no rounding.
pub open spec fn rdot(a: Vec3i, b: Vec3i) -> int {
    a.x * b.x + a.y * b.y + a.z * b.z
}

/// Fixed-point dot product: the raw sum re-scaled once, rounded toward zero.
pub open spec fn vdot(a: Vec3i, b: Vec3i) -> int {
    tdiv(rdot(a, b), SCALE as int)
}

/// Fixed-point squared magnitude.
pub open spec fn vmag2(a: Vec3i) -> int {
    vdot(a, a)
}

/// Fixed-point magnitude.
pub open spec fn vmag(a: Vec3i) -> int {
    fsqrt(vmag2(a))
}

/// Fixed-point normalization (defined for `vmag(a) > 0`).
pub open spec fn vunit(a: Vec3i) -> Vec3i {
    vdivc(a, vmag(a))
}

/// Linear interpolation `a*(1-t) + b*t`, `t` a fixed-point fraction.
pub open spec fn vlerp(a: Vec3i, b: Vec3i, t: int) -> Vec3i {
    vadd(vscale(a, SCALE as int - t), vscale(b, t))
}

/// Fixed-point mirror reflection `d - 2*dot(d,n)*n`.
pub open spec fn vreflect(d: Vec3i, n: Vec3i) -> Vec3i {
    vsub(d, vscale(n, 2 * vdot(d, n)))
}

/// The cosine used by refraction: `min(dot(-d, n), 1)`.
pub open spec fn refract_cos(d: Vec3i, n: Vec3i) -> int {
    let c: int = vdot(vneg(d), n);
    if c > SCALE as int {
        SCALE as int
    } else {
        c
    }
}

/// Fixed-point refraction by Snell's law in vector form: the perpendicular
/// part `ratio*(d + cos*n)` plus the parallel part `-sqrt(|1 - |perp|^2|)*n`.
pub open spec fn vrefract(d: Vec3i, n: Vec3i, ratio: int) -> Vec3i {
    let c: int = refract_cos(d, n);
    let perp: Vec3i = vscale(vadd(d, vscale(n, c)), ratio);
    let k: int = SCALE as int - vmag2(perp);
    let s: int = fsqrt(if k >= 0 { k } else { -k });
    vsub(perp, vscale(n, s))
}

impl Vec3 {
    /// The vector `(x, y, z)` of raw fixed-point components.
    pub fn new(x: i64, y: i64, z: i64) -> (r: Vec3)
        ensures
            r@ == (Vec3i { x: x as int, y: y as int, z: z as int }),
    {
        Vec3 { x, y, z }
    }

    /// The zero vector.
    pub fn zeros() -> (r: Vec3)
        ensures
            r@ == (Vec3i { x: 0, y: 0, z: 0 }),
    {
        Vec3 { x: 0, y: 0, z: 0 }
    }

    pub fn add(&self, o: &Vec3) -> (r: Vec3)
        requires
            v_in_i64(vadd(self@, o@)),
        ensures
            r@ == vadd(self@, o@),
    {
        Vec3 { x: self.x + o.x, y: self.y + o.y, z: self.z + o.z }
    }

    pub fn sub(&self, o: &Vec3) -> (r: Vec3)
        requires
            v_in_i64(vsub(self@, o@)),
        ensures
            r@ == vsub(self@, o@),
    {
        Vec3 { x: self.x - o.x, y: self.y - o.y, z: self.z - o.z }
    }

    pub fn neg(&self) -> (r: Vec3)
        requires
            v_in_i64(self@),
        ensures
            r@ == vneg(self@),
    {
        Vec3 { x: -self.x, y: -self.y, z: -self.z }
    }

    /// Fixed-point scaling of every component by `s`.
    pub fn scale(&self, s: i64) -> (r: Vec3)
        requires
            v_in_i64(vscale(self@, s as int)),
        ensures
            r@ == vscale(self@, s as int),
    {
        Vec3 { x: fx_mul(self.x, s), y: fx_mul(self.y, s), z: fx_mul(self.z, s) }
    }

    /// Componentwise product; used to attenuate colors.
    pub fn component_mul(&self, o: &Vec3) -> (r: Vec3)
        requires
            v_in_i64(vcmul(self@, o@)),
        ensures
            r@ == vcmul(self@, o@),
    {
        Vec3 { x: fx_mul(self.x, o.x), y: fx_mul(self.y, o.y), z: fx_mul(self.z, o.z) }
    }

    /// Fixed-point division of every component by a positive scalar.
    pub fn div(&self, s: i64) -> (r: Vec3)
        requires
            s > 0,
            v_in_i64(vdivc(self@, s as int)),
        ensures
            r@ == vdivc(self@, s as int),
    {
        Vec3 { x: fx_div(self.x, s), y: fx_div(self.y, s), z: fx_div(self.z, s) }
    }

    /// Fixed-point dot product.
    pub fn dot(&self, o: &Vec3) -> (r: i64)
        requires
            in_bounds(self@, DOT_BOUND as int),
            in_bounds(o@, DOT_BOUND as int),
            in_i64(vdot(self@, o@)),
        ensures
            r as int == vdot(self@, o@),
    {
        proof {
            let bb: int = 0x1_0000_0000_0000;
            assert((self.x as int * o.x as int) <= bb * bb && -(bb * bb) <= self.x as int * o.x
                as int) by (nonlinear_arith)
                requires
                    -bb <= self.x as int <= bb,
                    -bb <= o.x as int <= bb,
            ;
            assert((self.y as int * o.y as int) <= bb * bb && -(bb * bb) <= self.y as int * o.y
                as int) by (nonlinear_arith)
                requires
                    -bb <= self.y as int <= bb,
                    -bb <= o.y as int <= bb,
            ;
            assert((self.z as int * o.z as int) <= bb * bb && -(bb * bb) <= self.z as int * o.z
                as int) by (nonlinear_arith)
                requires
                    -bb <= self.z as int <= bb,
                    -bb <= o.z as int <= bb,
            ;
        }
        let xx: i128 = (self.x as i128) * (o.x as i128);
        let yy: i128 = (self.y as i128) * (o.y as i128);
        let zz: i128 = (self.z as i128) * (o.z as i128);
        let s: i128 = xx + yy + zz;
        let neg: bool = s < 0;
        let sm: u128 = if s < 0 {
            (-s) as u128
        } else {
            s as u128
        };
        let q: u128 = sm / (SCALE as u128);
        if neg {
            -(q as i64)
        } else {
            q as i64
        }
    }

    /// Fixed-point squared magnitude.
    pub fn magnitude_squared(&self) -> (r: i64)
        requires
            in_bounds(self@, DOT_BOUND as int),
            in_i64(vdot(self@, self@)),
        ensures
            r as int == vmag2(self@),
            r >= 0,
    {
        proof {
            lemma_rdot_self_nonneg(self@);
            lemma_tdiv_pos(rdot(self@, self@), SCALE as int);
        }
        self.dot(self)
    }

    /// Whether every component lies within `[-m, m]`.
    pub fn check_bounds(&self, m: i64) -> (b: bool)
        requires
            m >= 0,
        ensures
            b == in_bounds(self@, m as int),
    {
        -m <= self.x && self.x <= m && -m <= self.y && self.y <= m && -m <= self.z && self.z <= m
    }

    /// Fixed-point magnitude.
    pub fn magnitude(&self) -> (r: i64)
        requires
            in_bounds(self@, DOT_BOUND as int),
            in_i64(vmag2(self@)),
        ensures
            r as int == vmag(self@),
            r >= 0,
    {
        let m2: i64 = self.magnitude_squared();
        fx_sqrt(m2)
    }

    /// Fixed-point normalization; the caller guards against near-zero input,
    /// as a squared magnitude under one raw step leaves no direction to keep.
    pub fn normalize(&self) -> (r: Vec3)
        requires
            in_bounds(self@, DOT_BOUND as int),
            in_i64(vmag2(self@)),
            vmag2(self@) >= 1,
        ensures
            r@ == vunit(self@),
            in_bounds(r@, 2 * (SCALE as int)),
            vmag(self@) >= 256,
    {
        proof {
            lemma_vunit_bounds(self@);
        }
        let m2: i64 = self.magnitude_squared();
        let m: i64 = fx_sqrt(m2);
        Vec3 { x: fx_div(self.x, m), y: fx_div(self.y, m), z: fx_div(self.z, m) }
    }

    /// Linear interpolation `self*(1-t) + o*t` for a fraction `t`.
    pub fn lerp(&self, o: &Vec3, t: i64) -> (r: Vec3)
        requires
            0 <= t <= SCALE,
            in_bounds(self@, DOT_BOUND as int),
            in_bounds(o@, DOT_BOUND as int),
        ensures
            r@ == vlerp(self@, o@, t as int),
    {
        proof {
            lemma_vscale_le(self@, SCALE as int - t, DOT_BOUND as int, SCALE as int, DOT_BOUND as int);
            lemma_vscale_le(o@, t as int, DOT_BOUND as int, SCALE as int, DOT_BOUND as int);
        }
        let u: Vec3 = self.scale(SCALE - t);
        let v: Vec3 = o.scale(t);
        u.add(&v)
    }

    /// Mirror reflection `self - 2*dot(self, normal)*normal`; callers hand in
    /// unit-scale vectors.
    pub fn reflect(&self, normal: &Vec3) -> (r: Vec3)
        requires
            in_bounds(self@, 4 * (SCALE as int)),
            in_bounds(normal@, 4 * (SCALE as int)),
        ensures
            r@ == vreflect(self@, normal@),
            in_bounds(r@, 400 * (SCALE as int)),
    {
        proof {
            let s: int = SCALE as int;
            assert(3 * ((4 * s) * (4 * s)) <= (48 * s) * s && (4 * s) * (96 * s) <= (384 * s)
                * s) by (nonlinear_arith)
                requires
                    s >= 0,
            ;
            lemma_vdot_le(self@, normal@, 4 * (SCALE as int), 4 * (SCALE as int), 48 * (
            SCALE as int));
            lemma_vscale_le(
                normal@,
                2 * vdot(self@, normal@),
                4 * (SCALE as int),
                96 * (SCALE as int),
                384 * (SCALE as int),
            );
        }
        let k: i64 = 2 * self.dot(normal);
        let w: Vec3 = normal.scale(k);
        self.sub(&w)
    }

    /// Refraction by Snell's law in vector form; callers hand in unit-scale
    /// vectors and a positive ratio of refraction indices.
    pub fn refract(&self, normal: &Vec3, refraction_ratio: i64) -> (r: Vec3)
        requires
            in_bounds(self@, 4 * (SCALE as int)),
            in_bounds(normal@, 4 * (SCALE as int)),
            0 < refraction_ratio <= 16 * (SCALE as int),
        ensures
            r@ == vrefract(self@, normal@, refraction_ratio as int),
            in_bounds(r@, 0x8_0000_0000),
    {
        let s4: Ghost<int> = Ghost(4 * (SCALE as int));
        proof {
            let s: int = SCALE as int;
            assert(3 * ((4 * s) * (4 * s)) <= (48 * s) * s && (4 * s) * (48 * s) <= (192 * s) * s
                && (196 * s) * (16 * s) <= (3136 * s) * s && 3 * ((3136 * s) * (3136 * s)) <= (
            29503488 * s) * s && (4 * s) * 0x2000_0000 <= 0x8000_0000 * s) by (nonlinear_arith)
                requires
                    s >= 0,
            ;
            lemma_vdot_le(vneg(self@), normal@, s4@, s4@, 48 * (SCALE as int));
        }
        let negd: Vec3 = self.neg();
        let c0: i64 = negd.dot(normal);
        let cos: i64 = if c0 > SCALE {
            SCALE
        } else {
            c0
        };
        proof {
            lemma_vscale_le(normal@, cos as int, s4@, 48 * (SCALE as int), 192 * (SCALE as int));
            lemma_vscale_le(
                vadd(self@, vscale(normal@, cos as int)),
                refraction_ratio as int,
                196 * (SCALE as int),
                16 * (SCALE as int),
                3136 * (SCALE as int),
            );
        }
        let w: Vec3 = normal.scale(cos);
        let base: Vec3 = self.add(&w);
        let perp: Vec3 = base.scale(refraction_ratio);
        proof {
            lemma_vdot_le(
                perp@,
                perp@,
                3136 * (SCALE as int),
                3136 * (SCALE as int),
                29503488 * (SCALE as int),
            );
        }
        let p2: i64 = perp.magnitude_squared();
        let k: i64 = SCALE - p2;
        let kabs: i64 = if k < 0 {
            -k
        } else {
            k
        };
        let sq: i64 = fx_sqrt(kabs);
        proof {
            assert((kabs as int * (SCALE as int)) <= 0x2000_0000 * 0x2000_0000) by (nonlinear_arith)
                requires
                    0 <= kabs as int <= 29503489 * (SCALE as int),
            ;
            lemma_isqrt_le(kabs as int * (SCALE as int), 0x2000_0000);
            lemma_vscale_le(normal@, sq as int, s4@, 0x2000_0000, 0x8000_0000);
        }
        let w2: Vec3 = normal.scale(sq);
        perp.sub(&w2)
    }
}

/// Componentwise raw integer scaling (no fixed-point rounding); used to state
/// the exact-arithmetic laws.
pub open spec fn vmuli(a: Vec3i, c: int) -> Vec3i {
    Vec3i { x: c * a.x, y: c * a.y, z: c * a.z }
}

/// Exact mirror reflection with a normal of raw norm `k`: the true reflected
/// direction scaled by `k*k`, with no rounding at all.
pub open spec fn vreflect_exact(d: Vec3i, n: Vec3i, k: int) -> Vec3i {
    vsub(vmuli(d, k * k), vmuli(n, 2 * rdot(d, n)))
}

/// Law: reflecting a vector across a normal twice gives back the original
/// vector. Stated in exact integer arithmetic (each reflection scales by
/// `k*k`, so the double reflection returns `d` scaled by `k^4`); the
/// executable `reflect` computes the same expression rounded to the
/// fixed-point grid. The reflection also flips the sign of the dot with the
/// normal, so a ray that approached the surface leaves it.
pub proof fn lemma_reflect_involution(d: Vec3i, n: Vec3i, k: int)
    requires
        rdot(n, n) == k * k,
    ensures
        vreflect_exact(vreflect_exact(d, n, k), n, k) == vmuli(d, k * k * k * k),
        rdot(vreflect_exact(d, n, k), n) == -(k * k) * rdot(d, n),
{
    let dn: int = rdot(d, n);
    let r1: Vec3i = vreflect_exact(d, n, k);
    assert(r1.x * n.x == k * k * (d.x * n.x) - 2 * dn * (n.x * n.x)) by (nonlinear_arith)
        requires
            r1.x == k * k * d.x - 2 * dn * n.x,
    ;
    assert(r1.y * n.y == k * k * (d.y * n.y) - 2 * dn * (n.y * n.y)) by (nonlinear_arith)
        requires
            r1.y == k * k * d.y - 2 * dn * n.y,
    ;
    assert(r1.z * n.z == k * k * (d.z * n.z) - 2 * dn * (n.z * n.z)) by (nonlinear_arith)
        requires
            r1.z == k * k * d.z - 2 * dn * n.z,
    ;
    assert(k * k * (d.x * n.x) + k * k * (d.y * n.y) + k * k * (d.z * n.z) == k * k * dn) by (nonlinear_arith)
        requires
            dn == d.x * n.x + d.y * n.y + d.z * n.z,
    ;
    assert(2 * dn * (n.x * n.x) + 2 * dn * (n.y * n.y) + 2 * dn * (n.z * n.z) == 2 * dn * (k * k)) by (nonlinear_arith)
        requires
            n.x * n.x + n.y * n.y + n.z * n.z == k * k,
    ;
    assert(k * k * dn - 2 * dn * (k * k) == -(k * k) * dn) by (nonlinear_arith);
    assert(rdot(r1, n) == -(k * k) * dn);
    let r2: Vec3i = vreflect_exact(r1, n, k);
    assert(r2.x == k * k * k * k * d.x) by (nonlinear_arith)
        requires
            r2.x == k * k * r1.x - 2 * (-(k * k) * dn) * n.x,
            r1.x == k * k * d.x - 2 * dn * n.x,
    ;
    assert(r2.y == k * k * k * k * d.y) by (nonlinear_arith)
        requires
            r2.y == k * k * r1.y - 2 * (-(k * k) * dn) * n.y,
            r1.y == k * k * d.y - 2 * dn * n.y,
    ;
    assert(r2.z == k * k * k * k * d.z) by (nonlinear_arith)
        requires
            r2.z == k * k * r1.z - 2 * (-(k * k) * dn) * n.z,
            r1.z == k * k * d.z - 2 * dn * n.z,
    ;
}

proof fn lemma_sq_binomial(u: int, v: int)
    by (nonlinear_arith)
    ensures
        (u + v) * (u + v) == u * u + 2 * (u * v) + v * v,
{
}

proof fn lemma_sq_binomial_sub(u: int, v: int)
    by (nonlinear_arith)
    ensures
        (u - v) * (u - v) == u * u - 2 * (u * v) + v * v,
{
}

proof fn lemma_mul_reassoc(p: int, q: int, r: int, s: int)
    by (nonlinear_arith)
    ensures
        (p * q) * (r * s) == (p * r) * (q * s),
{
}

proof fn lemma_mul_distrib3(m: int, p: int, q: int, r: int)
    by (nonlinear_arith)
    ensures
        m * p + m * q + m * r == m * (p + q + r),
{
}

/// Law: mirror reflection preserves the norm. Stated in exact integer
/// arithmetic: across a normal of raw norm `k` the reflected vector's raw
/// squared norm equals the original's scaled by `k^4` (one reflection scales
/// the vector by `k*k`). The executable `reflect` computes the same
/// expression rounded to the fixed-point grid; the matching statement for
/// refraction is the perpendicular-norm clause of `lemma_refract_ratio_one`.
pub proof fn lemma_reflect_preserves_norm(d: Vec3i, n: Vec3i, k: int)
    requires
        rdot(n, n) == k * k,
    ensures
        rdot(vreflect_exact(d, n, k), vreflect_exact(d, n, k)) == k * k * k * k * rdot(d, d),
{
    let dn: int = rdot(d, n);
    let a: int = k * k;
    let w: int = 2 * dn;
    let r1: Vec3i = vreflect_exact(d, n, k);
    lemma_sq_binomial_sub(a * d.x, w * n.x);
    lemma_sq_binomial_sub(a * d.y, w * n.y);
    lemma_sq_binomial_sub(a * d.z, w * n.z);
    lemma_mul_reassoc(a, d.x, a, d.x);
    lemma_mul_reassoc(a, d.y, a, d.y);
    lemma_mul_reassoc(a, d.z, a, d.z);
    lemma_mul_reassoc(a, d.x, w, n.x);
    lemma_mul_reassoc(a, d.y, w, n.y);
    lemma_mul_reassoc(a, d.z, w, n.z);
    lemma_mul_reassoc(w, n.x, w, n.x);
    lemma_mul_reassoc(w, n.y, w, n.y);
    lemma_mul_reassoc(w, n.z, w, n.z);
    lemma_mul_distrib3(a * a, d.x * d.x, d.y * d.y, d.z * d.z);
    lemma_mul_distrib3(a * w, d.x * n.x, d.y * n.y, d.z * n.z);
    lemma_mul_distrib3(w * w, n.x * n.x, n.y * n.y, n.z * n.z);
    assert(rdot(r1, r1) == a * a * rdot(d, d) - 2 * ((a * w) * dn) + (w * w) * (k * k));
    assert(a * a * rdot(d, d) - 2 * ((a * w) * dn) + (w * w) * (k * k) == k * k * k * k * rdot(
        d,
        d,
    )) by (nonlinear_arith)
        requires
            a == k * k,
            w == 2 * dn,
    ;
}

/// Law: refraction with ratio one does not deviate the ray. Stated in exact
/// integer arithmetic over unit vectors of raw norm `k`: the perpendicular
/// part has squared norm `k^6 - c^2*k^2` (at scale `k^6`), the square root
/// under the parallel part is exactly `c*k`, and perpendicular plus parallel
/// recombine to the incident direction scaled by `k*k`. The executable
/// `refract` computes the same expression rounded to the fixed-point grid.
pub proof fn lemma_refract_ratio_one(d: Vec3i, n: Vec3i, k: int)
    requires
        k > 0,
        rdot(d, d) == k * k,
        rdot(n, n) == k * k,
        rdot(d, n) <= 0,
    ensures
        rdot(vadd(vmuli(d, k * k), vmuli(n, -rdot(d, n))), vadd(vmuli(d, k * k), vmuli(n, -rdot(d, n))))
            == k * k * k * k * k * k - rdot(d, n) * rdot(d, n) * (k * k),
        crate::fixed::is_isqrt(
            k * k * k * k * k * k - rdot(vadd(vmuli(d, k * k), vmuli(n, -rdot(d, n))), vadd(vmuli(d, k * k), vmuli(n, -rdot(d, n)))),
            -rdot(d, n) * k,
        ),
        vsub(vadd(vmuli(d, k * k), vmuli(n, -rdot(d, n))), vmuli(n, -rdot(d, n))) == vmuli(d, k * k),
{
    let c: int = -rdot(d, n);
    let a: int = k * k;
    let perp: Vec3i = vadd(vmuli(d, a), vmuli(n, c));
    lemma_sq_binomial(a * d.x, c * n.x);
    lemma_sq_binomial(a * d.y, c * n.y);
    lemma_sq_binomial(a * d.z, c * n.z);
    lemma_mul_reassoc(a, d.x, a, d.x);
    lemma_mul_reassoc(a, d.y, a, d.y);
    lemma_mul_reassoc(a, d.z, a, d.z);
    lemma_mul_reassoc(a, d.x, c, n.x);
    lemma_mul_reassoc(a, d.y, c, n.y);
    lemma_mul_reassoc(a, d.z, c, n.z);
    lemma_mul_reassoc(c, n.x, c, n.x);
    lemma_mul_reassoc(c, n.y, c, n.y);
    lemma_mul_reassoc(c, n.z, c, n.z);
    lemma_mul_distrib3(a * a, d.x * d.x, d.y * d.y, d.z * d.z);
    lemma_mul_distrib3(a * c, d.x * n.x, d.y * n.y, d.z * n.z);
    lemma_mul_distrib3(c * c, n.x * n.x, n.y * n.y, n.z * n.z);
    assert(rdot(perp, perp) == a * a * (k * k) + 2 * ((a * c) * (-c)) + c * c * (k * k));
    assert(a * a * (k * k) + 2 * ((a * c) * (-c)) + c * c * (k * k) == k * k * k * k * k * k - c
        * c * (k * k)) by (nonlinear_arith)
        requires
            a == k * k,
    ;
    assert(rdot(perp, perp) == k * k * k * k * k * k - c * c * (k * k));
    assert(c * c == rdot(d, n) * rdot(d, n)) by (nonlinear_arith)
        requires
            c == -rdot(d, n),
    ;
    assert(c * k >= 0 && (c * k) * (c * k) == c * c * (k * k) && c * c * (k * k) < (c * k + 1) * (
    c * k + 1)) by (nonlinear_arith)
        requires
            c >= 0,
            k > 0,
    ;
    assert(crate::fixed::is_isqrt(c * c * (k * k), c * k));
}

/// A point strictly inside the unit ball on the grid.
pub open spec fn in_ball(p: Vec3i) -> bool {
    in_bounds(p, SCALE as int) && 0 <= vmag2(p) < SCALE as int
}

/// The unit normal along the z axis.
pub open spec fn axis_z() -> Vec3i {
    Vec3i { x: 0, y: 0, z: SCALE as int }
}

/// Law: across a unit axis normal even the fixed-point reflection is an exact
/// involution — every rounding vanishes, so reflecting twice gives back the
/// original vector, on the grid and for every input.
pub proof fn lemma_reflect_involution_axis(d: Vec3i)
    ensures
        vreflect(d, axis_z()) == (Vec3i { x: d.x, y: d.y, z: -d.z }),
        vreflect(vreflect(d, axis_z()), axis_z()) == d,
{
    lemma_reflect_axis_step(d);
    lemma_reflect_axis_step(Vec3i { x: d.x, y: d.y, z: -d.z });
}

/// One fixed-point reflection across the z axis normal flips exactly the z
/// component.
proof fn lemma_reflect_axis_step(d: Vec3i)
    ensures
        vreflect(d, axis_z()) == (Vec3i { x: d.x, y: d.y, z: -d.z }),
{
    let s: int = SCALE as int;
    let n: Vec3i = axis_z();
    assert(d.x * 0 == 0 && d.y * 0 == 0 && d.z * s == s * d.z) by (nonlinear_arith);
    lemma_div_of0(s);
    lemma_tdiv_scale_cancel(d.z);
    // the dot product is exactly the z component
    assert(vdot(d, n) == d.z);
    let k: int = 2 * d.z;
    assert(0 * k == 0 && s * k == k * s) by (nonlinear_arith);
    lemma_tdiv_scale_cancel(k);
    assert(vscale(n, k) == (Vec3i { x: 0, y: 0, z: k }));
}

/// The raw dot product of a vector with itself is nonnegative.
pub proof fn lemma_rdot_self_nonneg(a: Vec3i)
    ensures
        rdot(a, a) >= 0,
{
    assert(a.x * a.x + a.y * a.y + a.z * a.z >= 0) by (nonlinear_arith);
}

/// Magnitude bound of a raw dot product.
pub proof fn lemma_rdot_mag(a: Vec3i, b: Vec3i, ma: int, mb: int)
    requires
        in_bounds(a, ma),
        in_bounds(b, mb),
        0 <= ma,
        0 <= mb,
    ensures
        -(3 * (ma * mb)) <= rdot(a, b) <= 3 * (ma * mb),
{
    assert(-(ma * mb) <= a.x * b.x <= ma * mb) by (nonlinear_arith)
        requires
            -ma <= a.x <= ma,
            -mb <= b.x <= mb,
            0 <= ma,
            0 <= mb,
    ;
    assert(-(ma * mb) <= a.y * b.y <= ma * mb) by (nonlinear_arith)
        requires
            -ma <= a.y <= ma,
            -mb <= b.y <= mb,
            0 <= ma,
            0 <= mb,
    ;
    assert(-(ma * mb) <= a.z * b.z <= ma * mb) by (nonlinear_arith)
        requires
            -ma <= a.z <= ma,
            -mb <= b.z <= mb,
            0 <= ma,
            0 <= mb,
    ;
}

/// A fixed-point product of bounded factors stays under a chosen bound.
pub proof fn lemma_fmul_le(a: int, b: int, ma: int, mb: int, bound: int)
    requires
        -ma <= a <= ma,
        -mb <= b <= mb,
        0 <= ma,
        0 <= mb,
        0 <= bound,
        ma * mb <= bound * (SCALE as int),
    ensures
        -bound <= fmul(a, b) <= bound,
{
    assert(-(bound * (SCALE as int)) <= a * b <= bound * (SCALE as int)) by (nonlinear_arith)
        requires
            -ma <= a <= ma,
            -mb <= b <= mb,
            0 <= ma,
            0 <= mb,
            ma * mb <= bound * (SCALE as int),
    ;
    lemma_tdiv_mag(a * b, SCALE as int, bound * (SCALE as int));
    lemma_tdiv_scale_cancel(bound);
}

/// The fixed-point dot product of bounded vectors stays under a chosen bound.
pub proof fn lemma_vdot_le(a: Vec3i, b: Vec3i, ma: int, mb: int, bound: int)
    requires
        in_bounds(a, ma),
        in_bounds(b, mb),
        0 <= ma,
        0 <= mb,
        0 <= bound,
        3 * (ma * mb) <= bound * (SCALE as int),
    ensures
        -bound <= vdot(a, b) <= bound,
{
    lemma_rdot_mag(a, b, ma, mb);
    lemma_tdiv_mag(rdot(a, b), SCALE as int, bound * (SCALE as int));
    lemma_tdiv_scale_cancel(bound);
}

/// Fixed-point scaling of a bounded vector stays under a chosen bound.
pub proof fn lemma_vscale_le(a: Vec3i, s: int, ma: int, ms: int, bound: int)
    requires
        in_bounds(a, ma),
        -ms <= s <= ms,
        0 <= ma,
        0 <= ms,
        0 <= bound,
        ma * ms <= bound * (SCALE as int),
    ensures
        in_bounds(vscale(a, s), bound),
{
    lemma_fmul_le(a.x, s, ma, ms, bound);
    lemma_fmul_le(a.y, s, ma, ms, bound);
    lemma_fmul_le(a.z, s, ma, ms, bound);
}

/// Dividing an exact multiple of the unit scale by the unit scale cancels.
pub proof fn lemma_tdiv_scale_cancel(m: int)
    ensures
        tdiv(m * (SCALE as int), SCALE as int) == m,
{
    let s = SCALE as int;
    if m >= 0 {
        lemma_div_multiples_vanish(m, s);
        assert(m * s == s * m) by (nonlinear_arith);
    } else {
        lemma_div_multiples_vanish(-m, s);
        assert(-(m * s) == s * (-m)) by (nonlinear_arith);
    }
}

/// A normalized vector has components within twice the unit scale, and a
/// non-degenerate vector has magnitude of at least 256 raw steps.
pub proof fn lemma_vunit_bounds(a: Vec3i)
    requires
        in_bounds(a, DOT_BOUND as int),
        vmag2(a) >= 1,
    ensures
        256 <= vmag(a) <= 2 * (DOT_BOUND as int),
        in_bounds(vunit(a), 2 * (SCALE as int)),
{
    let s = SCALE as int;
    let rd = rdot(a, a);
    lemma_rdot_self_nonneg(a);
    lemma_rdot_mag(a, a, DOT_BOUND as int, DOT_BOUND as int);
    let q = vmag2(a);
    assert(q == rd / s);
    lemma_fundamental_div_mod(rd, s);
    lemma_mod_division_less_than_divisor(rd, s);
    // s*q <= rd < s*(q+1)
    let m = vmag(a);
    assert(q * s >= 0) by (nonlinear_arith)
        requires
            q >= 1,
            s > 0,
    ;
    lemma_isqrt(q * s);
    assert(q * s >= 65536) by (nonlinear_arith)
        requires
            q >= 1,
            s == 65536,
    ;
    assert(m >= 256) by (nonlinear_arith)
        requires
            (m + 1) * (m + 1) > q * s,
            q * s >= 65536,
            m >= 0,
    ;
    assert(q * s == s * q) by (nonlinear_arith);
    assert(m <= 2 * (DOT_BOUND as int)) by (nonlinear_arith)
        requires
            m * m <= q * s,
            q * s <= rd,
            rd <= 3 * ((DOT_BOUND as int) * (DOT_BOUND as int)),
            m >= 0,
    ;
    // rd is at most (m+1)^2 + s - 2
    assert(rd <= (m + 1) * (m + 1) + s - 2) by (nonlinear_arith)
        requires
            rd < s * q + s,
            q * s < (m + 1) * (m + 1),
            q * s == s * q,
    ;
    lemma_vunit_component(a.x, a.y, a.z, rd, m, s);
    lemma_vunit_component(a.y, a.x, a.z, rd, m, s);
    lemma_vunit_component(a.z, a.x, a.y, rd, m, s);
    lemma_vunit_div(a.x, m, s);
    lemma_vunit_div(a.y, m, s);
    lemma_vunit_div(a.z, m, s);
}

/// One component of a vector is at most twice the vector's magnitude.
proof fn lemma_vunit_component(c: int, u: int, v: int, rd: int, m: int, s: int)
    requires
        rd == c * c + u * u + v * v,
        rd <= (m + 1) * (m + 1) + s - 2,
        m >= 256,
        s == 65536,
    ensures
        -2 * m <= c <= 2 * m,
{
    assert(c * c <= rd) by (nonlinear_arith)
        requires
            rd == c * c + u * u + v * v,
    ;
    assert(-2 * m <= c <= 2 * m) by (nonlinear_arith)
        requires
            c * c <= (m + 1) * (m + 1) + s - 2,
            m >= 256,
            s == 65536,
    ;
}

/// Dividing a component bounded by twice the magnitude gives at most 2.0.
proof fn lemma_vunit_div(c: int, m: int, s: int)
    requires
        -2 * m <= c <= 2 * m,
        m >= 1,
        s == SCALE as int,
    ensures
        -2 * s <= fdiv(c, m) <= 2 * s,
{
    assert(-(2 * m * s) <= c * s <= 2 * m * s) by (nonlinear_arith)
        requires
            -2 * m <= c <= 2 * m,
            m >= 1,
            s > 0,
    ;
    lemma_tdiv_mag(c * s, m, 2 * m * s);
    lemma_div_multiples_vanish(2 * s, m);
    assert(2 * m * s == m * (2 * s)) by (nonlinear_arith);
}

/// Truncated division of a nonnegative number by a positive one is nonnegative.
pub proof fn lemma_tdiv_pos(a: int, b: int)
    requires
        a >= 0,
        b > 0,
    ensures
        tdiv(a, b) >= 0,
{
    vstd::arithmetic::div_mod::lemma_div_pos_is_pos(a, b);
}

} // verus!
