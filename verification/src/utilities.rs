//! Random sampling helpers and color output conversion.

use vstd::prelude::*;
use vstd::arithmetic::div_mod::{lemma_div_is_ordered, lemma_div_multiples_vanish, lemma_div_of0};
use crate::fixed::{SCALE, tdiv, fsqrt, fx_sqrt, lemma_isqrt_le};
use crate::rng::Sampler;
use crate::vector::{Vec3, Vec3i, in_bounds, vdot, vmag2, vneg, rdot, lemma_vdot_le, lemma_rdot_self_nonneg};

verus! {

/// A random vector with every component in `[0, 1)`.
pub fn rand_vec3(sampler: &mut Sampler) -> (r: Vec3)
    ensures
        0 <= r@.x < SCALE as int,
        0 <= r@.y < SCALE as int,
        0 <= r@.z < SCALE as int,
{
    let x: i64 = sampler.next_in(0, SCALE);
    let y: i64 = sampler.next_in(0, SCALE);
    let z: i64 = sampler.next_in(0, SCALE);
    Vec3::new(x, y, z)
}

/// A random vector with every component in `[min, max)`.
pub fn rand_point_range(sampler: &mut Sampler, min: i64, max: i64) -> (r: Vec3)
    requires
        min < max,
    ensures
        min as int <= r@.x < max as int,
        min as int <= r@.y < max as int,
        min as int <= r@.z < max as int,
{
    let x: i64 = sampler.next_in(min, max);
    let y: i64 = sampler.next_in(min, max);
    let z: i64 = sampler.next_in(min, max);
    Vec3::new(x, y, z)
}

/// A random point strictly inside the unit ball, found by rejection; after a
/// bounded number of failed draws the center is returned, which also lies in
/// the ball.
pub fn rand_point_in_unit_sphere(sampler: &mut Sampler) -> (r: Vec3)
    ensures
        in_bounds(r@, SCALE as int),
        0 <= vmag2(r@) < SCALE as int,
{
    let mut attempts: u32 = 64;
    while attempts > 0
        invariant
            true,
        decreases attempts,
    {
        let point: Vec3 = rand_point_range(sampler, -SCALE, SCALE);
        proof {
            let s: int = SCALE as int;
            assert(3 * (s * s) <= (3 * s) * s) by (nonlinear_arith);
            lemma_vdot_le(point@, point@, s, s, 3 * s);
            lemma_rdot_self_nonneg(point@);
            crate::vector::lemma_tdiv_pos(rdot(point@, point@), s);
        }
        if point.magnitude_squared() < SCALE {
            return point;
        }
        attempts = attempts - 1;
    }
    proof {
        lemma_div_of0(SCALE as int);
    }
    Vec3::zeros()
}

/// A random point in the unit hemisphere around `normal`: a unit-ball sample,
/// flipped when it points against the normal.
pub fn rand_pouint_in_hemisphere(sampler: &mut Sampler, normal: Vec3) -> (r: Vec3)
    requires
        in_bounds(normal@, 4 * (SCALE as int)),
    ensures
        in_bounds(r@, SCALE as int),
        0 <= vmag2(r@) < SCALE as int,
        vdot(r@, normal@) >= 0,
{
    let point: Vec3 = rand_point_in_unit_sphere(sampler);
    proof {
        let s: int = SCALE as int;
        assert(3 * (s * (4 * s)) <= (12 * s) * s) by (nonlinear_arith);
        lemma_vdot_le(point@, normal@, s, 4 * s, 12 * s);
    }
    if point.dot(&normal) > 0 {
        point
    } else {
        proof {
            lemma_rdot_neg(point@, normal@);
            lemma_vmag2_neg(point@);
        }
        point.neg()
    }
}

/// Negation keeps a vector's magnitude.
proof fn lemma_vmag2_neg(a: Vec3i)
    ensures
        vmag2(vneg(a)) == vmag2(a),
{
    assert((-a.x) * (-a.x) == a.x * a.x) by (nonlinear_arith);
    assert((-a.y) * (-a.y) == a.y * a.y) by (nonlinear_arith);
    assert((-a.z) * (-a.z) == a.z * a.z) by (nonlinear_arith);
}

/// Negating the left argument negates the raw and the fixed-point dot product.
proof fn lemma_rdot_neg(a: Vec3i, b: Vec3i)
    ensures
        rdot(vneg(a), b) == -rdot(a, b),
        vdot(vneg(a), b) == -vdot(a, b),
{
    assert((-a.x) * b.x == -(a.x * b.x)) by (nonlinear_arith);
    assert((-a.y) * b.y == -(a.y * b.y)) by (nonlinear_arith);
    assert((-a.z) * b.z == -(a.z * b.z)) by (nonlinear_arith);
}

impl Vec3 {
    /// A random vector with every component in `[0, 1)`.
    pub fn rand(sampler: &mut Sampler) -> (r: Vec3)
        ensures
            0 <= r@.x < SCALE as int,
            0 <= r@.y < SCALE as int,
            0 <= r@.z < SCALE as int,
    {
        rand_vec3(sampler)
    }

    /// A random vector with every component in `[min, max)`.
    pub fn rand_from_range(sampler: &mut Sampler, min: i64, max: i64) -> (r: Vec3)
        requires
            min < max,
        ensures
            min as int <= r@.x < max as int,
            min as int <= r@.y < max as int,
            min as int <= r@.z < max as int,
    {
        rand_point_range(sampler, min, max)
    }

    /// A random point strictly inside the unit ball.
    pub fn rand_in_unit_sphere(sampler: &mut Sampler) -> (r: Vec3)
        ensures
            in_bounds(r@, SCALE as int),
            0 <= vmag2(r@) < SCALE as int,
    {
        rand_point_in_unit_sphere(sampler)
    }

    /// A random point in the unit hemisphere around `normal`.
    pub fn rand_in_unit_hemisphere(sampler: &mut Sampler, normal: Vec3) -> (r: Vec3)
        requires
            in_bounds(normal@, 4 * (SCALE as int)),
        ensures
            in_bounds(r@, SCALE as int),
            0 <= vmag2(r@) < SCALE as int,
            vdot(r@, normal@) >= 0,
    {
        rand_pouint_in_hemisphere(sampler, normal)
    }
}

/// Mirror reflection of `in_dir` across `normal`.
pub fn reflection(in_dir: Vec3, normal: Vec3) -> (r: Vec3)
    requires
        in_bounds(in_dir@, 4 * (SCALE as int)),
        in_bounds(normal@, 4 * (SCALE as int)),
    ensures
        r@ == crate::vector::vreflect(in_dir@, normal@),
        in_bounds(r@, 400 * (SCALE as int)),
{
    in_dir.reflect(&normal)
}

/// Refraction of `in_dir` at a surface with normal `normal` and the given
/// ratio of refraction indices.
pub fn refraction(in_dir: Vec3, normal: Vec3, refraction_ratio: i64) -> (r: Vec3)
    requires
        in_bounds(in_dir@, 4 * (SCALE as int)),
        in_bounds(normal@, 4 * (SCALE as int)),
        0 < refraction_ratio <= 16 * (SCALE as int),
    ensures
        r@ == crate::vector::vrefract(in_dir@, normal@, refraction_ratio as int),
        in_bounds(r@, 0x8_0000_0000),
{
    in_dir.refract(&normal, refraction_ratio)
}

/// The 8-bit value written for one linear-light channel: clamp to `[0, 1]`,
/// gamma-correct with a square root, and scale to 255.
pub open spec fn color_byte(c: int) -> int {
    let cc: int = if c < 0 {
        0
    } else if c > SCALE as int {
        SCALE as int
    } else {
        c
    };
    tdiv(fsqrt(cc) * 255, SCALE as int)
}

/// Gamma-corrected, quantized output color, one byte per channel.
pub fn vec_to_color_array(color: &Vec3) -> (r: [u8; 3])
    ensures
        r[0] as int == color_byte(color@.x),
        r[1] as int == color_byte(color@.y),
        r[2] as int == color_byte(color@.z),
{
    [scale_color(color.x), scale_color(color.y), scale_color(color.z)]
}

/// One channel of the output conversion.
fn scale_color(c: i64) -> (r: u8)
    ensures
        r as int == color_byte(c as int),
{
    let cc: i64 = if c < 0 {
        0
    } else if c > SCALE {
        SCALE
    } else {
        c
    };
    let g: i64 = fx_sqrt(cc);
    proof {
        let s: int = SCALE as int;
        assert(cc as int * s <= s * s) by (nonlinear_arith)
            requires
                0 <= cc as int <= s,
        ;
        lemma_isqrt_le(cc as int * s, s);
        assert(g as int * 255 <= s * 255);
        lemma_div_is_ordered(g as int * 255, s * 255, s);
        lemma_div_multiples_vanish(255, s);
        assert(s * 255 == 255 * s) by (nonlinear_arith);
        crate::vector::lemma_tdiv_pos(g as int * 255, s);
    }
    let b: u64 = (g as u64) * 255 / (SCALE as u64);
    b as u8
}

} // verus!
