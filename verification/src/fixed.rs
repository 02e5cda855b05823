//! Fixed-point scalars.
//!
//! A scalar is an `i64` holding a signed multiple of `1/SCALE`. All rounding
//! is toward zero; the spec functions below say exactly which integer each
//! executable operation returns.

use vstd::prelude::*;
use vstd::arithmetic::div_mod::{lemma_div_is_ordered, lemma_div_pos_is_pos, lemma_div_multiples_vanish};

verus! {

/// One unit: the raw value that stands for 1.0.
pub const SCALE: i64 = 65536;

/// Integer division rounded toward zero (used with positive divisors only).
pub open spec fn tdiv(a: int, b: int) -> int {
    if a >= 0 {
        a / b
    } else {
        -((-a) / b)
    }
}

/// Fixed-point product: the raw product re-scaled, rounded toward zero.
pub open spec fn fmul(a: int, b: int) -> int {
    tdiv(a * b, SCALE as int)
}

/// Fixed-point quotient: the scaled quotient, rounded toward zero.
pub open spec fn fdiv(a: int, b: int) -> int {
    tdiv(a * (SCALE as int), b)
}

/// `r` is the floor integer square root of `n`.
pub open spec fn is_isqrt(n: int, r: int) -> bool {
    r >= 0 && r * r <= n && n < (r + 1) * (r + 1)
}

/// The floor integer square root.
pub open spec fn isqrt(n: int) -> int {
    choose|r: int| is_isqrt(n, r)
}

/// Fixed-point square root of a nonnegative scalar.
pub open spec fn fsqrt(x: int) -> int {
    isqrt(x * (SCALE as int))
}

proof fn lemma_isqrt_exists(n: int) -> (r: int)
    requires
        n >= 0,
    ensures
        is_isqrt(n, r),
    decreases n,
{
    if n == 0 {
        assert(0 * 0 <= 0 && 0 < (0 + 1) * (0 + 1)) by (nonlinear_arith);
        assert(is_isqrt(0, 0));
        0
    } else {
        let p = lemma_isqrt_exists(n - 1);
        if (p + 1) * (p + 1) <= n {
            assert(n < (p + 1 + 1) * (p + 1 + 1)) by (nonlinear_arith)
                requires
                    p >= 0,
                    n - 1 < (p + 1) * (p + 1),
                    (p + 1) * (p + 1) <= n,
            ;
            assert(is_isqrt(n, p + 1));
            p + 1
        } else {
            assert(is_isqrt(n, p));
            p
        }
    }
}

proof fn lemma_isqrt_unique(n: int, r1: int, r2: int)
    by (nonlinear_arith)
    requires
        r1 >= 0,
        r1 * r1 <= n,
        n < (r1 + 1) * (r1 + 1),
        r2 >= 0,
        r2 * r2 <= n,
        n < (r2 + 1) * (r2 + 1),
    ensures
        r1 == r2,
{
}

/// `isqrt(n)` satisfies its bracketing property for every nonnegative `n`.
pub proof fn lemma_isqrt(n: int)
    requires
        n >= 0,
    ensures
        is_isqrt(n, isqrt(n)),
{
    let r = lemma_isqrt_exists(n);
    assert(is_isqrt(n, r));
}

/// The square root never exceeds a known square bound.
pub proof fn lemma_isqrt_le(n: int, m: int)
    requires
        0 <= n,
        0 <= m,
        n <= m * m,
    ensures
        0 <= isqrt(n) <= m,
{
    lemma_isqrt(n);
    let r = isqrt(n);
    assert(r <= m) by (nonlinear_arith)
        requires
            r >= 0,
            r * r <= n,
            0 <= m,
            n <= m * m,
    ;
}

/// Magnitude bound of a truncated division by a positive divisor.
pub proof fn lemma_tdiv_mag(a: int, b: int, m: int)
    requires
        b > 0,
        -m <= a <= m,
        0 <= m,
    ensures
        -tdiv(m, b) <= tdiv(a, b) <= tdiv(m, b),
        0 <= tdiv(m, b) <= m,
{
    lemma_div_pos_is_pos(m, b);
    assert(m <= m * b && m * b == b * m) by (nonlinear_arith)
        requires
            b > 0,
            m >= 0,
    ;
    lemma_div_is_ordered(m, m * b, b);
    lemma_div_multiples_vanish(m, b);
    if a >= 0 {
        lemma_div_pos_is_pos(a, b);
        lemma_div_is_ordered(a, m, b);
    } else {
        lemma_div_pos_is_pos(-a, b);
        lemma_div_is_ordered(-a, m, b);
    }
}

/// A product of two factors in `[0, SCALE]` stays in `[0, SCALE]`,
/// and multiplying by one is the identity.
pub proof fn lemma_fmul_unit_range(a: int, b: int)
    requires
        0 <= a <= SCALE as int,
        0 <= b <= SCALE as int,
    ensures
        0 <= fmul(a, b) <= a,
        fmul(a, b) <= b,
        b == SCALE as int ==> fmul(a, b) == a,
{
    let s = SCALE as int;
    assert(0 <= a * b && a * b <= a * s && a * b <= b * s) by (nonlinear_arith)
        requires
            0 <= a <= s,
            0 <= b <= s,
    ;
    lemma_div_pos_is_pos(a * b, s);
    lemma_div_is_ordered(a * b, a * s, s);
    lemma_div_is_ordered(a * b, b * s, s);
    lemma_div_multiples_vanish(a, s);
    lemma_div_multiples_vanish(b, s);
    assert(a * s == s * a) by (nonlinear_arith);
    assert(b * s == s * b) by (nonlinear_arith);
}

/// Fixed-point multiplication; exact contract over the integers.
pub fn fx_mul(a: i64, b: i64) -> (r: i64)
    requires
        -i64::MAX <= fmul(a as int, b as int) <= i64::MAX,
    ensures
        r as int == fmul(a as int, b as int),
{
    let neg: bool = (a < 0) != (b < 0);
    let am: u128 = if a < 0 {
        (-(a as i128)) as u128
    } else {
        a as u128
    };
    let bm: u128 = if b < 0 {
        (-(b as i128)) as u128
    } else {
        b as u128
    };
    proof {
        assert(am * bm < 0x1_0000_0000_0000_0000_0000_0000_0000_0000) by (nonlinear_arith)
            requires
                am < 0x1_0000_0000_0000_0000,
                bm < 0x1_0000_0000_0000_0000,
        ;
        if a as int * b as int >= 0 {
            assert(am * bm == a as int * b as int) by (nonlinear_arith)
                requires
                    am == if a < 0 { -(a as int) } else { a as int },
                    bm == if b < 0 { -(b as int) } else { b as int },
                    a as int * b as int >= 0,
            ;
        } else {
            assert(am * bm == -(a as int * b as int)) by (nonlinear_arith)
                requires
                    am == if a < 0 { -(a as int) } else { a as int },
                    bm == if b < 0 { -(b as int) } else { b as int },
                    (a as int * b as int) < 0,
            ;
        }
        if !neg {
            assert(a as int * b as int >= 0) by (nonlinear_arith)
                requires
                    !((a < 0) != (b < 0)),
            ;
        } else {
            assert(a as int * b as int <= 0) by (nonlinear_arith)
                requires
                    (a < 0) != (b < 0),
            ;
        }
    }
    let q: u128 = (am * bm) / (SCALE as u128);
    if neg {
        -(q as i64)
    } else {
        q as i64
    }
}

/// Fixed-point division by a positive scalar; exact contract over the integers.
pub fn fx_div(a: i64, b: i64) -> (r: i64)
    requires
        b > 0,
        -i64::MAX <= fdiv(a as int, b as int) <= i64::MAX,
    ensures
        r as int == fdiv(a as int, b as int),
{
    let am: u128 = if a < 0 {
        (-(a as i128)) as u128
    } else {
        a as u128
    };
    let q: u128 = (am * (SCALE as u128)) / (b as u128);
    if a < 0 {
        -(q as i64)
    } else {
        q as i64
    }
}

/// Fixed-point square root of a nonnegative scalar; exact floor contract.
pub fn fx_sqrt(x: i64) -> (r: i64)
    requires
        x >= 0,
    ensures
        r as int == fsqrt(x as int),
        r >= 0,
{
    let s: u128 = SCALE as u128;
    proof {
        assert((x as int * s as int) < 0x1_0000_0000_0000_0000_0000_0000_0000_0000) by (nonlinear_arith)
            requires
                0 <= x <= 0x7fff_ffff_ffff_ffff,
                s == 65536,
        ;
    }
    let n: u128 = (x as u128) * s;
    let mut lo: u128 = 0;
    let mut hi: u128 = 0x100_0000_0000;
    proof {
        assert(n < hi * hi) by (nonlinear_arith)
            requires
                n == x as int * 65536,
                x <= 0x7fff_ffff_ffff_ffff,
                hi == 0x100_0000_0000,
        ;
    }
    while lo + 1 < hi
        invariant
            lo * lo <= n,
            n < hi * hi,
            lo < hi,
            hi <= 0x100_0000_0000,
        decreases hi - lo,
    {
        let mid: u128 = lo + (hi - lo) / 2;
        proof {
            assert(mid * mid < 0x1_0000_0000_0000_0000_0000_0000) by (nonlinear_arith)
                requires
                    mid <= 0x100_0000_0000,
            ;
        }
        if mid * mid <= n {
            lo = mid;
        } else {
            hi = mid;
        }
    }
    proof {
        lemma_isqrt(n as int);
        lemma_isqrt_unique(n as int, lo as int, isqrt(n as int));
        assert(is_isqrt(n as int, isqrt(n as int)));
    }
    lo as i64
}

} // verus!
