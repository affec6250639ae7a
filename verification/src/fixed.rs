//! Fixed-point arithmetic: sixteen fractional bits in a signed integer.
//!
//! A position of 1.5 tiles is the integer 98304; a direction component is the
//! cosine or sine scaled the same way.

use vstd::prelude::*;

verus! {

/// The fixed-point representation of 1.
pub const ONE: i64 = 65536;

/// The whole part of a fixed-point value, rounded towards minus infinity.
pub open spec fn floor_of(p: int) -> int {
    p / 65536
}

/// What is left of a fixed-point value above its whole part, in `[0, ONE)`.
pub open spec fn fract_of(p: int) -> int {
    p % 65536
}

/// The magnitude of an integer.
pub open spec fn mag(a: int) -> int {
    if a < 0 {
        -a
    } else {
        a
    }
}

/// The quotient of `a` by `b` rounded towards zero, and 0 where `b` is 0.
pub open spec fn div_trunc(a: int, b: int) -> int {
    if b == 0 {
        0
    } else if (a >= 0) == (b > 0) {
        mag(a) / mag(b)
    } else {
        -(mag(a) / mag(b))
    }
}

/// Half of `v`, rounded towards zero.
pub open spec fn div_half(v: int) -> int {
    if v >= 0 {
        v / 2
    } else {
        -((-v) / 2)
    }
}

/// `v` held between `lo` and `hi`.
pub open spec fn clamp_int(v: int, lo: int, hi: int) -> int {
    if v < lo {
        lo
    } else if v > hi {
        hi
    } else {
        v
    }
}

/// A quotient of non-negative numbers is at most its dividend.
pub proof fn lemma_div_bounds(a: int, b: int)
    requires
        0 <= a,
        0 < b,
    ensures
        0 <= a / b <= a,
{
    vstd::arithmetic::div_mod::lemma_div_pos_is_pos(a, b);
    vstd::arithmetic::div_mod::lemma_div_is_ordered_by_denominator(a, 1, b);
    vstd::arithmetic::div_mod::lemma_div_basics(a);
}

/// Dividing by a positive number keeps the order.
pub proof fn lemma_div_monotone(a: int, b: int, d: int)
    requires
        a <= b,
        0 < d,
    ensures
        a / d <= b / d,
{
    vstd::arithmetic::div_mod::lemma_div_is_ordered(a, b, d);
}

/// The whole part of a fixed-point value.
pub fn floor_fixed(p: i64) -> (c: i64)
    ensures
        c == floor_of(p as int),
        c * 65536 <= p < c * 65536 + 65536,
        p - c * 65536 == fract_of(p as int),
{
    if p >= 0 {
        p / ONE
    } else {
        let q: i64 = (-(p + 1)) / ONE;
        -q - 1
    }
}

/// The magnitude of `a`.
pub fn abs_i64(a: i64) -> (m: i64)
    requires
        a > i64::MIN,
    ensures
        m == mag(a as int),
{
    if a < 0 {
        -a
    } else {
        a
    }
}

/// `a / b` rounded towards zero.
pub fn div_trunc_i64(a: i64, b: i64) -> (q: i64)
    requires
        b != 0,
        a > i64::MIN,
        b > i64::MIN,
    ensures
        q == div_trunc(a as int, b as int),
        mag(q as int) <= mag(a as int),
{
    let ma: i64 = abs_i64(a);
    let mb: i64 = abs_i64(b);
    proof {
        lemma_div_bounds(ma as int, mb as int);
    }
    let m: i64 = ma / mb;
    if (a >= 0) == (b > 0) {
        m
    } else {
        -m
    }
}

/// `a * b / ONE` for a fraction `a` of at most 1, computed without overflow.
pub fn scale_fixed(a: i64, b: i64) -> (c: i64)
    requires
        0 <= a <= ONE,
        0 <= b,
    ensures
        c == a * b / 65536,
        0 <= c <= b,
{
    assert(0 <= a * b <= 65536 * b) by (nonlinear_arith)
        requires
            0 <= a <= 65536,
            0 <= b,
    ;
    proof {
        lemma_div_monotone(a * b, 65536 * b, 65536);
        lemma_div_monotone(0, a * b, 65536);
        vstd::arithmetic::div_mod::lemma_div_multiples_vanish(b as int, 65536);
    }
    let w: i128 = (a as i128) * (b as i128);
    (w / 65536) as i64
}

/// The product of two fixed-point numbers, rounded towards zero.
pub open spec fn scaled(a: int, b: int) -> int {
    div_trunc(a * b, 65536)
}

/// The product of two fixed-point numbers, rounded towards zero.
pub fn scale_signed(a: i64, b: i64) -> (c: i64)
    requires
        -0x8000_0000 <= a <= 0x8000_0000,
        -0x8000_0000 <= b <= 0x8000_0000,
    ensures
        c == scaled(a as int, b as int),
        -0x4000_0000_0000 <= c <= 0x4000_0000_0000,
{
    assert(-0x4000_0000_0000_0000 <= a * b <= 0x4000_0000_0000_0000) by (nonlinear_arith)
        requires
            -0x8000_0000 <= a <= 0x8000_0000,
            -0x8000_0000 <= b <= 0x8000_0000,
    ;
    let p: i64 = a * b;
    proof {
        lemma_div_monotone(mag(p as int), 0x4000_0000_0000_0000, 65536);
    }
    div_trunc_i64(p, ONE)
}

/// Whether `r` is the square root of `n` rounded down.
pub open spec fn is_sqrt(n: int, r: int) -> bool {
    0 <= r && r * r <= n < (r + 1) * (r + 1)
}

/// The square root of `n`, rounded down.
pub fn isqrt(n: u128) -> (r: u64)
    requires
        n < 0x4_0000_0000_0000_0000,
    ensures
        is_sqrt(n as int, r as int),
        r < 0x2_0000_0000,
{
    let mut lo: u128 = 0;
    let mut hi: u128 = 0x2_0000_0000;
    assert(0x2_0000_0000int * 0x2_0000_0000int == 0x4_0000_0000_0000_0000int) by (nonlinear_arith);
    while hi - lo > 1
        invariant
            0 <= lo < hi <= 0x2_0000_0000,
            lo * lo <= n,
            n < hi * hi,
        decreases hi - lo,
    {
        let mid: u128 = lo + (hi - lo) / 2;
        assert(mid * mid <= 0x2_0000_0000 * 0x2_0000_0000) by (nonlinear_arith)
            requires
                0 <= mid <= 0x2_0000_0000,
        ;
        if mid * mid <= n {
            lo = mid;
        } else {
            hi = mid;
        }
    }
    lo as u64
}

/// `a / b` rounded towards minus infinity.
pub fn floor_div(a: i128, b: i128) -> (q: i128)
    requires
        0 < b,
        -0x4000_0000_0000_0000_0000_0000_0000 <= a <= 0x4000_0000_0000_0000_0000_0000_0000,
    ensures
        q == a / b,
        q * b <= a < q * b + b,
        mag(q as int) <= mag(a as int) + 1,
{
    proof {
        vstd::arithmetic::div_mod::lemma_fundamental_div_mod(a as int, b as int);
        vstd::arithmetic::div_mod::lemma_mod_bound(a as int, b as int);
        assert(b * (a / b) == (a / b) * b) by (nonlinear_arith);
    }
    if a >= 0 {
        proof {
            lemma_div_bounds(a as int, b as int);
        }
        a / b
    } else {
        proof {
            lemma_div_bounds(-(a + 1), b as int);
            vstd::arithmetic::div_mod::lemma_fundamental_div_mod(-(a + 1), b as int);
            vstd::arithmetic::div_mod::lemma_mod_bound(-(a + 1), b as int);
            let q1 = (-(a + 1)) / (b as int);
            let q = -q1 - 1;
            assert(b * q1 == q1 * b) by (nonlinear_arith);
            assert(q * b == -(q1 * b) - b) by (nonlinear_arith)
                requires
                    q == -q1 - 1,
            ;
            assert(q * b <= a < q * b + b);
            vstd::arithmetic::div_mod::lemma_fundamental_div_mod_converse(
                a as int,
                b as int,
                q,
                a - q * b,
            );
        }
        -((-(a + 1)) / b) - 1
    }
}

} // verus!
