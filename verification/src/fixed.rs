//! Fixed-point scalars.
//!
//! Every scalar of the library (a time, a coordinate, a quaternion component)
//! is a signed number with sixteen fractional bits, stored in an `i32`.
//! Intermediate results are computed exactly in wider integers, rounded
//! towards negative infinity and clamped to the stored range.

use vstd::prelude::*;
use vstd::arithmetic::div_mod::lemma_fundamental_div_mod;
use vstd::arithmetic::div_mod::lemma_fundamental_div_mod_converse;
use vstd::arithmetic::div_mod::lemma_mod_bound;

verus! {

/// The stored form of the number one.
pub const ONE: i32 = 65536;

/// The nearest stored scalar to an exact integer result.
pub open spec fn saturate(v: int) -> int {
    if v < i32::MIN {
        i32::MIN as int
    } else if v > i32::MAX {
        i32::MAX as int
    } else {
        v
    }
}

/// The point a fraction `num / den` of the way from `a` to `b`, rounded down.
pub open spec fn blend(a: int, b: int, num: int, den: int) -> int {
    a + ((b - a) * num) / den
}

/// A blend with a fraction between zero and one lies between its two ends,
/// and meets them at the fractions zero and one.
pub proof fn lemma_blend_between(a: int, b: int, num: int, den: int)
    requires
        0 <= num <= den,
        den > 0,
    ensures
        a <= b ==> a <= blend(a, b, num, den) <= b,
        b <= a ==> b <= blend(a, b, num, den) <= a,
        num == 0 ==> blend(a, b, num, den) == a,
        num == den ==> blend(a, b, num, den) == b,
{
    let d = b - a;
    let p = d * num;
    let q = p / den;
    lemma_fundamental_div_mod(p, den);
    lemma_mod_bound(p, den);
    let r = p % den;
    assert(p == den * q + r);
    if d >= 0 {
        assert(0 <= p <= d * den) by (nonlinear_arith)
            requires
                p == d * num,
                0 <= num <= den,
                d >= 0,
        ;
        assert(0 <= q <= d) by (nonlinear_arith)
            requires
                p == den * q + r,
                0 <= r < den,
                0 <= p <= d * den,
                den > 0,
        ;
    } else {
        assert(d * den <= p <= 0) by (nonlinear_arith)
            requires
                p == d * num,
                0 <= num <= den,
                d < 0,
        ;
        assert(d <= q <= 0) by (nonlinear_arith)
            requires
                p == den * q + r,
                0 <= r < den,
                d * den <= p <= 0,
                den > 0,
        ;
    }
    if num == 0 {
        assert(p == 0) by (nonlinear_arith)
            requires
                p == d * num,
                num == 0,
        ;
        assert(q == 0) by (nonlinear_arith)
            requires
                0 == den * q + r,
                0 <= r < den,
                den > 0,
        ;
    }
    if num == den {
        assert(q == d) by (nonlinear_arith)
            requires
                d * den == den * q + r,
                0 <= r < den,
                den > 0,
        ;
    }
}

/// Clamps a wide intermediate result to the stored range.
pub fn saturate_wide(v: i128) -> (r: i32)
    ensures
        r == saturate(v as int),
{
    if v < -2147483648i128 {
        i32::MIN
    } else if v > 2147483647i128 {
        i32::MAX
    } else {
        v as i32
    }
}

/// The exact product of two stored scalars.
pub fn wide_product(a: i32, b: i32) -> (p: i128)
    ensures
        p == a * b,
        -0x4000_0000_0000_0000 <= p <= 0x4000_0000_0000_0000,
{
    assert(-0x4000_0000_0000_0000 <= a * b <= 0x4000_0000_0000_0000) by (nonlinear_arith)
        requires
            -0x8000_0000 <= a <= 0x7fff_ffff,
            -0x8000_0000 <= b <= 0x7fff_ffff,
    ;
    (a as i128) * (b as i128)
}

/// Division that rounds towards negative infinity.
pub fn floor_div(n: i128, d: i128) -> (q: i128)
    requires
        d > 0,
    ensures
        q == n / d,
{
    if n >= 0 {
        n / d
    } else {
        let m: i128 = -(n + 1);
        let qm: i128 = m / d;
        proof {
            let rm = (m as int) % (d as int);
            lemma_fundamental_div_mod(m as int, d as int);
            lemma_mod_bound(m as int, d as int);
            assert(0 <= qm) by (nonlinear_arith)
                requires
                    m == d * qm + rm,
                    0 <= rm < d,
                    m >= 0,
                    d > 0,
            ;
            assert(n == (-qm - 1) * d + (d - rm - 1)) by (nonlinear_arith)
                requires
                    m == d * qm + rm,
                    n == -m - 1,
            ;
            lemma_fundamental_div_mod_converse(n as int, d as int, -qm - 1, d - rm - 1);
        }
        -qm - 1
    }
}

/// The stored scalar a fraction `num / den` of the way from `a` to `b`.
pub fn blend_scalar(a: i32, b: i32, num: i64, den: i64) -> (r: i32)
    requires
        0 <= num <= den,
        den > 0,
    ensures
        r == blend(a as int, b as int, num as int, den as int),
{
    let d: i128 = (b as i128) - (a as i128);
    assert(-0x1_0000_0000_0000_0000_0000_0000 <= d * num <= 0x1_0000_0000_0000_0000_0000_0000)
        by (nonlinear_arith)
        requires
            -0x1_0000_0000 <= d <= 0x1_0000_0000,
            0 <= num <= 0x7fff_ffff_ffff_ffff,
    ;
    let q: i128 = floor_div(d * (num as i128), den as i128);
    proof {
        lemma_blend_between(a as int, b as int, num as int, den as int);
    }
    ((a as i128) + q) as i32
}

} // verus!
