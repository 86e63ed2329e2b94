//! Small arithmetic toolbox: absolute values, product bounds, integer square
//! roots and rounded division, shared by the geometric modules.

use vstd::prelude::*;
use vstd::arithmetic::div_mod::lemma_fundamental_div_mod;

verus! {

/// Absolute value of a mathematical integer.
pub open spec fn iabs(x: int) -> int {
    if x >= 0 {
        x
    } else {
        -x
    }
}

/// |a * b| <= bound_a * bound_b whenever |a| <= bound_a and |b| <= bound_b.
pub proof fn lemma_mul_bound(a: int, b: int, bound_a: int, bound_b: int)
    by (nonlinear_arith)
    requires
        iabs(a) <= bound_a,
        iabs(b) <= bound_b,
    ensures
        iabs(a * b) <= bound_a * bound_b,
{
}

/// Squaring is monotone on non-negative values.
pub proof fn lemma_square_mono(a: int, b: int)
    by (nonlinear_arith)
    requires
        0 <= a <= b,
    ensures
        a * a <= b * b,
{
}

/// `m` is the floor square root of `v`.
pub open spec fn is_isqrt(m: int, v: int) -> bool {
    0 <= m && m * m <= v && v < (m + 1) * (m + 1)
}

/// The floor square root of `v` (for `v >= 0`).
pub open spec fn isqrt_of(v: int) -> int {
    choose|m: int| is_isqrt(m, v)
}

/// The floor square root is unique, so any witness determines `isqrt_of`.
pub proof fn lemma_isqrt_is(v: int, m: int)
    requires
        is_isqrt(m, v),
    ensures
        isqrt_of(v) == m,
{
    assert(exists|m2: int| is_isqrt(m2, v)) by {
        assert(is_isqrt(m, v));
    }
    let m2 = choose|m2: int| is_isqrt(m2, v);
    assert(m2 == m) by (nonlinear_arith)
        requires
            is_isqrt(m2, v),
            is_isqrt(m, v),
    ;
}

/// Rounded division, halves away from zero, as a mathematical function.
pub open spec fn round_frac(n: int, d: int) -> int {
    if n >= 0 {
        (2 * n + d) / (2 * d)
    } else {
        -((2 * (-n) + d) / (2 * d))
    }
}

/// Floor integer square root: the unique `r` with `r^2 <= x < (r + 1)^2`.
pub fn isqrt(x: u128) -> (r: u128)
    ensures
        r * r <= x,
        x < (r + 1) * (r + 1),
        r <= 0x1_0000_0000_0000_0000,
        r as int == isqrt_of(x as int),
{
    let mut lo: u128 = 0;
    let mut hi: u128 = 0x1_0000_0000_0000_0000;
    proof {
        assert((hi as int) * (hi as int) > x) by (nonlinear_arith)
            requires
                hi == 0x1_0000_0000_0000_0000u128,
                x <= u128::MAX,
        ;
    }
    while lo + 1 < hi
        invariant
            lo < hi,
            hi <= 0x1_0000_0000_0000_0000,
            (lo as int) * (lo as int) <= x,
            x < (hi as int) * (hi as int),
        decreases hi - lo,
    {
        let mid: u128 = lo + (hi - lo) / 2;
        assert(lo < mid < hi);
        proof {
            assert((mid as int) * (mid as int) < 0x1_0000_0000_0000_0000_0000_0000_0000_0000)
                by (nonlinear_arith)
                requires
                    mid < 0x1_0000_0000_0000_0000u128,
            ;
        }
        if mid * mid <= x {
            lo = mid;
        } else {
            hi = mid;
        }
    }
    proof {
        lemma_isqrt_is(x as int, lo as int);
    }
    lo
}

/// Rounded division `n / d` to the nearest integer, halves away from zero:
/// the result differs from the exact quotient by at most one half.
pub fn round_div(n: i128, d: i128) -> (q: i128)
    requires
        1 <= d,
        iabs(n as int) <= 0x1000_0000_0000_0000_0000_0000_0000,
        d <= 0x1000_0000_0000_0000_0000_0000_0000,
    ensures
        q == round_frac(n as int, d as int),
        2 * iabs(q * d - n) <= d,
{
    let m: u128 = if n >= 0 {
        n as u128
    } else {
        (-n) as u128
    };
    let du: u128 = d as u128;
    let qu: u128 = (2 * m + du) / (2 * du);
    proof {
        lemma_fundamental_div_mod((2 * m + du) as int, (2 * du) as int);
        assert(2 * iabs((qu as int) * (d as int) - (m as int)) <= d as int && (qu as int) <= (
        m as int) + (d as int)) by (nonlinear_arith)
            requires
                d as int == du as int,
                1 <= du as int,
                0 <= qu as int,
                (2 * (m as int) + (du as int)) == (2 * (du as int)) * (qu as int) + (2 * (m as int)
                    + (du as int)) % (2 * (du as int)),
                0 <= (2 * (m as int) + (du as int)) % (2 * (du as int)) < 2 * (du as int),
        ;
    }
    let q_abs: i128 = qu as i128;
    if n >= 0 {
        q_abs
    } else {
        proof {
            assert(2 * iabs((-(qu as int)) * (d as int) - (n as int)) <= d as int)
                by (nonlinear_arith)
                requires
                    n as int == -(m as int),
                    2 * iabs((qu as int) * (d as int) - (m as int)) <= d as int,
            ;
        }
        -q_abs
    }
}

} // verus!
