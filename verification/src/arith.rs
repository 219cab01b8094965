//! Exact rounding and saturating conversions.

use vstd::prelude::*;

verus! {

/// `n / d` rounded to the nearest integer, halves away from zero (`d > 0`).
pub open spec fn div_round(n: int, d: int) -> int
    recommends
        d > 0,
{
    if n >= 0 {
        (2 * n + d) / (2 * d)
    } else {
        -((-2 * n + d) / (2 * d))
    }
}

/// `v` saturated into the range of `i32`.
pub open spec fn sat_i32(v: int) -> i32 {
    if v < i32::MIN {
        i32::MIN
    } else if v > i32::MAX {
        i32::MAX
    } else {
        v as i32
    }
}

/// `v` saturated into the range of `u32`.
pub open spec fn sat_u32(v: int) -> u32 {
    if v < 0 {
        0
    } else if v > u32::MAX {
        u32::MAX
    } else {
        v as u32
    }
}

/// The larger of `v` and zero.
pub open spec fn nonneg(v: int) -> int {
    if v < 0 {
        0
    } else {
        v
    }
}

/// Rounded quotient of a non-negative numerator.
fn div_round_u128(n: u128, d: u128) -> (r: u128)
    requires
        0 < d <= 0x1_0000_0000_0000_0000_0000,
        n <= 0x1_0000_0000_0000_0000_0000_0000_0000,
    ensures
        r == div_round(n as int, d as int),
{
    (2 * n + d) / (2 * d)
}

/// `n / d` rounded half away from zero.
pub fn div_round_i128(n: i128, d: u64) -> (r: i128)
    requires
        d > 0,
        -0x1_0000_0000_0000_0000_0000_0000_0000 <= n <= 0x1_0000_0000_0000_0000_0000_0000_0000,
    ensures
        r == div_round(n as int, d as int),
{
    if n >= 0 {
        let q = div_round_u128(n as u128, d as u128);
        proof {
            assert(q <= n) by (nonlinear_arith)
                requires
                    q == (2 * n + d) / (2 * d as int),
                    n >= 0,
                    d > 0,
            ;
        }
        q as i128
    } else {
        let m: u128 = (0 - n) as u128;
        let q = div_round_u128(m, d as u128);
        proof {
            assert(q <= m) by (nonlinear_arith)
                requires
                    q == (2 * m + d) / (2 * d as int),
                    m >= 0,
                    d > 0,
            ;
        }
        0 - (q as i128)
    }
}

/// The product of two `i32` values lies within `+-2^62`.
pub proof fn lemma_i32_product_bound(a: int, b: int)
    requires
        i32::MIN <= a <= i32::MAX,
        i32::MIN <= b <= i32::MAX,
    ensures
        -0x4000_0000_0000_0000 <= a * b <= 0x4000_0000_0000_0000,
{
    assert(-0x4000_0000_0000_0000 <= a * b <= 0x4000_0000_0000_0000) by (nonlinear_arith)
        requires
            -0x8000_0000 <= a <= 0x8000_0000,
            -0x8000_0000 <= b <= 0x8000_0000,
    ;
}

/// Saturating conversion to `i32`, as Rust's float-to-int `as` does.
pub fn saturate_i32(v: i128) -> (r: i32)
    ensures
        r == sat_i32(v as int),
{
    if v < i32::MIN as i128 {
        i32::MIN
    } else if v > i32::MAX as i128 {
        i32::MAX
    } else {
        v as i32
    }
}

/// Saturating conversion to `u32`, as Rust's float-to-int `as` does.
pub fn saturate_u32(v: i128) -> (r: u32)
    ensures
        r == sat_u32(v as int),
{
    if v < 0 {
        0
    } else if v > u32::MAX as i128 {
        u32::MAX
    } else {
        v as u32
    }
}

} // verus!
