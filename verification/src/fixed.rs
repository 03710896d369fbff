//! Decimal fixed-point arithmetic.
//!
//! Fractional quantities are stored as integers: configured factors and
//! opacities in thousandths, time in milliseconds, the effective text scale
//! (a product of two factors) in millionths, and positions in millionths of
//! a pixel. This module holds the two ways in which quotients of such
//! values become integers again: rounding to the nearest and rounding down.

use vstd::prelude::*;

verus! {

/// `n / d` rounded to the nearest integer, halves away from zero.
pub open spec fn round_div(n: int, d: int) -> int
    recommends
        d > 0,
{
    if n >= 0 {
        (2 * n + d) / (2 * d)
    } else {
        -((2 * (-n) + d) / (2 * d))
    }
}

/// `n / d` rounded towards negative infinity.
pub open spec fn floor_div(n: int, d: int) -> int
    recommends
        d > 0,
{
    n / d
}

/// `v` limited to the interval from `lo` to `hi`.
pub open spec fn clamp(v: int, lo: int, hi: int) -> int
    recommends
        lo <= hi,
{
    if v < lo {
        lo
    } else if v > hi {
        hi
    } else {
        v
    }
}

/// The larger of `a` and `b`.
pub open spec fn max_int(a: int, b: int) -> int {
    if a >= b {
        a
    } else {
        b
    }
}

/// A quotient lies between two integers if the dividend lies between
/// their multiples of the divisor.
pub proof fn lemma_div_between(a: int, d: int, lo: int, hi: int)
    requires
        d > 0,
        lo * d <= a < (hi + 1) * d,
    ensures
        lo <= a / d <= hi,
{
    let q = a / d;
    vstd::arithmetic::div_mod::lemma_fundamental_div_mod(a, d);
    vstd::arithmetic::div_mod::lemma_mod_bound(a, d);
    assert((q + 1) * d == d * q + d) by (nonlinear_arith);
    if q < lo {
        vstd::arithmetic::mul::lemma_mul_inequality(q + 1, lo, d);
    }
    if q > hi {
        vstd::arithmetic::mul::lemma_mul_inequality(hi + 1, q, d);
        assert(q * d == d * q) by (nonlinear_arith);
    }
}

/// Rounding never moves a quotient past the integers around it.
pub proof fn lemma_round_div_bounds(n: int, d: int, lo: int, hi: int)
    requires
        d > 0,
        lo * d <= n <= hi * d,
    ensures
        lo <= round_div(n, d) <= hi,
{
    assert(lo * (2 * d) == 2 * (lo * d)) by (nonlinear_arith);
    assert((hi + 1) * (2 * d) == 2 * (hi * d) + 2 * d) by (nonlinear_arith);
    assert((-hi) * (2 * d) == -(2 * (hi * d))) by (nonlinear_arith);
    assert((-lo + 1) * (2 * d) == -(2 * (lo * d)) + 2 * d) by (nonlinear_arith);
    if n >= 0 {
        lemma_div_between(2 * n + d, 2 * d, lo, hi);
    } else {
        lemma_div_between(2 * (-n) + d, 2 * d, -hi, -lo);
    }
}

/// An exact multiple rounds to its quotient.
pub proof fn lemma_round_div_exact(q: int, d: int)
    requires
        d > 0,
    ensures
        round_div(q * d, d) == q,
{
    lemma_round_div_bounds(q * d, d, q, q);
}

/// Rounds a non-negative quotient.
pub fn round_div_u128(n: u128, d: u128) -> (q: u128)
    requires
        d > 0,
        2 * d <= u128::MAX,
        2 * n + d <= u128::MAX,
    ensures
        q == round_div(n as int, d as int),
{
    (2 * n + d) / (2 * d)
}

/// Rounds a quotient of either sign.
pub fn round_div_i128(n: i128, d: i128) -> (q: i128)
    requires
        d > 0,
        2 * d <= i128::MAX,
        -(i128::MAX as int) <= 2 * n - d,
        2 * n + d <= i128::MAX,
    ensures
        q == round_div(n as int, d as int),
{
    if n >= 0 {
        (2 * n + d) / (2 * d)
    } else {
        let m: i128 = -n;
        let q: i128 = (2 * m + d) / (2 * d);
        proof {
            lemma_round_of_positive(m as int, d as int);
        }
        -q
    }
}

/// Floors a quotient of either sign.
pub fn floor_div_i128(n: i128, d: i128) -> (q: i128)
    requires
        d > 0,
        -(i128::MAX as int) <= n - d,
    ensures
        q == floor_div(n as int, d as int),
{
    if n >= 0 {
        n / d
    } else {
        let m: i128 = -n;
        let up: i128 = (m + (d - 1)) / d;
        proof {
            lemma_floor_of_negative(m as int, d as int);
        }
        -up
    }
}

proof fn lemma_round_of_positive(m: int, d: int)
    requires
        m >= 0,
        d > 0,
    ensures
        0 <= (2 * m + d) / (2 * d) <= 2 * m + d,
{
    let a = 2 * m + d;
    vstd::arithmetic::mul::lemma_mul_inequality(1, 2 * d, a + 1);
    assert(0 * (2 * d) == 0);
    assert(1 * (a + 1) == a + 1);
    lemma_div_between(a, 2 * d, 0, a);
}

proof fn lemma_floor_of_negative(m: int, d: int)
    requires
        m > 0,
        d > 0,
    ensures
        (-m) / d == -((m + (d - 1)) / d),
        0 <= (m + (d - 1)) / d <= m + (d - 1),
{
    let a = m + (d - 1);
    let u = a / d;
    let r = a % d;
    vstd::arithmetic::div_mod::lemma_fundamental_div_mod(a, d);
    vstd::arithmetic::div_mod::lemma_mod_bound(a, d);
    assert((-u) * d == -(d * u)) by (nonlinear_arith);
    vstd::arithmetic::div_mod::lemma_fundamental_div_mod_converse(-m, d, -u, d - 1 - r);
    vstd::arithmetic::mul::lemma_mul_inequality(1, d, a + 1);
    assert(0 * d == 0);
    assert(1 * (a + 1) == a + 1);
    lemma_div_between(a, d, 0, a);
}

} // verus!
