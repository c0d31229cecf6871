//! Q20 fixed-point arithmetic: all audio-rate values (samples, envelope
//! levels, gains, filter coefficients) are `i64` values scaled by `UNIT`.

use vstd::prelude::*;
use vstd::arithmetic::div_mod::{lemma_div_pos_is_pos, lemma_div_is_ordered};

verus! {

/// The fixed-point representation of 1.0 (2 to the 20th).
pub const UNIT: i64 = 0x100000;

/// Division rounding toward zero, the rounding of Rust's `/` on signed
/// integers.
pub open spec fn div_tz(a: int, b: int) -> int
    recommends
        b > 0,
{
    if a >= 0 {
        a / b
    } else {
        -((-a) / b)
    }
}

/// The product of two fixed-point values rescaled by a positive divisor,
/// rounded toward zero: the basic multiply of Q20 arithmetic.
pub fn mul_div(a: i64, b: i64, d: i64) -> (r: i64)
    requires
        d > 0,
        -0x4000_0000_0000_0000 <= a * b <= 0x4000_0000_0000_0000,
    ensures
        r == div_tz(a * b, d as int),
{
    let p: i128 = (a as i128) * (b as i128);
    let q: i128 = p / (d as i128);
    proof {
        lemma_div_tz_bound(a * b, d as int);
    }
    q as i64
}

/// A bound on each factor bounds the product.
pub proof fn lemma_abs_mul_bound(a: int, b: int, bound_a: int, bound_b: int)
    requires
        -bound_a <= a <= bound_a,
        -bound_b <= b <= bound_b,
    ensures
        -(bound_a * bound_b) <= a * b <= bound_a * bound_b,
{
    assert(-(bound_a * bound_b) <= a * b <= bound_a * bound_b) by (nonlinear_arith)
        requires
            -bound_a <= a <= bound_a,
            -bound_b <= b <= bound_b,
    ;
}

/// A bound on the dividend bounds the truncating quotient.
pub proof fn lemma_div_tz_range(a: int, b: int, bound: int)
    requires
        b > 0,
        0 <= bound,
        -bound <= a <= bound,
    ensures
        -(bound / b) <= div_tz(a, b) <= bound / b,
{
    lemma_div_pos_is_pos(bound, b);
    if a >= 0 {
        lemma_div_pos_is_pos(a, b);
        lemma_div_is_ordered(a, bound, b);
    } else {
        lemma_div_pos_is_pos(-a, b);
        lemma_div_is_ordered(-a, bound, b);
    }
}

/// The quotient's magnitude never exceeds the dividend's.
pub proof fn lemma_div_tz_bound(a: int, b: int)
    requires
        b > 0,
    ensures
        a >= 0 ==> 0 <= div_tz(a, b) <= a,
        a < 0 ==> a <= div_tz(a, b) <= 0,
{
    if a >= 0 {
        assert(0 <= a / b <= a) by (nonlinear_arith)
            requires
                a >= 0,
                b > 0,
        ;
    } else {
        assert(0 <= (-a) / b <= -a) by (nonlinear_arith)
            requires
                -a >= 0,
                b > 0,
        ;
    }
}

/// Dividing an exact multiple recovers the factor, whatever its sign.
pub proof fn lemma_div_tz_exact(a: int, d: int)
    requires
        d > 0,
    ensures
        div_tz(d * a, d) == a,
{
    if a >= 0 {
        assert(d * a >= 0) by (nonlinear_arith)
            requires
                d > 0,
                a >= 0,
        ;
        vstd::arithmetic::div_mod::lemma_div_multiples_vanish(a, d);
    } else {
        assert(d * a < 0 && -(d * a) == d * (-a)) by (nonlinear_arith)
            requires
                d > 0,
                a < 0,
        ;
        vstd::arithmetic::div_mod::lemma_div_multiples_vanish(-a, d);
    }
}

/// Clamp a value into a closed interval.
pub fn clamp_i64(x: i64, lo: i64, hi: i64) -> (r: i64)
    requires
        lo <= hi,
    ensures
        r == clamp_spec(x as int, lo as int, hi as int),
        lo <= r <= hi,
{
    if x < lo {
        lo
    } else if x > hi {
        hi
    } else {
        x
    }
}

/// What `clamp_i64` returns.
pub open spec fn clamp_spec(x: int, lo: int, hi: int) -> int {
    if x < lo {
        lo
    } else if x > hi {
        hi
    } else {
        x
    }
}

} // verus!
