//! Exact integer arithmetic for scaling one range onto another.

use vstd::prelude::*;

verus! {

/// The quotient `a / b` rounded up, for a positive `b`.
pub open spec fn div_ceil(a: int, b: int) -> int {
    if a % b == 0 {
        a / b
    } else {
        a / b + 1
    }
}

/// A share `a` of `d`, applied to `b`, never exceeds `b`.
pub proof fn lemma_scaled_bounds(a: int, b: int, d: int)
    requires
        0 <= a <= d,
        0 < d,
        0 <= b,
    ensures
        0 <= (a * b) / d <= b,
        0 <= div_ceil(a * b, d) <= b,
{
    assert(0 <= a * b <= d * b) by (nonlinear_arith)
        requires
            0 <= a <= d,
            0 <= b,
    ;
    let p = a * b;
    assert(p == d * (p / d) + p % d && 0 <= p % d < d) by (nonlinear_arith)
        requires
            0 < d,
    ;
    assert(0 <= p / d <= b && (p % d != 0 ==> p / d < b)) by (nonlinear_arith)
        requires
            0 <= p <= d * b,
            0 < d,
            p == d * (p / d) + p % d,
            0 <= p % d < d,
    ;
}

/// Scaling grows with the share: a larger `a` never gives a smaller result.
pub proof fn lemma_scaled_monotonic(a1: int, a2: int, b: int, d: int)
    requires
        0 <= a1 <= a2,
        0 <= b,
        0 < d,
    ensures
        (a1 * b) / d <= (a2 * b) / d,
        div_ceil(a1 * b, d) <= div_ceil(a2 * b, d),
{
    assert(0 <= a1 * b <= a2 * b) by (nonlinear_arith)
        requires
            0 <= a1 <= a2,
            0 <= b,
    ;
    lemma_quotients_ordered(a1 * b, a2 * b, d);
}

/// Both roundings of a quotient grow with the dividend.
pub proof fn lemma_quotients_ordered(lower: int, upper: int, d: int)
    requires
        lower <= upper,
        0 < d,
    ensures
        lower / d <= upper / d,
        div_ceil(lower, d) <= div_ceil(upper, d),
{
    assert(lower == d * (lower / d) + lower % d && 0 <= lower % d < d) by (nonlinear_arith)
        requires
            0 < d,
    ;
    assert(upper == d * (upper / d) + upper % d && 0 <= upper % d < d) by (nonlinear_arith)
        requires
            0 < d,
    ;
    let lower_quotient = lower / d;
    let upper_quotient = upper / d;
    let lower_rest = lower % d;
    let upper_rest = upper % d;
    assert(lower_quotient <= upper_quotient && (lower_quotient == upper_quotient ==> lower_rest
        <= upper_rest)) by (nonlinear_arith)
        requires
            lower <= upper,
            0 < d,
            lower == d * lower_quotient + lower_rest,
            upper == d * upper_quotient + upper_rest,
            0 <= lower_rest < d,
            0 <= upper_rest < d,
    ;
}

/// The product of two machine words fits in 128 bits.
pub proof fn lemma_word_product_fits(a: int, b: int)
    requires
        0 <= a <= u64::MAX,
        0 <= b <= u64::MAX,
    ensures
        0 <= a * b <= u128::MAX - u64::MAX,
{
    assert(0 <= a * b <= 0xffff_ffff_ffff_ffff * 0xffff_ffff_ffff_ffff) by (nonlinear_arith)
        requires
            0 <= a <= 0xffff_ffff_ffff_ffff,
            0 <= b <= 0xffff_ffff_ffff_ffff,
    ;
}

/// `a * b / d`, rounded down, for a share `a` of `d`.
pub fn scale_floor(a: u64, b: usize, d: u64) -> (q: usize)
    requires
        0 < d,
        a <= d,
    ensures
        q == (a * b) / (d as int),
{
    proof {
        lemma_word_product_fits(a as int, b as int);
        lemma_scaled_bounds(a as int, b as int, d as int);
    }
    let product: u128 = (a as u128) * (b as u128);
    let quotient: u128 = product / (d as u128);
    quotient as usize
}

/// `a * b / d`, rounded up, for a share `a` of `d`.
pub fn scale_ceil(a: usize, b: usize, d: usize) -> (q: usize)
    requires
        0 < d,
        a <= d,
    ensures
        q == div_ceil(a * b, d as int),
{
    proof {
        lemma_word_product_fits(a as int, b as int);
        lemma_scaled_bounds(a as int, b as int, d as int);
    }
    let product: u128 = (a as u128) * (b as u128);
    let quotient: u128 = product / (d as u128);
    let rest: u128 = product % (d as u128);
    if rest == 0 {
        quotient as usize
    } else {
        (quotient + 1) as usize
    }
}

} // verus!
