//! Integer facts shared by the fixed-point code.

use vstd::arithmetic::div_mod::*;
use vstd::arithmetic::mul::*;
use vstd::prelude::*;

verus! {

/// Splitting the numerator of `a * b / d` into whole multiples of `d`
/// and a remainder: `a * b / d == (a / d) * b + ((a % d) * b) / d`.
pub proof fn lemma_mul_div_split(a: int, b: int, d: int)
    requires
        a >= 0,
        b >= 0,
        d > 0,
    ensures
        a * b / d == (a / d) * b + ((a % d) * b) / d,
        (a / d) * b <= a * b / d,
{
    let q = a / d;
    let r = a % d;
    lemma_fundamental_div_mod(a, d);
    lemma_mod_pos_bound(a, d);
    let s = r * b;
    assert(s >= 0) by (nonlinear_arith)
        requires
            r >= 0,
            b >= 0,
            s == r * b,
    ;
    lemma_fundamental_div_mod(s, d);
    lemma_mod_pos_bound(s, d);
    lemma_div_pos_is_pos(s, d);
    assert(a * b == (q * b + s / d) * d + s % d) by (nonlinear_arith)
        requires
            a == d * q + r,
            s == r * b,
            s == d * (s / d) + s % d,
    ;
    lemma_fundamental_div_mod_converse(a * b, d, q * b + s / d, s % d);
}

/// A quotient is monotone in its numerator.
pub proof fn lemma_div_monotone(x: int, y: int, d: int)
    requires
        0 <= x <= y,
        d > 0,
    ensures
        x / d <= y / d,
{
    lemma_div_is_ordered(x, y, d);
}

/// A quotient is antitone in a positive denominator.
pub proof fn lemma_div_antitone(x: int, d1: int, d2: int)
    requires
        x >= 0,
        0 < d1 <= d2,
    ensures
        x / d2 <= x / d1,
{
    lemma_div_is_ordered_by_denominator(x, d1, d2);
}

/// `r * k / d < k` when `0 <= r < d`.
pub proof fn lemma_fraction_below(r: int, k: int, d: int)
    requires
        0 <= r < d,
        k > 0,
    ensures
        0 <= r * k / d < k,
{
    assert(r * k < k * d) by (nonlinear_arith)
        requires
            0 <= r < d,
            k > 0,
    ;
    assert(r * k >= 0) by (nonlinear_arith)
        requires
            0 <= r,
            k > 0,
    ;
    lemma_div_pos_is_pos(r * k, d);
    lemma_div_is_ordered(r * k, k * d - 1, d);
    assert(k * d - 1 == (k - 1) * d + (d - 1)) by (nonlinear_arith);
    lemma_fundamental_div_mod_converse(k * d - 1, d, k - 1, d - 1);
}

} // verus!
