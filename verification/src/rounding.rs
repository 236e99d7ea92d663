//! Rounding a quotient of integers to an integer.

use vstd::prelude::*;
use vstd::arithmetic::div_mod::*;

verus! {

/// The integer nearest to `num / den`, for `num >= 0` and `den > 0`;
/// a value halfway between two integers goes to the larger.
pub open spec fn round_half_up(num: int, den: int) -> int {
    (2 * num + den) / (2 * den)
}

/// The integer nearest to `num / den`, for `num >= 0` and `den > 0`;
/// a value halfway between two integers goes to the even one.
pub open spec fn round_half_even(num: int, den: int) -> int {
    let quotient = num / den;
    let remainder = num % den;
    if 2 * remainder > den || (2 * remainder == den && quotient % 2 == 1) {
        quotient + 1
    } else {
        quotient
    }
}

/// `round_half_up(num, den)` is the one integer within half of `num / den`,
/// the upper of the two where there are two.
pub proof fn round_half_up_is_nearest(num: int, den: int)
    requires
        0 <= num,
        0 < den,
    ensures
        2 * round_half_up(num, den) * den - den <= 2 * num < 2 * round_half_up(num, den) * den + den,
        0 <= round_half_up(num, den),
{
    let r = round_half_up(num, den);
    lemma_fundamental_div_mod(2 * num + den, 2 * den);
    lemma_mod_bound(2 * num + den, 2 * den);
    assert((2 * den) * r == 2 * r * den) by (nonlinear_arith);
    lemma_div_pos_is_pos(2 * num + den, 2 * den);
}

/// An integer within half of `num / den`, not half below it, is `round_half_up(num, den)`.
pub proof fn nearest_is_round_half_up(num: int, den: int, r: int)
    requires
        0 < den,
        2 * r * den - den <= 2 * num < 2 * r * den + den,
    ensures
        round_half_up(num, den) == r,
{
    assert(2 * num + den == r * (2 * den) + (2 * num + den - 2 * r * den)) by (nonlinear_arith);
    lemma_fundamental_div_mod_converse(2 * num + den, 2 * den, r, 2 * num + den - 2 * r * den);
}

/// Multiplying numerator and denominator by the same positive number leaves
/// the rounded quotient as it is.
pub proof fn round_half_up_cancels(factor: int, num: int, den: int)
    requires
        0 < factor,
        0 <= num,
        0 < den,
    ensures
        round_half_up(factor * num, factor * den) == round_half_up(num, den),
{
    let r = round_half_up(num, den);
    round_half_up_is_nearest(num, den);
    assert(0 < factor * den) by (nonlinear_arith)
        requires
            0 < factor,
            0 < den,
    ;
    assert(2 * r * (factor * den) - factor * den <= 2 * (factor * num)) by (nonlinear_arith)
        requires
            0 < factor,
            2 * r * den - den <= 2 * num,
    ;
    assert(2 * (factor * num) < 2 * r * (factor * den) + factor * den) by (nonlinear_arith)
        requires
            0 < factor,
            2 * num < 2 * r * den + den,
    ;
    nearest_is_round_half_up(factor * num, factor * den, r);
}

/// `round_half_even(num, den)` lies within half of `num / den`, and is
/// even where `num / den` lies halfway between two integers.
pub proof fn round_half_even_is_nearest(num: int, den: int)
    requires
        0 <= num,
        0 < den,
    ensures
        -den <= 2 * (round_half_even(num, den) * den - num) <= den,
        (2 * (round_half_even(num, den) * den - num) == den || 2 * (round_half_even(num, den)
            * den - num) == -den) ==> round_half_even(num, den) % 2 == 0,
        num / den <= round_half_even(num, den) <= num / den + 1,
        round_half_even(num, den) == num / den ==> round_half_even(num, den) * den <= num,
{
    let quotient = num / den;
    let remainder = num % den;
    lemma_fundamental_div_mod(num, den);
    lemma_mod_bound(num, den);
    assert(den * quotient == quotient * den) by (nonlinear_arith);
    assert((quotient + 1) * den == quotient * den + den) by (nonlinear_arith);
}

} // verus!
