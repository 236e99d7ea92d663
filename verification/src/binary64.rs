//! The IEEE 754 binary64 number format, read from its 64-bit pattern.
//!
//! A pattern holds a sign bit, an eleven-bit exponent field and a 52-bit
//! fraction. Every finite number is a whole multiple of 2^-1074, so the
//! magnitude of a finite pattern is modelled as a natural number of such
//! units, which keeps all reasoning within integer arithmetic.

use vstd::prelude::*;
use vstd::arithmetic::mul::*;
use vstd::arithmetic::power2::*;

verus! {

/// The pattern with only the sign bit set: 2^63.
pub const SIGN_BIT: u64 = 0x8000_0000_0000_0000;

/// The weight of the implicit leading bit of a normal significand: 2^52.
pub const HIDDEN_BIT: u64 = 0x0010_0000_0000_0000;

/// The number of values of the exponent field.
pub const EXPONENT_SPAN: u64 = 2048;

/// The exponent field shared by the infinities and the NaNs.
pub const EXPONENT_SPECIAL: u64 = 2047;

/// The finite numbers are multiples of 2^-UNIT_EXPONENT.
pub const UNIT_EXPONENT: u64 = 1074;

/// Whether the sign bit is set.
pub open spec fn sign_bit(bits: u64) -> bool {
    bits >= SIGN_BIT
}

/// The exponent field, in `0..2048`.
pub open spec fn exponent_field(bits: u64) -> int {
    ((bits as int) / (HIDDEN_BIT as int)) % (EXPONENT_SPAN as int)
}

/// The fraction field, in `0..2^52`.
pub open spec fn fraction_field(bits: u64) -> int {
    (bits as int) % (HIDDEN_BIT as int)
}

/// Zero, subnormal or normal: neither an infinity nor a NaN.
pub open spec fn is_finite(bits: u64) -> bool {
    exponent_field(bits) != EXPONENT_SPECIAL
}

/// Positive or negative infinity.
pub open spec fn is_infinite(bits: u64) -> bool {
    exponent_field(bits) == EXPONENT_SPECIAL && fraction_field(bits) == 0
}

/// Not a number.
pub open spec fn is_nan(bits: u64) -> bool {
    exponent_field(bits) == EXPONENT_SPECIAL && fraction_field(bits) != 0
}

/// The significand as a whole number: the fraction, with the implicit
/// leading bit added for a normal number.
pub open spec fn significand(bits: u64) -> int {
    if exponent_field(bits) == 0 {
        fraction_field(bits)
    } else {
        HIDDEN_BIT + fraction_field(bits)
    }
}

/// The power of two by which the significand of a finite pattern is
/// multiplied to give its magnitude in units of 2^-1074.
pub open spec fn unit_shift(bits: u64) -> nat {
    if exponent_field(bits) == 0 {
        0
    } else {
        (exponent_field(bits) - 1) as nat
    }
}

/// The magnitude of a finite pattern in units of 2^-1074.
pub open spec fn magnitude(bits: u64) -> int {
    significand(bits) * pow2(unit_shift(bits))
}

/// The value of a finite pattern in units of 2^-1074.
pub open spec fn signed_magnitude(bits: u64) -> int {
    if sign_bit(bits) {
        -magnitude(bits)
    } else {
        magnitude(bits)
    }
}

/// The pattern made of a sign, an exponent field and a fraction field.
pub open spec fn compose(negative: bool, exponent: int, fraction: int) -> int {
    (if negative { SIGN_BIT as int } else { 0 }) + exponent * HIDDEN_BIT + fraction
}

/// How far the value of the finite pattern `bits` lies from `num / den`,
/// as a multiple of `1 / (den * 2^1074)`.
pub open spec fn deviation(bits: u64, num: int, den: int) -> int {
    let difference = signed_magnitude(bits) * den - num * pow2(UNIT_EXPONENT as nat);
    if difference < 0 {
        -difference
    } else {
        difference
    }
}

/// Whether `bits` is the binary64 number that `num / den` rounds to: no
/// finite binary64 number lies nearer to `num / den`, and where another
/// lies as near, the significand of `bits` is even.
pub open spec fn is_nearest(bits: u64, num: int, den: int) -> bool {
    &&& is_finite(bits)
    &&& forall|other: u64| #[trigger]
        is_finite(other) ==> {
            &&& deviation(bits, num, den) <= deviation(other, num, den)
            &&& (deviation(bits, num, den) == deviation(other, num, den) && signed_magnitude(other)
                != signed_magnitude(bits)) ==> significand(bits) % 2 == 0
        }
}

/// Whether the sign bit of `bits` is set.
pub fn is_negative(bits: u64) -> (r: bool)
    ensures
        r == sign_bit(bits),
{
    bits >= SIGN_BIT
}

/// The exponent field of `bits`.
pub fn exponent_of(bits: u64) -> (r: u64)
    ensures
        r == exponent_field(bits),
        r < EXPONENT_SPAN,
{
    (bits / HIDDEN_BIT) % EXPONENT_SPAN
}

/// The fraction field of `bits`.
pub fn fraction_of(bits: u64) -> (r: u64)
    ensures
        r == fraction_field(bits),
        r < HIDDEN_BIT,
{
    bits % HIDDEN_BIT
}

/// The three fields determine the pattern, and every pattern is made of its fields.
pub proof fn fields_determine_pattern(bits: u64)
    ensures
        0 <= exponent_field(bits) < EXPONENT_SPAN,
        0 <= fraction_field(bits) < HIDDEN_BIT,
        bits == compose(sign_bit(bits), exponent_field(bits), fraction_field(bits)),
{
}

/// Reading back the fields of a composed pattern gives what it was composed of.
pub proof fn compose_has_fields(negative: bool, exponent: int, fraction: int)
    requires
        0 <= exponent < EXPONENT_SPAN,
        0 <= fraction < HIDDEN_BIT,
    ensures
        0 <= compose(negative, exponent, fraction) <= u64::MAX,
        sign_bit(compose(negative, exponent, fraction) as u64) == negative,
        exponent_field(compose(negative, exponent, fraction) as u64) == exponent,
        fraction_field(compose(negative, exponent, fraction) as u64) == fraction,
{
}

/// The pattern of all bits clear is finite and has the value zero.
pub proof fn zero_is_finite()
    ensures
        is_finite(0),
        !sign_bit(0),
        magnitude(0) == 0,
        signed_magnitude(0) == 0,
{
    let zero: u64 = 0;
    assert(exponent_field(zero) == 0);
    assert(fraction_field(zero) == 0);
    assert(significand(zero) == 0);
    assert(significand(zero) * pow2(unit_shift(zero)) == 0) by (nonlinear_arith)
        requires
            significand(zero) == 0,
    ;
}

/// No magnitude is negative.
pub proof fn magnitude_is_nonnegative(bits: u64)
    ensures
        magnitude(bits) >= 0,
{
    lemma_pow2_pos(unit_shift(bits));
    lemma_mul_nonnegative(significand(bits), pow2(unit_shift(bits)) as int);
}

/// Finite patterns of the same magnitude have the same exponent and fraction fields.
pub proof fn magnitude_determines_fields(a: u64, b: u64)
    requires
        is_finite(a),
        is_finite(b),
        magnitude(a) == magnitude(b),
    ensures
        exponent_field(a) == exponent_field(b),
        fraction_field(a) == fraction_field(b),
{
    let sa = unit_shift(a);
    let sb = unit_shift(b);
    let ma = significand(a);
    let mb = significand(b);
    lemma_pow2_pos(sa);
    lemma_pow2_pos(sb);
    lemma2_to64();
    assert(exponent_field(a) == 0 ==> magnitude(a) == fraction_field(a)) by (nonlinear_arith)
        requires
            magnitude(a) == ma * pow2(sa),
            exponent_field(a) == 0 ==> ma == fraction_field(a) && pow2(sa) == 1,
    ;
    assert(exponent_field(b) == 0 ==> magnitude(b) == fraction_field(b)) by (nonlinear_arith)
        requires
            magnitude(b) == mb * pow2(sb),
            exponent_field(b) == 0 ==> mb == fraction_field(b) && pow2(sb) == 1,
    ;
    if exponent_field(a) == 0 && exponent_field(b) == 0 {
    } else if exponent_field(a) == 0 {
        assert(mb * pow2(sb) >= HIDDEN_BIT) by (nonlinear_arith)
            requires
                mb >= HIDDEN_BIT,
                pow2(sb) >= 1,
        ;
    } else if exponent_field(b) == 0 {
        assert(ma * pow2(sa) >= HIDDEN_BIT) by (nonlinear_arith)
            requires
                ma >= HIDDEN_BIT,
                pow2(sa) >= 1,
        ;
    } else if sa < sb {
        pow2_at_least_doubles(sa, sb);
        assert(ma * pow2(sa) < mb * pow2(sb)) by (nonlinear_arith)
            requires
                0 <= ma < 2 * HIDDEN_BIT,
                mb >= HIDDEN_BIT,
                2 * pow2(sa) <= pow2(sb),
                pow2(sa) > 0,
        ;
    } else if sb < sa {
        pow2_at_least_doubles(sb, sa);
        assert(mb * pow2(sb) < ma * pow2(sa)) by (nonlinear_arith)
            requires
                0 <= mb < 2 * HIDDEN_BIT,
                ma >= HIDDEN_BIT,
                2 * pow2(sb) <= pow2(sa),
                pow2(sb) > 0,
        ;
    } else {
        assert(ma == mb) by (nonlinear_arith)
            requires
                ma * pow2(sa) == mb * pow2(sa),
                pow2(sa) > 0,
        ;
    }
}

/// A power of two with a larger exponent is at least twice as large.
pub proof fn pow2_at_least_doubles(e1: nat, e2: nat)
    requires
        e1 < e2,
    ensures
        2 * pow2(e1) <= pow2(e2),
{
    lemma_pow2_unfold(e1 + 1);
    if e1 + 1 < e2 {
        lemma_pow2_strictly_increases(e1 + 1, e2);
    }
}

/// The finite magnitudes from 2^52 * 2^j upwards are multiples of 2^j: in
/// units of 2^-1074, binary64 numbers of that size lie at least 2^j apart.
pub proof fn large_magnitude_is_multiple(bits: u64, j: nat)
    requires
        is_finite(bits),
        magnitude(bits) >= HIDDEN_BIT * pow2(j),
    ensures
        exists|count: int| magnitude(bits) == #[trigger] (count * pow2(j)),
{
    let shift = unit_shift(bits);
    let m = significand(bits);
    lemma_pow2_pos(j);
    lemma_pow2_pos(shift);
    if shift >= j {
        lemma_pow2_adds((shift - j) as nat, j);
        let count = m * pow2((shift - j) as nat);
        assert(m * pow2(shift) == count * pow2(j)) by (nonlinear_arith)
            requires
                pow2(shift) == pow2((shift - j) as nat) * pow2(j),
                count == m * pow2((shift - j) as nat),
        ;
    } else {
        pow2_at_least_doubles(shift, j);
        assert(m * pow2(shift) < HIDDEN_BIT * pow2(j)) by (nonlinear_arith)
            requires
                0 <= m < 2 * HIDDEN_BIT,
                2 * pow2(shift) <= pow2(j),
                pow2(shift) > 0,
        ;
    }
}

/// Above a multiple `m * 2^j` with `m` of at least 2^52, the next finite
/// magnitude is no nearer than `(m + 1) * 2^j`.
pub proof fn magnitude_above_is_a_step_away(bits: u64, m: int, j: nat)
    requires
        is_finite(bits),
        m >= HIDDEN_BIT,
        magnitude(bits) > m * pow2(j),
    ensures
        magnitude(bits) >= (m + 1) * pow2(j),
{
    lemma_pow2_pos(j);
    assert(m * pow2(j) >= HIDDEN_BIT * pow2(j)) by (nonlinear_arith)
        requires
            m >= HIDDEN_BIT,
            pow2(j) > 0,
    ;
    large_magnitude_is_multiple(bits, j);
    let count = choose|count: int| magnitude(bits) == #[trigger] (count * pow2(j));
    assert(count * pow2(j) >= (m + 1) * pow2(j)) by (nonlinear_arith)
        requires
            count * pow2(j) > m * pow2(j),
            pow2(j) > 0,
    ;
}

/// Below a multiple `m * 2^j` with `m` above 2^52, the next finite
/// magnitude is no nearer than `(m - 1) * 2^j`.
pub proof fn magnitude_below_is_a_step_away(bits: u64, m: int, j: nat)
    requires
        is_finite(bits),
        m > HIDDEN_BIT,
        magnitude(bits) < m * pow2(j),
    ensures
        magnitude(bits) <= (m - 1) * pow2(j),
{
    lemma_pow2_pos(j);
    assert((m - 1) * pow2(j) >= HIDDEN_BIT * pow2(j)) by (nonlinear_arith)
        requires
            m > HIDDEN_BIT,
            pow2(j) > 0,
    ;
    if magnitude(bits) >= HIDDEN_BIT * pow2(j) {
        large_magnitude_is_multiple(bits, j);
        let count = choose|count: int| magnitude(bits) == #[trigger] (count * pow2(j));
        assert(count * pow2(j) <= (m - 1) * pow2(j)) by (nonlinear_arith)
            requires
                count * pow2(j) < m * pow2(j),
                pow2(j) > 0,
        ;
    }
}

/// Between two finite magnitudes with even significands lies a third
/// finite magnitude: neighbours among the binary64 numbers differ in the
/// last bit of their significands.
pub proof fn even_significands_are_no_neighbours(a: u64, b: u64, negative: bool) -> (between: u64)
    requires
        is_finite(a),
        is_finite(b),
        magnitude(a) < magnitude(b),
        significand(a) % 2 == 0,
        significand(b) % 2 == 0,
    ensures
        is_finite(between),
        sign_bit(between) == negative,
        magnitude(a) < magnitude(between) < magnitude(b),
{
    let exponent = exponent_field(a);
    let fraction = fraction_field(a);
    let shift = unit_shift(a);
    let m = significand(a);
    compose_has_fields(negative, exponent, fraction + 1);
    let between = compose(negative, exponent, fraction + 1) as u64;
    lemma_pow2_pos(shift);
    lemma2_to64();
    assert(magnitude(between) == (m + 1) * pow2(shift));
    assert((m + 1) * pow2(shift) == m * pow2(shift) + pow2(shift)) by (nonlinear_arith);
    if exponent != 0 {
        magnitude_above_is_a_step_away(b, m, shift);
    }
    if magnitude(between) == magnitude(b) {
        magnitude_determines_fields(between, b);
    }
    between
}

/// Of two finite patterns that are both nearest to `num / den`, the first
/// has no smaller value than the second.
proof fn nearest_is_not_below_nearest(a: u64, b: u64, num: int, den: int)
    requires
        den > 0,
        is_nearest(a, num, den),
        is_nearest(b, num, den),
    ensures
        signed_magnitude(a) >= signed_magnitude(b),
{
    let lower = signed_magnitude(a);
    let upper = signed_magnitude(b);
    let target = num * pow2(UNIT_EXPONENT as nat);
    if lower < upper {
        assert(is_finite(a) && is_finite(b));
        magnitude_is_nonnegative(a);
        magnitude_is_nonnegative(b);
        assert(lower * den < upper * den) by (nonlinear_arith)
            requires
                lower < upper,
                den > 0,
        ;
        assert(deviation(a, num, den) == deviation(b, num, den));
        assert(significand(a) % 2 == 0 && significand(b) % 2 == 0);
        assert(lower * den - target == target - upper * den);
        let between: u64 = if lower < 0 && upper > 0 {
            zero_is_finite();
            0
        } else if lower >= 0 {
            even_significands_are_no_neighbours(a, b, false)
        } else {
            even_significands_are_no_neighbours(b, a, true)
        };
        let middle = signed_magnitude(between);
        assert(is_finite(between));
        assert(lower < middle < upper);
        assert(lower * den < middle * den < upper * den) by (nonlinear_arith)
            requires
                lower < middle < upper,
                den > 0,
        ;
        assert(deviation(between, num, den) < deviation(a, num, den));
    }
}

/// Only one value is nearest: finite patterns that are both nearest to
/// `num / den` have the same value, and differ in the sign of zero if at all.
pub proof fn nearest_is_unique(a: u64, b: u64, num: int, den: int)
    requires
        den > 0,
        is_nearest(a, num, den),
        is_nearest(b, num, den),
    ensures
        signed_magnitude(a) == signed_magnitude(b),
        sign_bit(a) == sign_bit(b) ==> a == b,
{
    nearest_is_not_below_nearest(a, b, num, den);
    nearest_is_not_below_nearest(b, a, num, den);
    if sign_bit(a) == sign_bit(b) {
        magnitude_determines_fields(a, b);
        fields_determine_pattern(a);
        fields_determine_pattern(b);
    }
}

} // verus!
