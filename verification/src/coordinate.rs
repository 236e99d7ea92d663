//! The fixed-point encoding of geographic coordinates.
//!
//! A coordinate is stored as a 32-bit signed integer that counts units of
//! 10^-7 degree. Degree values enter and leave as IEEE 754 binary64 bit
//! patterns: `encode` rounds a pattern's value, scaled by 10^7, to the
//! nearest integer, and `decode` gives the pattern of the binary64 number
//! nearest to an encoded value divided by 10^7.

use vstd::prelude::*;
use vstd::arithmetic::div_mod::*;
use vstd::arithmetic::power2::*;
use crate::binary64::{
    compose, compose_has_fields, deviation, exponent_field, exponent_of, fraction_of, is_finite,
    is_infinite, is_nan, is_nearest, is_negative, magnitude, magnitude_above_is_a_step_away,
    magnitude_below_is_a_step_away, magnitude_is_nonnegative, nearest_is_unique,
    pow2_at_least_doubles, sign_bit, signed_magnitude, significand, unit_shift, zero_is_finite,
    EXPONENT_SPECIAL, HIDDEN_BIT, SIGN_BIT, UNIT_EXPONENT,
};
use crate::rounding::{
    nearest_is_round_half_up, round_half_even, round_half_up, round_half_up_cancels,
    round_half_up_is_nearest,
};

verus! {

/// Encoded units per degree.
pub const SCALE: i32 = 10_000_000;

/// The encoded value of 90 degrees, the bound of a latitude.
pub const MAX_LATITUDE: i32 = 900_000_000;

/// The encoded value of 180 degrees, the bound of a longitude.
pub const MAX_LONGITUDE: i32 = 1_800_000_000;

/// The least product of an encoded magnitude and a power of two whose
/// quotient by 10^7 has 53 significant bits: 2^52 * 10^7.
pub const NORMAL_NUMERATOR: u128 = 45_035_996_273_704_960_000_000;

/// Whether an encoded value lies between -90 and 90 degrees.
pub open spec fn valid_latitude(value: i32) -> bool {
    -MAX_LATITUDE <= value <= MAX_LATITUDE
}

/// Whether an encoded value lies between -180 and 180 degrees.
pub open spec fn valid_longitude(value: i32) -> bool {
    -MAX_LONGITUDE <= value <= MAX_LONGITUDE
}

/// The magnitude of a finite pattern's value times 10^7, rounded to the
/// nearest integer, halves away from zero.
pub open spec fn scaled_magnitude(bits: u64) -> int {
    round_half_up(magnitude(bits) * SCALE, pow2(UNIT_EXPONENT as nat) as int)
}

/// `value` limited to the range of a 32-bit signed integer.
pub open spec fn saturate(value: int) -> int {
    if value < i32::MIN {
        i32::MIN as int
    } else if value > i32::MAX {
        i32::MAX as int
    } else {
        value
    }
}

/// The encoding of the degree value with pattern `bits`: the value times
/// 10^7, rounded to the nearest integer with halves away from zero, and
/// limited to 32 bits. An infinity is limited like any value out of range;
/// a NaN encodes as zero.
pub open spec fn encode_spec(bits: u64) -> int {
    if is_nan(bits) {
        0
    } else if is_infinite(bits) {
        if sign_bit(bits) {
            i32::MIN as int
        } else {
            i32::MAX as int
        }
    } else if sign_bit(bits) {
        saturate(-scaled_magnitude(bits))
    } else {
        saturate(scaled_magnitude(bits))
    }
}

/// The magnitude of an encoded value.
pub open spec fn abs_value(value: i32) -> int {
    if value < 0 {
        -(value as int)
    } else {
        value as int
    }
}

/// The power of two by which `magnitude / 10^7` has to be multiplied to lie
/// from 2^52 up to, but not including, 2^53.
pub open spec fn normalizing_places(magnitude: int) -> nat {
    choose|places: nat|
        NORMAL_NUMERATOR <= magnitude * #[trigger] pow2(places) < 2 * NORMAL_NUMERATOR
}

/// The significand, with its leading bit, of the binary64 number nearest
/// to `value / 10^7`, for a `value` other than zero. It lies from 2^52 to
/// 2^53, both included.
pub open spec fn decoded_significand(value: i32) -> int {
    round_half_even(
        abs_value(value) * pow2(normalizing_places(abs_value(value))),
        SCALE as int,
    )
}

/// The pattern of the binary64 number nearest to `value / 10^7`, the even
/// significand winning a tie: the result of dividing `value`, which
/// binary64 holds exactly, by 10^7 in binary64 arithmetic.
pub open spec fn decode_spec(value: i32) -> u64 {
    if value == 0 {
        0
    } else {
        let places = normalizing_places(abs_value(value)) as int;
        let m = decoded_significand(value);
        if m == 2 * HIDDEN_BIT {
            compose(value < 0, UNIT_EXPONENT + 2 - places, 0) as u64
        } else {
            compose(value < 0, UNIT_EXPONENT + 1 - places, m - HIDDEN_BIT) as u64
        }
    }
}

/// The encoding of the degree value whose binary64 pattern is `bits`.
///
/// The value is multiplied by 10^7 and rounded to the nearest integer,
/// halves away from zero. A value beyond the 32-bit range, infinite ones
/// included, gives the nearest bound of that range, and a NaN gives zero.
pub fn encode(bits: u64) -> (r: i32)
    ensures
        r == encode_spec(bits),
{
    let negative: bool = is_negative(bits);
    let exponent: u64 = exponent_of(bits);
    let fraction: u64 = fraction_of(bits);
    if exponent == EXPONENT_SPECIAL {
        if fraction != 0 {
            0
        } else if negative {
            i32::MIN
        } else {
            i32::MAX
        }
    } else if exponent > UNIT_EXPONENT {
        // a magnitude of 2^52 or more
        proof {
            large_magnitude_saturates(bits);
        }
        if negative {
            i32::MIN
        } else {
            i32::MAX
        }
    } else {
        // the magnitude is m / 2^places
        let m: u64 = if exponent == 0 {
            fraction
        } else {
            HIDDEN_BIT + fraction
        };
        let places: u64 = if exponent == 0 {
            UNIT_EXPONENT
        } else {
            UNIT_EXPONENT + 1 - exponent
        };
        let n: u128 = (m as u128) * (SCALE as u128);
        proof {
            scaled_magnitude_by_places(bits);
            assert(places == binary_places(bits));
            assert(n == significand(bits) * SCALE);
            lemma_pow2_pos(places as nat);
        }
        if places >= 78 {
            // n is below 2^77, so that n / 2^places is below one half
            proof {
                lemma2_to64();
                lemma_pow2_adds(64, 14);
                if places > 78 {
                    lemma_pow2_strictly_increases(78, places as nat);
                }
                nearest_is_round_half_up(n as int, pow2(places as nat) as int, 0);
            }
            0
        } else {
            let half: u128 = power_of_two((places - 1) as u32);
            let q: u128 = (n + half) / (2 * half);
            proof {
                lemma_pow2_unfold(places as nat);
                lemma_div_multiples_vanish_quotient(2, (n + half) as int, (2 * half) as int);
                assert(2 * (n + half) == 2 * n + 2 * half);
                assert(q == scaled_magnitude(bits));
            }
            if negative {
                if q >= 0x8000_0000 {
                    i32::MIN
                } else {
                    -(q as i32)
                }
            } else {
                if q > 0x7fff_ffff {
                    i32::MAX
                } else {
                    q as i32
                }
            }
        }
    }
}

/// The pattern of the binary64 number nearest to the encoded `value`
/// divided by 10^7, which is the degree value that `value` stands for.
pub fn decode(value: i32) -> (r: u64)
    ensures
        r == decode_spec(value),
        is_nearest(r, value as int, SCALE as int),
        sign_bit(r) == (value < 0),
{
    proof {
        decode_is_nearest(value);
        if value != 0 {
            decoded_parts(value);
        }
    }
    if value == 0 {
        return 0;
    }
    let negative: bool = value < 0;
    let a: u128 = if negative {
        (-(value as i64)) as u128
    } else {
        value as u128
    };
    // a * 2^45 lies below 2^53 * 10^7 for every a; double it until it has come up to 2^52 * 10^7
    let mut places: u64 = 45;
    let mut scaled: u128 = a * 0x2000_0000_0000;
    proof {
        lemma2_to64();
        lemma2_to64_rest();
        lemma_pow2_adds(64, 12);
    }
    while scaled < NORMAL_NUMERATOR
        invariant
            1 <= a <= 0x8000_0000,
            45 <= places <= 76,
            scaled == a * pow2(places as nat),
            scaled < 2 * NORMAL_NUMERATOR,
            pow2(76) == 0x1000_0000_0000_0000_0000,
        decreases 76 - places,
    {
        proof {
            lemma_pow2_unfold((places + 1) as nat);
            assert(a * pow2(places as nat) >= pow2(places as nat)) by (nonlinear_arith)
                requires
                    a >= 1,
            ;
            assert(a * (2 * pow2(places as nat)) == 2 * (a * pow2(places as nat)))
                by (nonlinear_arith);
        }
        scaled = scaled * 2;
        places = places + 1;
    }
    proof {
        assert(a == abs_value(value));
        normalizing_places_is_unique(a as int, places as nat);
    }
    let scale: u128 = SCALE as u128;
    let quotient: u128 = scaled / scale;
    let remainder: u128 = scaled % scale;
    let round_up: bool = 2 * remainder > scale || (2 * remainder == scale && quotient % 2 == 1);
    let m: u64 = if round_up {
        (quotient + 1) as u64
    } else {
        quotient as u64
    };
    assert(m == decoded_significand(value));
    let sign: u64 = if negative {
        SIGN_BIT
    } else {
        0
    };
    if m == 2 * HIDDEN_BIT {
        // rounded up to the next power of two
        sign + (UNIT_EXPONENT + 2 - places) * HIDDEN_BIT
    } else {
        sign + (UNIT_EXPONENT + 1 - places) * HIDDEN_BIT + (m - HIDDEN_BIT)
    }
}

/// The decoded pattern is the binary64 number nearest to the encoded value
/// divided by 10^7, an even significand winning a tie: what binary64
/// division of the value by 10^7 gives.
pub proof fn decode_is_nearest(value: i32)
    ensures
        is_nearest(decode_spec(value), value as int, SCALE as int),
{
    let bits = decode_spec(value);
    if value == 0 {
        zero_is_finite();
        assert(deviation(bits, 0, SCALE as int) == 0);
        assert forall|other: u64| #[trigger] is_finite(other) implies {
            &&& deviation(bits, 0, SCALE as int) <= deviation(other, 0, SCALE as int)
            &&& (deviation(bits, 0, SCALE as int) == deviation(other, 0, SCALE as int)
                && signed_magnitude(other) != signed_magnitude(bits)) ==> significand(bits) % 2
                == 0
        } by {}
    } else {
        decoded_parts(value);
        assert forall|other: u64| #[trigger] is_finite(other) implies {
            &&& deviation(bits, value as int, SCALE as int) <= deviation(
                other,
                value as int,
                SCALE as int,
            )
            &&& (deviation(bits, value as int, SCALE as int) == deviation(
                other,
                value as int,
                SCALE as int,
            ) && signed_magnitude(other) != signed_magnitude(bits)) ==> significand(bits) % 2
                == 0
        } by {
            decoded_is_no_farther(value, other);
        }
    }
}

/// The decoded pattern is the only pattern with the sign of `value` that
/// is nearest to `value / 10^7`.
pub proof fn nearest_with_sign_is_decoded(bits: u64, value: i32)
    requires
        is_nearest(bits, value as int, SCALE as int),
        sign_bit(bits) == (value < 0),
    ensures
        bits == decode_spec(value),
{
    decode_is_nearest(value);
    if value != 0 {
        decoded_parts(value);
    }
    nearest_is_unique(bits, decode_spec(value), value as int, SCALE as int);
}

/// Encoding undoes decoding: every encoded value is what its decoded
/// degree value encodes to.
pub proof fn encode_inverts_decode(value: i32)
    ensures
        encode_spec(decode_spec(value)) == value,
{
    let bits = decode_spec(value);
    let unit = pow2(UNIT_EXPONENT as nat) as int;
    lemma_pow2_pos(UNIT_EXPONENT as nat);
    if value == 0 {
        zero_is_finite();
        nearest_is_round_half_up(0, unit, 0);
    } else {
        decoded_parts(value);
        let a = abs_value(value);
        let places = normalizing_places(a);
        let m = decoded_significand(value);
        let j = (UNIT_EXPONENT - places) as nat;
        let g = pow2(j) as int;
        let p = pow2(places) as int;
        lemma_pow2_pos(j);
        lemma_pow2_adds(j, places);
        lemma2_to64_rest();
        if places > 45 {
            lemma_pow2_strictly_increases(45, places);
        }
        assert(magnitude(bits) * SCALE == g * (m * SCALE)) by (nonlinear_arith)
            requires
                magnitude(bits) == m * g,
        ;
        round_half_up_cancels(g, m * SCALE, p);
        assert(2 * a * p == 2 * (a * p)) by (nonlinear_arith);
        nearest_is_round_half_up(m * SCALE, p, a);
    }
}

/// Decoding loses nothing: different encoded values decode to different patterns.
pub proof fn decode_is_injective(a: i32, b: i32)
    requires
        decode_spec(a) == decode_spec(b),
    ensures
        a == b,
{
    encode_inverts_decode(a);
    encode_inverts_decode(b);
}

/// A degree value of magnitude at most `degrees` encodes to the integer
/// nearest to the value times 10^7, and that integer has a magnitude of at
/// most `degrees * 10^7`. With 90 for `degrees` this is the range of
/// latitudes, with 180 that of longitudes.
pub proof fn encode_in_range_is_nearest(bits: u64, degrees: int)
    requires
        is_finite(bits),
        0 <= degrees <= 214,
        magnitude(bits) <= degrees * pow2(UNIT_EXPONENT as nat),
    ensures
        -degrees * SCALE <= encode_spec(bits) <= degrees * SCALE,
        -pow2(UNIT_EXPONENT as nat) <= 2 * (encode_spec(bits) * pow2(UNIT_EXPONENT as nat)
            - signed_magnitude(bits) * SCALE) <= pow2(UNIT_EXPONENT as nat),
{
    let unit = pow2(UNIT_EXPONENT as nat) as int;
    let r = scaled_magnitude(bits);
    let num = magnitude(bits) * SCALE;
    lemma_pow2_pos(UNIT_EXPONENT as nat);
    magnitude_is_nonnegative(bits);
    round_half_up_is_nearest(num, unit);
    assert(num <= degrees * SCALE * unit) by (nonlinear_arith)
        requires
            num == magnitude(bits) * SCALE,
            magnitude(bits) <= degrees * unit,
            SCALE > 0,
    ;
    assert(r <= degrees * SCALE) by (nonlinear_arith)
        requires
            2 * r * unit - unit <= 2 * num,
            num <= degrees * SCALE * unit,
            unit > 0,
    ;
    assert((-r) * unit == -(r * unit)) by (nonlinear_arith);
    assert(2 * r * unit == 2 * (r * unit)) by (nonlinear_arith);
}

/// Decoding after encoding rounds to seven decimal places: for a degree
/// value of magnitude at most 180, the encoding `n` is the integer nearest
/// to the value times 10^7, and decoding `n` gives the binary64 number
/// nearest to `n / 10^7`.
pub proof fn decode_of_encode_rounds_to_seven_places(bits: u64)
    requires
        is_finite(bits),
        magnitude(bits) <= 180 * pow2(UNIT_EXPONENT as nat),
    ensures
        valid_longitude(encode_spec(bits) as i32),
        -pow2(UNIT_EXPONENT as nat) <= 2 * (encode_spec(bits) * pow2(UNIT_EXPONENT as nat)
            - signed_magnitude(bits) * SCALE) <= pow2(UNIT_EXPONENT as nat),
        is_nearest(decode_spec(encode_spec(bits) as i32), encode_spec(bits), SCALE as int),
{
    encode_in_range_is_nearest(bits, 180);
    decode_is_nearest(encode_spec(bits) as i32);
}

/// Only one power of two normalizes a given magnitude.
pub proof fn normalizing_places_is_unique(magnitude: int, places: nat)
    requires
        NORMAL_NUMERATOR <= magnitude * pow2(places) < 2 * NORMAL_NUMERATOR,
    ensures
        normalizing_places(magnitude) == places,
{
    let other = normalizing_places(magnitude);
    lemma_pow2_pos(places);
    lemma_pow2_pos(other);
    assert(magnitude > 0) by (nonlinear_arith)
        requires
            0 < magnitude * pow2(places),
            pow2(places) > 0,
    ;
    if other < places {
        pow2_at_least_doubles(other, places);
        assert(magnitude * pow2(places) >= 2 * (magnitude * pow2(other))) by (nonlinear_arith)
            requires
                magnitude > 0,
                2 * pow2(other) <= pow2(places),
        ;
    } else if places < other {
        pow2_at_least_doubles(places, other);
        assert(magnitude * pow2(other) >= 2 * (magnitude * pow2(places))) by (nonlinear_arith)
            requires
                magnitude > 0,
                2 * pow2(places) <= pow2(other),
        ;
    }
}

/// The power of two with exponent `exponent`.
fn power_of_two(exponent: u32) -> (r: u128)
    requires
        exponent <= 126,
    ensures
        r == pow2(exponent as nat),
        0 < r < 0x8000_0000_0000_0000_0000_0000_0000_0000,
{
    let mut r: u128 = 1;
    let mut i: u32 = 0;
    proof {
        lemma2_to64();
        lemma2_to64_rest();
        lemma_pow2_adds(64, 63);
        lemma_pow2_pos(exponent as nat);
        lemma_pow2_strictly_increases(exponent as nat, 127);
    }
    while i < exponent
        invariant
            i <= exponent <= 126,
            r == pow2(i as nat),
            r <= pow2(exponent as nat),
            pow2(exponent as nat) < 0x8000_0000_0000_0000_0000_0000_0000_0000,
        decreases exponent - i,
    {
        proof {
            lemma_pow2_unfold((i + 1) as nat);
            if i + 1 < exponent {
                lemma_pow2_strictly_increases((i + 1) as nat, exponent as nat);
            }
        }
        r = r * 2;
        i = i + 1;
    }
    proof {
        lemma_pow2_pos(exponent as nat);
    }
    r
}

/// The binary exponent of a finite pattern, negated: the pattern's
/// magnitude is its significand divided by two to this power, as long as
/// the exponent field is at most 1074.
spec fn binary_places(bits: u64) -> nat {
    (UNIT_EXPONENT - unit_shift(bits)) as nat
}

/// With the value written as significand over a power of two, the units of
/// 2^-1074 cancel out of the scaled magnitude.
proof fn scaled_magnitude_by_places(bits: u64)
    requires
        exponent_field(bits) <= UNIT_EXPONENT,
    ensures
        scaled_magnitude(bits) == round_half_up(
            significand(bits) * SCALE,
            pow2(binary_places(bits)) as int,
        ),
{
    let shift = unit_shift(bits);
    let places = binary_places(bits);
    let unit = pow2(shift) as int;
    let m = significand(bits);
    lemma_pow2_pos(shift);
    lemma_pow2_pos(places);
    lemma_pow2_adds(shift, places);
    assert(magnitude(bits) * SCALE == unit * (m * SCALE)) by (nonlinear_arith)
        requires
            magnitude(bits) == m * unit,
    ;
    round_half_up_cancels(unit, m * SCALE, pow2(places) as int);
}

/// A finite value of at least 2^52 is beyond the 32-bit range once scaled.
proof fn large_magnitude_saturates(bits: u64)
    requires
        is_finite(bits),
        exponent_field(bits) > UNIT_EXPONENT,
    ensures
        scaled_magnitude(bits) > 0x8000_0000,
{
    let shift = unit_shift(bits);
    let unit = pow2(UNIT_EXPONENT as nat) as int;
    let m = significand(bits);
    let r = scaled_magnitude(bits);
    lemma_pow2_pos(UNIT_EXPONENT as nat);
    if shift > UNIT_EXPONENT {
        lemma_pow2_strictly_increases(UNIT_EXPONENT as nat, shift);
    }
    assert(magnitude(bits) * SCALE >= 0x0010_0000_0000_0000 * unit) by (nonlinear_arith)
        requires
            magnitude(bits) == m * pow2(shift),
            m >= 0x0010_0000_0000_0000,
            pow2(shift) >= unit,
            unit > 0,
            SCALE == 10_000_000,
    ;
    round_half_up_is_nearest(magnitude(bits) * SCALE, unit);
    assert(2 * r + 1 > 2 * 0x0010_0000_0000_0000) by (nonlinear_arith)
        requires
            2 * (magnitude(bits) * SCALE) < 2 * r * unit + unit,
            magnitude(bits) * SCALE >= 0x0010_0000_0000_0000 * unit,
            unit > 0,
    ;
}

/// Every magnitude of an encoded value but zero has its normalizing power of two.
proof fn normalizing_places_exist(magnitude: int, places: nat)
    requires
        1 <= magnitude <= 0x8000_0000,
        45 <= places <= 76,
        magnitude * pow2(places) < 2 * NORMAL_NUMERATOR,
    ensures
        45 <= normalizing_places(magnitude) <= 76,
        NORMAL_NUMERATOR <= magnitude * pow2(normalizing_places(magnitude)) < 2
            * NORMAL_NUMERATOR,
    decreases 76 - places,
{
    if magnitude * pow2(places) >= NORMAL_NUMERATOR {
        normalizing_places_is_unique(magnitude, places);
    } else {
        lemma2_to64();
        lemma_pow2_adds(64, 12);
        lemma_pow2_unfold(places + 1);
        assert(magnitude * pow2(places) >= pow2(places)) by (nonlinear_arith)
            requires
                magnitude >= 1,
        ;
        assert(magnitude * (2 * pow2(places)) == 2 * (magnitude * pow2(places)))
            by (nonlinear_arith);
        normalizing_places_exist(magnitude, places + 1);
    }
}

/// What the decoded pattern of a value other than zero is made of.
proof fn decoded_parts(value: i32)
    requires
        value != 0,
    ensures
        ({
            let places = normalizing_places(abs_value(value));
            let numerator = abs_value(value) * pow2(places);
            let m = decoded_significand(value);
            let bits = decode_spec(value);
            &&& 45 <= places <= 76
            &&& NORMAL_NUMERATOR <= numerator < 2 * NORMAL_NUMERATOR
            &&& HIDDEN_BIT <= m <= 2 * HIDDEN_BIT
            &&& -SCALE <= 2 * (m * SCALE - numerator) <= SCALE
            &&& (2 * (m * SCALE - numerator) == SCALE || 2 * (m * SCALE - numerator) == -SCALE)
                ==> m % 2 == 0
            &&& m == HIDDEN_BIT ==> m * SCALE <= numerator
            &&& is_finite(bits)
            &&& sign_bit(bits) == (value < 0)
            &&& magnitude(bits) == m * pow2((UNIT_EXPONENT - places) as nat)
            &&& significand(bits) % 2 == m % 2
        }),
{
    let a = abs_value(value);
    lemma2_to64();
    lemma2_to64_rest();
    normalizing_places_exist(a, 45);
    let places = normalizing_places(a);
    let m = decoded_significand(value);
    let step = pow2((UNIT_EXPONENT - places) as nat);
    if m == 2 * HIDDEN_BIT {
        compose_has_fields(value < 0, UNIT_EXPONENT + 2 - places, 0);
        lemma_pow2_unfold((UNIT_EXPONENT + 1 - places) as nat);
        assert(HIDDEN_BIT * (2 * step) == (2 * HIDDEN_BIT) * step) by (nonlinear_arith);
    } else {
        compose_has_fields(value < 0, UNIT_EXPONENT + 1 - places, m - HIDDEN_BIT);
    }
}

/// The decoded pattern of a value other than zero lies no farther from the
/// value's quotient by 10^7 than any finite pattern, and has an even
/// significand where one lies as near.
proof fn decoded_is_no_farther(value: i32, other: u64)
    requires
        value != 0,
        is_finite(other),
    ensures
        deviation(decode_spec(value), value as int, SCALE as int) <= deviation(
            other,
            value as int,
            SCALE as int,
        ),
        (deviation(decode_spec(value), value as int, SCALE as int) == deviation(
            other,
            value as int,
            SCALE as int,
        ) && signed_magnitude(other) != signed_magnitude(decode_spec(value))) ==> significand(
            decode_spec(value),
        ) % 2 == 0,
{
    decoded_parts(value);
    magnitude_is_nonnegative(other);
    // With both signs turned to that of a positive `value`, and in units of
    // 2^-1074: the decoded pattern has the magnitude mg, its neighbours lie
    // at least g away from it, and 10^7 times the magnitudes are compared
    // with xg, which stands for the quotient. The decoded pattern misses it
    // by eg, at most half of 10^7 * g.
    let a = abs_value(value);
    let places = normalizing_places(a);
    let x = a * pow2(places);
    let m = decoded_significand(value);
    let j = (UNIT_EXPONENT - places) as nat;
    let g = pow2(j) as int;
    let e = m * SCALE - x;
    let mg = m * g;
    let xg = x * g;
    let eg = e * g;
    let unit = pow2(UNIT_EXPONENT as nat) as int;
    lemma_pow2_pos(j);
    lemma_pow2_adds(places, j);
    assert(a * unit == xg) by (nonlinear_arith)
        requires
            unit == pow2(places) * g,
            xg == (a * pow2(places)) * g,
    ;
    assert(eg == mg * SCALE - xg) by (nonlinear_arith)
        requires
            eg == (m * SCALE - x) * g,
            mg == m * g,
            xg == x * g,
    ;
    assert(-(SCALE * g) <= 2 * eg <= SCALE * g) by (nonlinear_arith)
        requires
            -SCALE <= 2 * e <= SCALE,
            eg == e * g,
            g > 0,
    ;
    assert((2 * eg == SCALE * g ==> 2 * e == SCALE) && (2 * eg == -(SCALE * g) ==> 2 * e
        == -SCALE)) by (nonlinear_arith)
        requires
            eg == e * g,
            g > 0,
    ;
    assert(e <= 0 ==> eg <= 0) by (nonlinear_arith)
        requires
            eg == e * g,
            g > 0,
    ;
    assert(xg >= NORMAL_NUMERATOR * g) by (nonlinear_arith)
        requires
            x >= NORMAL_NUMERATOR,
            xg == x * g,
            g > 0,
    ;
    assert((m + 1) * g == mg + g && (m - 1) * g == mg - g) by (nonlinear_arith)
        requires
            mg == m * g,
    ;
    let v = value as int;
    let bits = decode_spec(value);
    assert(v * unit == if value < 0 { -xg } else { xg }) by (nonlinear_arith)
        requires
            a * unit == xg,
            v == (if value < 0 { -a } else { a }),
    ;
    let mirrored = if value < 0 {
        -signed_magnitude(other)
    } else {
        signed_magnitude(other)
    };
    let ours = deviation(bits, v, SCALE as int);
    let theirs = deviation(other, v, SCALE as int);
    assert(ours == if eg < 0 { -eg } else { eg });
    assert(theirs == if mirrored * SCALE - xg < 0 {
        xg - mirrored * SCALE
    } else {
        mirrored * SCALE - xg
    });
    if mirrored > mg {
        magnitude_above_is_a_step_away(other, m, j);
        assert(mirrored >= mg + g);
        assert(theirs >= eg + SCALE * g);
    } else if mirrored <= 0 {
        assert(theirs >= xg);
    } else if mirrored == mg {
        assert(signed_magnitude(other) == signed_magnitude(bits));
    } else if m > HIDDEN_BIT {
        magnitude_below_is_a_step_away(other, m, j);
        assert(mirrored <= mg - g);
        assert(theirs >= SCALE * g - eg);
    } else {
        // at a power of two the lower neighbours lie nearer, but the
        // quotient lies at or above the decoded value
        assert(eg <= 0);
        assert(theirs > -eg);
    }
}

} // verus!
