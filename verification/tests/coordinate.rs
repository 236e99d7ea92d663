use osm_types::coordinate::{decode, encode, MAX_LATITUDE, MAX_LONGITUDE, SCALE};

fn quotient(value: i32) -> u64 {
    ((value as f64) / 1e7).to_bits()
}

#[test]
fn scale_and_bounds() {
    assert_eq!(SCALE, 10_000_000);
    assert_eq!(MAX_LATITUDE, 90 * SCALE);
    assert_eq!(MAX_LONGITUDE, 180 * SCALE);
}

#[test]
fn encode_rounds_to_the_nearest_integer() {
    assert_eq!(encode(51.509865f64.to_bits()), 515098650);
    assert_eq!(encode((-0.118092f64).to_bits()), -1180920);
    assert_eq!(encode(0.00000004f64.to_bits()), 0);
    assert_eq!(encode(0.00000006f64.to_bits()), 1);
    assert_eq!(encode((-0.00000004f64).to_bits()), 0);
    assert_eq!(encode((-0.00000006f64).to_bits()), -1);
    assert_eq!(encode(1.99999996f64.to_bits()), 20_000_000);
    assert_eq!(encode(1.99999994f64.to_bits()), 19_999_999);
}

#[test]
fn encode_rounds_halves_away_from_zero() {
    // 1/256 degree is 39062.5 units, 3/256 is 117187.5
    assert_eq!(encode(0.00390625f64.to_bits()), 39063);
    assert_eq!(encode((-0.00390625f64).to_bits()), -39063);
    assert_eq!(encode(0.01171875f64.to_bits()), 117188);
    assert_eq!(encode((-0.01171875f64).to_bits()), -117188);
}

#[test]
fn encode_of_zero_is_zero() {
    assert_eq!(encode(0.0f64.to_bits()), 0);
    assert_eq!(encode((-0.0f64).to_bits()), 0);
    assert_eq!(encode(0), 0);
    assert_eq!(encode(0x8000_0000_0000_0000), 0);
}

#[test]
fn encode_of_the_bounds() {
    assert_eq!(encode(90.0f64.to_bits()), 900_000_000);
    assert_eq!(encode((-90.0f64).to_bits()), -900_000_000);
    assert_eq!(encode(180.0f64.to_bits()), 1_800_000_000);
    assert_eq!(encode((-180.0f64).to_bits()), -1_800_000_000);
}

#[test]
fn encode_of_tiny_values_is_zero() {
    assert_eq!(encode(f64::MIN_POSITIVE.to_bits()), 0);
    assert_eq!(encode(1), 0);
    assert_eq!(encode(0x000f_ffff_ffff_ffff), 0);
    assert_eq!(encode((-f64::MIN_POSITIVE).to_bits()), 0);
    assert_eq!(encode(1e-300f64.to_bits()), 0);
    assert_eq!(encode(1e-20f64.to_bits()), 0);
}

#[test]
fn encode_limits_what_is_out_of_range() {
    assert_eq!(encode(214.7483647f64.to_bits()), i32::MAX);
    assert_eq!(encode(214.7483648f64.to_bits()), i32::MAX);
    assert_eq!(encode(215.0f64.to_bits()), i32::MAX);
    assert_eq!(encode((-214.7483648f64).to_bits()), i32::MIN);
    assert_eq!(encode((-215.0f64).to_bits()), i32::MIN);
    assert_eq!(encode(1e300f64.to_bits()), i32::MAX);
    assert_eq!(encode((-1e300f64).to_bits()), i32::MIN);
    assert_eq!(encode(4503599627370496.0f64.to_bits()), i32::MAX);
    assert_eq!(encode(f64::MAX.to_bits()), i32::MAX);
    assert_eq!(encode(f64::MIN.to_bits()), i32::MIN);
    assert_eq!(encode(214.7483646f64.to_bits()), 2147483646);
    assert_eq!(encode((-214.7483647f64).to_bits()), -2147483647);
}

#[test]
fn encode_of_infinities_and_nan() {
    assert_eq!(encode(f64::INFINITY.to_bits()), i32::MAX);
    assert_eq!(encode(f64::NEG_INFINITY.to_bits()), i32::MIN);
    assert_eq!(encode(f64::NAN.to_bits()), 0);
    assert_eq!(encode(0x7ff0_0000_0000_0001), 0);
    assert_eq!(encode(0xfff8_0000_0000_0000), 0);
}

#[test]
fn encode_agrees_with_rounding_in_hardware() {
    let mut degrees = -200.0f64;
    while degrees <= 200.0 {
        assert_eq!(encode(degrees.to_bits()), (degrees * 1e7).round() as i32);
        degrees += 0.001953125;
    }
}

#[test]
fn decode_gives_the_documented_values() {
    assert_eq!(f64::from_bits(decode(515098650)), 51.509865);
    assert_eq!(f64::from_bits(decode(-1180920)), -0.118092);
    assert_eq!(decode(515098650), 0x4049_c143_419e_3001);
    assert_eq!(decode(10_000_000), 1.0f64.to_bits());
    assert_eq!(decode(-10_000_000), (-1.0f64).to_bits());
    assert_eq!(decode(1), 1e-7f64.to_bits());
    assert_eq!(decode(-1), (-1e-7f64).to_bits());
    assert_eq!(decode(5_000_000), 0.5f64.to_bits());
    assert_eq!(decode(1_800_000_000), 180.0f64.to_bits());
    assert_eq!(decode(-900_000_000), (-90.0f64).to_bits());
}

#[test]
fn decode_of_zero_is_positive_zero() {
    assert_eq!(decode(0), 0);
    assert_eq!(f64::from_bits(decode(0)), 0.0);
    assert!(f64::from_bits(decode(0)).is_sign_positive());
}

#[test]
fn decode_of_the_extremes() {
    assert_eq!(decode(i32::MAX), quotient(i32::MAX));
    assert_eq!(decode(i32::MIN), quotient(i32::MIN));
    assert_eq!(decode(i32::MIN + 1), quotient(i32::MIN + 1));
    assert_eq!(f64::from_bits(decode(i32::MAX)), 214.7483647);
    assert_eq!(f64::from_bits(decode(i32::MIN)), -214.7483648);
}

#[test]
fn decode_is_division_in_hardware_for_small_values() {
    let mut value = -200_000;
    while value <= 200_000 {
        assert_eq!(decode(value), quotient(value));
        value += 1;
    }
}

#[test]
fn decode_is_division_in_hardware_across_the_range() {
    let mut value = i32::MIN as i64;
    while value <= i32::MAX as i64 {
        assert_eq!(decode(value as i32), quotient(value as i32));
        value += 9973;
    }
}

#[test]
fn decode_is_division_in_hardware_at_powers_of_two() {
    let mut power: i64 = 1;
    while power <= 1 << 31 {
        let mut offset = -3;
        while offset <= 3 {
            let value = power + offset;
            if value <= i32::MAX as i64 {
                assert_eq!(decode(value as i32), quotient(value as i32));
            }
            assert_eq!(decode(-value as i32), quotient(-value as i32));
            offset += 1;
        }
        power *= 2;
    }
}

#[test]
fn encode_inverts_decode() {
    let mut value = i32::MIN as i64;
    while value <= i32::MAX as i64 {
        assert_eq!(encode(decode(value as i32)) as i64, value);
        value += 7919;
    }
    assert_eq!(encode(decode(i32::MAX)), i32::MAX);
    assert_eq!(encode(decode(i32::MIN)), i32::MIN);
    assert_eq!(encode(decode(0)), 0);
}

#[test]
fn decode_of_encode_rounds_to_seven_places() {
    assert_eq!(f64::from_bits(decode(encode(51.50986512345f64.to_bits()))), 51.5098651);
    assert_eq!(f64::from_bits(decode(encode(51.50986516789f64.to_bits()))), 51.5098652);
    assert_eq!(f64::from_bits(decode(encode((-0.11809249f64).to_bits()))), -0.1180925);
    assert_eq!(f64::from_bits(decode(encode(89.99999999f64.to_bits()))), 90.0);
    assert_eq!(f64::from_bits(decode(encode((-179.99999999f64).to_bits()))), -180.0);
    assert_eq!(f64::from_bits(decode(encode(12.5f64.to_bits()))), 12.5);
}
