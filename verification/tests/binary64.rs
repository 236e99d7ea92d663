use osm_types::binary64::{exponent_of, fraction_of, is_negative, HIDDEN_BIT, SIGN_BIT};

#[test]
fn fields_of_one() {
    let one = 1.0f64.to_bits();
    assert!(!is_negative(one));
    assert_eq!(exponent_of(one), 1023);
    assert_eq!(fraction_of(one), 0);
}

#[test]
fn fields_of_a_negative_number() {
    let bits = (-1.5f64).to_bits();
    assert!(is_negative(bits));
    assert_eq!(exponent_of(bits), 1023);
    assert_eq!(fraction_of(bits), HIDDEN_BIT / 2);
}

#[test]
fn fields_of_the_extremes() {
    assert_eq!(exponent_of(0), 0);
    assert_eq!(fraction_of(0), 0);
    assert!(is_negative(SIGN_BIT));
    assert_eq!(exponent_of(SIGN_BIT), 0);
    assert_eq!(exponent_of(u64::MAX), 2047);
    assert_eq!(fraction_of(u64::MAX), HIDDEN_BIT - 1);
    assert_eq!(exponent_of(f64::INFINITY.to_bits()), 2047);
    assert_eq!(fraction_of(f64::INFINITY.to_bits()), 0);
    assert_eq!(exponent_of(f64::MAX.to_bits()), 2046);
    assert_eq!(exponent_of(f64::MIN_POSITIVE.to_bits()), 1);
}
