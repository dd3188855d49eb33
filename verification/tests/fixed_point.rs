use meshterm::fixed::{fixed_from_bits, floor_div, integer_sqrt, ONE};

#[test]
fn decodes_whole_and_fractional_numbers() {
    assert_eq!(fixed_from_bits(1.0f32.to_bits()), Some(ONE));
    assert_eq!(fixed_from_bits(0.5f32.to_bits()), Some(32768));
    assert_eq!(fixed_from_bits((-1.5f32).to_bits()), Some(-98304));
    assert_eq!(fixed_from_bits(100.25f32.to_bits()), Some(6569984));
    assert_eq!(fixed_from_bits(3.14159265f32.to_bits()), Some(205887));
}

#[test]
fn decoding_rounds_toward_zero() {
    assert_eq!(fixed_from_bits(0.001f32.to_bits()), Some(65));
    assert_eq!(fixed_from_bits((-0.001f32).to_bits()), Some(-65));
}

#[test]
fn decodes_zeros_and_tiny_numbers_to_zero() {
    assert_eq!(fixed_from_bits(0.0f32.to_bits()), Some(0));
    assert_eq!(fixed_from_bits((-0.0f32).to_bits()), Some(0));
    assert_eq!(fixed_from_bits((f32::MIN_POSITIVE / 2.0).to_bits()), Some(0));
    assert_eq!(fixed_from_bits(1.0e-6f32.to_bits()), Some(0));
    assert_eq!(fixed_from_bits(1), Some(0));
}

#[test]
fn decodes_up_to_the_limit_and_not_beyond() {
    assert_eq!(fixed_from_bits(0x46ff_ffff), Some(2147483520));
    assert_eq!(fixed_from_bits(0xc6ff_ffff), Some(-2147483520));
    assert_eq!(fixed_from_bits(32768.0f32.to_bits()), None);
    assert_eq!(fixed_from_bits((-32768.0f32).to_bits()), None);
    assert_eq!(fixed_from_bits(1.0e30f32.to_bits()), None);
}

#[test]
fn rejects_what_is_not_finite() {
    assert_eq!(fixed_from_bits(f32::NAN.to_bits()), None);
    assert_eq!(fixed_from_bits(f32::INFINITY.to_bits()), None);
    assert_eq!(fixed_from_bits(f32::NEG_INFINITY.to_bits()), None);
}

#[test]
fn integer_square_roots() {
    assert_eq!(integer_sqrt(0), 0);
    assert_eq!(integer_sqrt(1), 1);
    assert_eq!(integer_sqrt(2), 1);
    assert_eq!(integer_sqrt(3), 1);
    assert_eq!(integer_sqrt(4), 2);
    assert_eq!(integer_sqrt(15), 3);
    assert_eq!(integer_sqrt(16), 4);
    assert_eq!(integer_sqrt(4294985360), 65536);
    assert_eq!(integer_sqrt(1u128 << 126), 1u128 << 63);
    assert_eq!(integer_sqrt(u128::MAX), 18446744073709551615);
}

#[test]
fn floor_division_rounds_down() {
    assert_eq!(floor_div(7, 2), 3);
    assert_eq!(floor_div(-7, 2), -4);
    assert_eq!(floor_div(-8, 2), -4);
    assert_eq!(floor_div(0, 5), 0);
    assert_eq!(floor_div(-1, 65536), -1);
    assert_eq!(floor_div(65535, 65536), 0);
}
