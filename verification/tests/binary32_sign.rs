use vector4::binary32::{abs, negate, DEFAULT_NAN, INFINITY, ONE, SIGN};

#[test]
fn abs_clears_the_sign_bit() {
    assert_eq!(abs((-1.5f32).to_bits()), 1.5f32.to_bits());
    assert_eq!(abs(1.5f32.to_bits()), 1.5f32.to_bits());
    assert_eq!(abs(SIGN), 0);
    assert_eq!(abs(SIGN | INFINITY), INFINITY);
    assert_eq!(abs(SIGN | DEFAULT_NAN), DEFAULT_NAN);
}

#[test]
fn negate_flips_the_sign_bit() {
    assert_eq!(negate(ONE), (-1.0f32).to_bits());
    assert_eq!(negate((-1.0f32).to_bits()), ONE);
    assert_eq!(negate(0), SIGN);
    assert_eq!(negate(SIGN), 0);
    assert_eq!(negate(INFINITY), SIGN | INFINITY);
    assert_eq!(negate(DEFAULT_NAN), SIGN | DEFAULT_NAN);
}

#[test]
fn sign_operations_match_hardware() {
    let mut bits: u32 = 3;
    for _ in 0..100_000 {
        bits = bits.wrapping_mul(1_664_525).wrapping_add(1_013_904_223);
        assert_eq!(abs(bits), f32::from_bits(bits).abs().to_bits());
        assert_eq!(negate(bits), (-f32::from_bits(bits)).to_bits());
    }
}

#[test]
fn one_is_the_pattern_of_one() {
    assert_eq!(ONE, 1.0f32.to_bits());
    assert_eq!(INFINITY, f32::INFINITY.to_bits());
    assert_eq!(SIGN, (-0.0f32).to_bits());
}
