use vector4::binary32::{clamp, maximum, minimum, DEFAULT_NAN, INFINITY, SIGN};

fn bits(x: f32) -> u32 {
    x.to_bits()
}

#[test]
fn maximum_and_minimum_of_numbers() {
    assert_eq!(maximum(bits(1.0), bits(2.0)), bits(2.0));
    assert_eq!(maximum(bits(2.0), bits(1.0)), bits(2.0));
    assert_eq!(minimum(bits(1.0), bits(2.0)), bits(1.0));
    assert_eq!(maximum(bits(-1.0), bits(-2.0)), bits(-1.0));
    assert_eq!(minimum(bits(-1.0), bits(-2.0)), bits(-2.0));
    assert_eq!(maximum(bits(-1.0), bits(1.0e-40)), bits(1.0e-40));
    assert_eq!(minimum(bits(3.5), bits(3.5)), bits(3.5));
}

#[test]
fn maximum_and_minimum_order_infinities() {
    assert_eq!(maximum(INFINITY, bits(f32::MAX)), INFINITY);
    assert_eq!(minimum(INFINITY, bits(f32::MAX)), bits(f32::MAX));
    assert_eq!(minimum(SIGN | INFINITY, bits(f32::MIN)), SIGN | INFINITY);
    assert_eq!(maximum(SIGN | INFINITY, bits(f32::MIN)), bits(f32::MIN));
}

#[test]
fn negative_zero_is_below_positive_zero() {
    assert_eq!(maximum(SIGN, 0), 0);
    assert_eq!(maximum(0, SIGN), 0);
    assert_eq!(minimum(SIGN, 0), SIGN);
    assert_eq!(minimum(0, SIGN), SIGN);
}

#[test]
fn a_nan_operand_gives_a_nan() {
    assert_eq!(maximum(DEFAULT_NAN, bits(1.0)), DEFAULT_NAN);
    assert_eq!(maximum(bits(1.0), DEFAULT_NAN), DEFAULT_NAN);
    assert_eq!(minimum(DEFAULT_NAN, bits(1.0)), DEFAULT_NAN);
    assert_eq!(minimum(bits(1.0), DEFAULT_NAN), DEFAULT_NAN);
    assert!(f32::from_bits(maximum(bits(f32::NAN), bits(f32::INFINITY))).is_nan());
}

#[test]
fn a_signalling_nan_comes_first_and_comes_out_quiet() {
    assert_eq!(maximum(0x7FC0_0001, 0x7F80_0002), 0x7FC0_0002);
    assert_eq!(maximum(0x7F80_0001, 0x7F80_0002), 0x7FC0_0001);
    assert_eq!(minimum(0x7FC0_0001, 0xFFC0_0002), 0x7FC0_0001);
    assert_eq!(minimum(bits(1.0), 0xFF80_0002), 0xFFC0_0002);
}

#[test]
fn maximum_and_minimum_match_a_comparison_of_floats() {
    let mut state: u32 = 0x1234_5678;
    let mut count = 0;
    while count < 200_000 {
        state = state.wrapping_mul(1_664_525).wrapping_add(1_013_904_223);
        let a = state;
        state = state.wrapping_mul(1_664_525).wrapping_add(1_013_904_223);
        let b = state;
        let (x, y) = (f32::from_bits(a), f32::from_bits(b));
        if !x.is_nan() && !y.is_nan() && x != y {
            let larger = if x > y { a } else { b };
            let smaller = if x > y { b } else { a };
            assert_eq!(maximum(a, b), larger);
            assert_eq!(minimum(a, b), smaller);
        }
        count += 1;
    }
}

#[test]
fn clamp_leaves_a_number_within_the_bounds() {
    assert_eq!(clamp(bits(0.5), bits(0.0), bits(1.0)), bits(0.5));
    assert_eq!(clamp(bits(0.0), bits(0.0), bits(1.0)), bits(0.0));
    assert_eq!(clamp(bits(1.0), bits(0.0), bits(1.0)), bits(1.0));
}

#[test]
fn clamp_moves_a_number_outside_to_the_bound() {
    assert_eq!(clamp(bits(-3.0), bits(0.0), bits(1.0)), bits(0.0));
    assert_eq!(clamp(bits(7.0), bits(0.0), bits(1.0)), bits(1.0));
    assert_eq!(clamp(INFINITY, bits(-2.0), bits(2.0)), bits(2.0));
    assert_eq!(clamp(SIGN | INFINITY, bits(-2.0), bits(2.0)), bits(-2.0));
}

#[test]
fn clamp_with_crossed_bounds_gives_the_lower_bound() {
    assert_eq!(clamp(bits(1.0), bits(4.0), bits(2.0)), bits(4.0));
    assert_eq!(clamp(bits(3.0), bits(4.0), bits(2.0)), bits(4.0));
    assert_eq!(clamp(bits(9.0), bits(4.0), bits(2.0)), bits(4.0));
    assert_eq!(clamp(bits(-9.0), bits(-1.0), bits(-2.0)), bits(-1.0));
    assert_eq!(clamp(bits(5.0), 0, SIGN), 0);
}

#[test]
fn clamp_of_a_nan_is_a_nan() {
    assert_eq!(clamp(DEFAULT_NAN, bits(0.0), bits(1.0)), DEFAULT_NAN);
    assert!(f32::from_bits(clamp(bits(0.5), bits(f32::NAN), bits(1.0))).is_nan());
    assert!(f32::from_bits(clamp(bits(0.5), bits(0.0), bits(f32::NAN))).is_nan());
}

#[test]
fn order_of_patterns_is_the_order_of_numbers() {
    let ascending = [
        f32::NEG_INFINITY,
        f32::MIN,
        -1.0,
        -f32::MIN_POSITIVE,
        -1.0e-45,
        -0.0,
        0.0,
        1.0e-45,
        f32::MIN_POSITIVE,
        1.0,
        f32::MAX,
        f32::INFINITY,
    ];
    for i in 0..ascending.len() {
        for j in i..ascending.len() {
            let (low, high) = (bits(ascending[i]), bits(ascending[j]));
            assert_eq!(maximum(low, high), high);
            assert_eq!(maximum(high, low), high);
            assert_eq!(minimum(low, high), low);
            assert_eq!(minimum(high, low), low);
        }
    }
}
