use vector4::binary32::{minus, plus, times, DEFAULT_NAN, INFINITY, SIGN};

fn bits(x: f32) -> u32 {
    x.to_bits()
}

fn next(state: &mut u32) -> u32 {
    *state ^= *state << 13;
    *state ^= *state >> 17;
    *state ^= *state << 5;
    *state
}

/// A pattern whose exponent lies close to `field`, so that pairs of them
/// differ by a few binary places and their sums cancel and round.
fn near(state: &mut u32, field: u32) -> u32 {
    let raw = next(state);
    let spread = (next(state) % 60) as i32 - 30;
    let exponent = (field as i32 + spread).clamp(0, 254) as u32;
    (raw & 0x807F_FFFF) | (exponent << 23)
}

fn same(ours: u32, theirs: f32) -> bool {
    if theirs.is_nan() {
        f32::from_bits(ours).is_nan()
    } else {
        ours == theirs.to_bits()
    }
}

#[test]
fn plus_of_small_numbers() {
    assert_eq!(plus(bits(1.0), bits(2.0)), bits(3.0));
    assert_eq!(plus(bits(0.1), bits(0.2)), bits(0.1 + 0.2));
    assert_eq!(plus(bits(1.5), bits(-0.25)), bits(1.25));
    assert_eq!(plus(bits(-1.0), bits(-2.0)), bits(-3.0));
}

#[test]
fn plus_rounds_ties_to_even() {
    // 2^24 + 1 lies halfway between 2^24 and 2^24 + 2.
    assert_eq!(plus(bits(16_777_216.0), bits(1.0)), bits(16_777_216.0));
    assert_eq!(plus(bits(16_777_218.0), bits(1.0)), bits(16_777_220.0));
    assert_eq!(plus(bits(16_777_216.0), bits(3.0)), bits(16_777_220.0));
}

#[test]
fn plus_of_zeros_keeps_the_sign_only_of_two_negative_zeros() {
    assert_eq!(plus(0, 0), 0);
    assert_eq!(plus(0, SIGN), 0);
    assert_eq!(plus(SIGN, 0), 0);
    assert_eq!(plus(SIGN, SIGN), SIGN);
    assert_eq!(plus(bits(1.0), bits(-1.0)), 0);
    assert_eq!(plus(bits(-1.0), bits(1.0)), 0);
}

#[test]
fn plus_of_infinities() {
    assert_eq!(plus(INFINITY, INFINITY), INFINITY);
    assert_eq!(plus(INFINITY, bits(-1.0e38)), INFINITY);
    assert_eq!(plus(bits(5.0), SIGN | INFINITY), SIGN | INFINITY);
    assert_eq!(plus(INFINITY, SIGN | INFINITY), DEFAULT_NAN);
    assert_eq!(plus(SIGN | INFINITY, INFINITY), DEFAULT_NAN);
}

#[test]
fn plus_overflows_to_infinity() {
    assert_eq!(plus(bits(f32::MAX), bits(f32::MAX)), INFINITY);
    assert_eq!(plus(bits(f32::MIN), bits(f32::MIN)), SIGN | INFINITY);
    assert_eq!(plus(bits(f32::MAX), bits(1.0e31)), bits(f32::MAX + 1.0e31));
}

#[test]
fn plus_absorbs_a_much_smaller_operand() {
    assert_eq!(plus(bits(1.0), bits(1.0e-20)), bits(1.0));
    assert_eq!(plus(bits(1.0e-20), bits(1.0)), bits(1.0));
    assert_eq!(plus(bits(1.0), bits(-1.0e-20)), bits(1.0));
    assert_eq!(plus(bits(-8.0), 1), bits(-8.0));
    assert_eq!(plus(bits(1.0e30), bits(1.0)), bits(1.0e30));
}

#[test]
fn plus_of_subnormal_numbers_is_exact() {
    assert_eq!(plus(1, 1), 2);
    assert_eq!(plus(0x007F_FFFF, 1), 0x0080_0000);
    assert_eq!(plus(0x0080_0000, SIGN | 1), 0x007F_FFFF);
    assert_eq!(plus(3, SIGN | 5), SIGN | 2);
}

#[test]
fn plus_of_a_nan_is_a_nan() {
    assert_eq!(plus(DEFAULT_NAN, bits(1.0)), DEFAULT_NAN);
    assert_eq!(plus(bits(1.0), 0x7F80_0001), 0x7FC0_0001);
    assert_eq!(plus(0xFFC0_0007, 0x7FC0_0009), 0xFFC0_0007);
}

#[test]
fn minus_of_small_numbers() {
    assert_eq!(minus(bits(3.0), bits(2.0)), bits(1.0));
    assert_eq!(minus(bits(2.0), bits(3.0)), bits(-1.0));
    assert_eq!(minus(bits(1.0), bits(1.0)), 0);
    assert_eq!(minus(0, 0), 0);
    assert_eq!(minus(SIGN, 0), SIGN);
    assert_eq!(minus(INFINITY, INFINITY), DEFAULT_NAN);
    assert_eq!(minus(bits(1.0), 0xFFC0_0001), 0xFFC0_0001);
}

#[test]
fn times_of_small_numbers() {
    assert_eq!(times(bits(3.0), bits(4.0)), bits(12.0));
    assert_eq!(times(bits(-3.0), bits(4.0)), bits(-12.0));
    assert_eq!(times(bits(-3.0), bits(-4.0)), bits(12.0));
    assert_eq!(times(bits(0.1), bits(0.1)), bits(0.1 * 0.1));
    assert_eq!(times(bits(1.0), bits(5.5)), bits(5.5));
}

#[test]
fn times_of_zero_and_infinity() {
    assert_eq!(times(0, bits(5.0)), 0);
    assert_eq!(times(bits(-5.0), 0), SIGN);
    assert_eq!(times(SIGN, SIGN), 0);
    assert_eq!(times(INFINITY, bits(-2.0)), SIGN | INFINITY);
    assert_eq!(times(INFINITY, INFINITY), INFINITY);
    assert_eq!(times(INFINITY, 0), DEFAULT_NAN);
    assert_eq!(times(SIGN, INFINITY), DEFAULT_NAN);
}

#[test]
fn times_overflows_and_underflows() {
    assert_eq!(times(bits(1.0e30), bits(1.0e30)), INFINITY);
    assert_eq!(times(bits(-1.0e30), bits(1.0e30)), SIGN | INFINITY);
    assert_eq!(times(bits(1.0e-30), bits(1.0e-30)), 0);
    assert_eq!(times(bits(-1.0e-30), bits(1.0e-30)), SIGN);
    assert_eq!(times(bits(1.0e-20), bits(1.0e-20)), bits(1.0e-20 * 1.0e-20));
    assert_eq!(times(1, bits(0.5)), 0);
    assert_eq!(times(3, bits(0.5)), 2);
    assert_eq!(times(1, bits(0.75)), 1);
}

#[test]
fn times_of_a_nan_is_a_nan() {
    assert_eq!(times(DEFAULT_NAN, 0), DEFAULT_NAN);
    assert_eq!(times(INFINITY, 0x7F80_0001), 0x7FC0_0001);
}

#[test]
fn plus_matches_hardware_on_random_patterns() {
    let mut state: u32 = 0x2545_F491;
    for _ in 0..300_000 {
        let a = next(&mut state);
        let b = next(&mut state);
        let theirs = f32::from_bits(a) + f32::from_bits(b);
        assert!(same(plus(a, b), theirs), "{:#010x} + {:#010x}", a, b);
    }
}

#[test]
fn plus_matches_hardware_on_nearby_exponents() {
    let mut state: u32 = 0x9E37_79B9;
    for round in 0..400_000u32 {
        let field = round % 255;
        let a = near(&mut state, field);
        let b = near(&mut state, field);
        let theirs = f32::from_bits(a) + f32::from_bits(b);
        assert!(same(plus(a, b), theirs), "{:#010x} + {:#010x}", a, b);
    }
}

#[test]
fn minus_matches_hardware_on_nearby_exponents() {
    let mut state: u32 = 0x0BAD_5EED;
    for round in 0..400_000u32 {
        let field = round % 255;
        let a = near(&mut state, field);
        let b = near(&mut state, field);
        let theirs = f32::from_bits(a) - f32::from_bits(b);
        assert!(same(minus(a, b), theirs), "{:#010x} - {:#010x}", a, b);
    }
}

#[test]
fn times_matches_hardware_on_random_patterns() {
    let mut state: u32 = 0x1357_9BDF;
    for _ in 0..300_000 {
        let a = next(&mut state);
        let b = next(&mut state);
        let theirs = f32::from_bits(a) * f32::from_bits(b);
        assert!(same(times(a, b), theirs), "{:#010x} * {:#010x}", a, b);
    }
}

#[test]
fn times_matches_hardware_near_the_ends_of_the_range() {
    let mut state: u32 = 0x0F1E_2D3C;
    for round in 0..400_000u32 {
        // Exponents that add up to about the least or the greatest there is.
        let field = if round % 2 == 0 { 50 } else { 190 };
        let a = near(&mut state, field);
        let b = near(&mut state, field + 5);
        let theirs = f32::from_bits(a) * f32::from_bits(b);
        assert!(same(times(a, b), theirs), "{:#010x} * {:#010x}", a, b);
    }
}
