use vector4::binary32::{sqrt, DEFAULT_NAN, INFINITY, SIGN};

fn hardware_root(bits: u32) -> u32 {
    f32::from_bits(bits).sqrt().to_bits()
}

#[test]
fn sqrt_of_four_is_two() {
    assert_eq!(sqrt(4.0f32.to_bits()), 2.0f32.to_bits());
    assert_eq!(sqrt(0x4080_0000), 0x4000_0000);
}

#[test]
fn sqrt_of_two_is_rounded_to_nearest() {
    assert_eq!(sqrt(0x4000_0000), 0x3FB5_04F3);
    assert_eq!(sqrt(2.0f32.to_bits()), 2.0f32.sqrt().to_bits());
}

#[test]
fn sqrt_keeps_zeros_and_infinity() {
    assert_eq!(sqrt(0), 0);
    assert_eq!(sqrt(SIGN), SIGN);
    assert_eq!(sqrt(INFINITY), INFINITY);
}

#[test]
fn sqrt_of_negative_is_default_nan() {
    assert_eq!(sqrt((-1.0f32).to_bits()), DEFAULT_NAN);
    assert_eq!(sqrt(SIGN | INFINITY), DEFAULT_NAN);
    assert_eq!(sqrt(SIGN | 1), DEFAULT_NAN);
    assert!(f32::from_bits(sqrt((-4.0f32).to_bits())).is_nan());
}

#[test]
fn sqrt_of_nan_is_the_same_nan_made_quiet() {
    assert_eq!(sqrt(0x7F80_0001), 0x7FC0_0001);
    assert_eq!(sqrt(0x7FC0_0000), 0x7FC0_0000);
    assert_eq!(sqrt(0xFFA5_5555), 0xFFE5_5555);
    assert_eq!(sqrt(0xFFFF_FFFF), 0xFFFF_FFFF);
}

#[test]
fn sqrt_of_subnormals_matches_hardware() {
    let mut bits: u32 = 1;
    while bits < 0x0080_0000 {
        assert_eq!(sqrt(bits), hardware_root(bits), "pattern {:#010x}", bits);
        bits += 7;
    }
    assert_eq!(sqrt(1), hardware_root(1));
    assert_eq!(sqrt(0x007F_FFFF), hardware_root(0x007F_FFFF));
}

#[test]
fn sqrt_matches_hardware_across_the_positive_range() {
    let mut bits: u32 = 1;
    while bits < INFINITY {
        assert_eq!(sqrt(bits), hardware_root(bits), "pattern {:#010x}", bits);
        bits += 1021;
    }
}

#[test]
fn sqrt_matches_hardware_around_every_power_of_two() {
    let mut field: u32 = 1;
    while field < 255 {
        let base = field << 23;
        let mut offset: u32 = 0;
        while offset < 64 {
            assert_eq!(sqrt(base + offset), hardware_root(base + offset));
            assert_eq!(sqrt(base - 1 - offset), hardware_root(base - 1 - offset));
            offset += 1;
        }
        field += 1;
    }
}
