use vector4::binary32::{recip_estimate, INFINITY, SIGN};

fn estimate(x: f32) -> f32 {
    f32::from_bits(recip_estimate(x.to_bits()))
}

#[test]
fn estimate_of_one_is_just_below_one() {
    assert_eq!(recip_estimate(1.0f32.to_bits()), 0x3F7F_8000);
    assert_eq!(estimate(1.0), 0.998046875);
}

#[test]
fn estimate_of_powers_of_two() {
    assert_eq!(estimate(2.0), 0.4990234375);
    assert_eq!(estimate(4.0), 0.24951171875);
    assert_eq!(estimate(0.5), 1.99609375);
    assert_eq!(estimate(-2.0), -0.4990234375);
}

#[test]
fn estimate_of_five() {
    // 5 = 1.25 * 4 has leading bits 320; 2^19 / 641 = 817, halved and rounded: 409.
    assert_eq!(estimate(5.0), 409.0 / 256.0 / 8.0);
    assert_eq!(recip_estimate(5.0f32.to_bits()), 0x3E4C_8000);
}

#[test]
fn estimate_of_zero_is_infinite() {
    assert_eq!(recip_estimate(0), INFINITY);
    assert_eq!(recip_estimate(SIGN), SIGN | INFINITY);
}

#[test]
fn estimate_of_infinity_is_zero() {
    assert_eq!(recip_estimate(INFINITY), 0);
    assert_eq!(recip_estimate(SIGN | INFINITY), SIGN);
}

#[test]
fn estimate_of_a_nan_is_the_same_nan_made_quiet() {
    assert_eq!(recip_estimate(0x7F80_0001), 0x7FC0_0001);
    assert_eq!(recip_estimate(0xFFC1_2345), 0xFFC1_2345);
}

#[test]
fn estimate_of_a_tiny_number_is_infinite() {
    assert_eq!(recip_estimate(1), INFINITY);
    assert_eq!(recip_estimate(0x001F_FFFF), INFINITY);
    assert_eq!(recip_estimate(SIGN | 0x001F_FFFF), SIGN | INFINITY);
}

#[test]
fn estimate_of_a_subnormal_number_is_large_and_finite() {
    // 2^-128 and 2^-127 are subnormal; their reciprocals are within range.
    assert_eq!(recip_estimate(0x0020_0000), 0x7F7F_8000);
    assert_eq!(recip_estimate(0x0040_0000), 0x7EFF_8000);
    assert!(estimate(f32::from_bits(0x0020_0000)).is_finite());
}

#[test]
fn estimate_of_a_huge_number_is_subnormal() {
    // 2^126 and 2^127: the estimate drops below the smallest normal number.
    assert_eq!(recip_estimate(0x7E80_0000), 0x007F_C000);
    assert_eq!(recip_estimate(0x7F00_0000), 0x003F_E000);
    assert_eq!(recip_estimate(0x7F7F_FFFF), 0x0020_0000);
}

#[test]
fn estimate_is_within_one_part_in_256() {
    let mut bits: u32 = 0x0020_0000;
    while bits < INFINITY {
        let x = f32::from_bits(bits) as f64;
        let r = f32::from_bits(recip_estimate(bits)) as f64;
        let product = x * r;
        assert!(
            (product - 1.0).abs() <= 1.0 / 256.0,
            "pattern {:#010x}: product {}",
            bits,
            product
        );
        bits += 4093;
    }
}

#[test]
fn estimate_keeps_only_eight_bits() {
    let mut bits: u32 = 0x0080_0000;
    while bits < 0x7E00_0000 {
        assert_eq!(recip_estimate(bits) & 0x7FFF, 0, "pattern {:#010x}", bits);
        bits += 65_521;
    }
}
