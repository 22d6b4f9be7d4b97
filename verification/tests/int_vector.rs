use vector4::IntVector;

fn lanes(v: &IntVector) -> [i32; 4] {
    *v.get_data()
}

#[test]
fn new_keeps_lane_order() {
    let v = IntVector::new(1, -2, 3, -4);
    assert_eq!(lanes(&v), [1, -2, 3, -4]);
}

#[test]
fn int_sum_of_one_to_four_is_ten() {
    assert_eq!(IntVector::new(1, 2, 3, 4).sum(), 10);
}

#[test]
fn int_sum_wraps() {
    assert_eq!(IntVector::new(i32::MAX, 1, 0, 0).sum(), i32::MIN);
    assert_eq!(IntVector::new(i32::MAX, i32::MAX, i32::MAX, i32::MAX).sum(), -4);
    assert_eq!(IntVector::new(i32::MIN, i32::MIN, 5, 0).sum(), 5);
}

#[test]
fn int_add_is_lanewise_and_wraps() {
    let mut a = IntVector::new(1, 2, 3, i32::MAX);
    let b = IntVector::new(10, 20, 30, 1);
    a.add(&b);
    assert_eq!(lanes(&a), [11, 22, 33, i32::MIN]);
    assert_eq!(lanes(&b), [10, 20, 30, 1]);
}

#[test]
fn int_subtract_is_lanewise_and_wraps() {
    let mut a = IntVector::new(1, 2, 3, i32::MIN);
    a.subtract(&IntVector::new(10, 20, 30, 1));
    assert_eq!(lanes(&a), [-9, -18, -27, i32::MAX]);
}

#[test]
fn int_multiply_is_lanewise_and_wraps() {
    let mut a = IntVector::new(2, -3, 0x1_0000, i32::MIN);
    a.multiply(&IntVector::new(7, 5, 0x1_0000, -1));
    assert_eq!(lanes(&a), [14, -15, 0, i32::MIN]);
    let mut b = IntVector::new(123_456_789, 65_537, -46_341, 3);
    b.multiply(&IntVector::new(1_000, 65_537, 46_341, 0x5555_5556));
    assert_eq!(
        lanes(&b),
        [
            123_456_789i32.wrapping_mul(1_000),
            65_537i32.wrapping_mul(65_537),
            (-46_341i32).wrapping_mul(46_341),
            3i32.wrapping_mul(0x5555_5556),
        ]
    );
}

#[test]
fn int_scalar_operations_broadcast_the_scalar() {
    let mut a = IntVector::new(1, 2, 3, 4);
    a.scalar_add(10);
    assert_eq!(lanes(&a), [11, 12, 13, 14]);
    a.scalar_subtract(1);
    assert_eq!(lanes(&a), [10, 11, 12, 13]);
    a.scalar_multiply(-2);
    assert_eq!(lanes(&a), [-20, -22, -24, -26]);
    let mut b = IntVector::new(i32::MAX, i32::MIN, 0, -1);
    b.scalar_add(1);
    assert_eq!(lanes(&b), [i32::MIN, i32::MIN + 1, 1, 0]);
    b.scalar_subtract(2);
    assert_eq!(lanes(&b), [i32::MAX - 1, i32::MAX, -1, -2]);
    b.scalar_multiply(2);
    assert_eq!(lanes(&b), [-4, -2, -2, -4]);
}

#[test]
fn int_maximum_and_minimum_are_lanewise() {
    let mut a = IntVector::new(1, 5, -3, i32::MIN);
    let b = IntVector::new(2, 4, -3, i32::MAX);
    a.maximum(&b);
    assert_eq!(lanes(&a), [2, 5, -3, i32::MAX]);
    let mut c = IntVector::new(1, 5, -3, i32::MIN);
    c.minimum(&b);
    assert_eq!(lanes(&c), [1, 4, -3, i32::MIN]);
}

#[test]
fn int_dot_product_sums_the_products() {
    let a = IntVector::new(1, 2, 3, 4);
    let b = IntVector::new(5, 6, 7, 8);
    assert_eq!(a.dot_product(&b), 70);
    assert_eq!(lanes(&a), [1, 2, 3, 4]);
    assert_eq!(lanes(&b), [5, 6, 7, 8]);
}

#[test]
fn int_dot_product_of_basis_vectors() {
    let x = IntVector::new(1, 0, 0, 0);
    let y = IntVector::new(0, 1, 0, 0);
    assert_eq!(x.dot_product(&y), 0);
    assert_eq!(x.dot_product(&x), 1);
}

#[test]
fn int_dot_product_wraps_once() {
    let a = IntVector::new(0x1_0000, 0x1_0000, i32::MAX, -7);
    let b = IntVector::new(0x1_0000, 0x8000, 2, 3);
    let exact: i64 = (0x1_0000i64 * 0x1_0000) + (0x1_0000i64 * 0x8000) + (i32::MAX as i64 * 2)
        - 21;
    assert_eq!(a.dot_product(&b), exact as i32);
}

#[test]
fn int_dot_product_commutes() {
    let a = IntVector::new(123_456, -789, i32::MAX, i32::MIN);
    let b = IntVector::new(-65_537, 1_000_003, 17, -3);
    assert_eq!(a.dot_product(&b), b.dot_product(&a));
}

#[test]
fn int_abs_wraps_at_the_lowest_value() {
    let mut a = IntVector::new(-1, 2, i32::MIN, i32::MIN + 1);
    a.abs();
    assert_eq!(lanes(&a), [1, 2, i32::MIN, i32::MAX]);
}

#[test]
fn int_abs_difference_is_the_distance() {
    let mut a = IntVector::new(1, 10, -5, 7);
    a.abs_difference(&IntVector::new(10, 1, 5, 7));
    assert_eq!(lanes(&a), [9, 9, 10, 0]);
}

#[test]
fn int_abs_difference_wraps_beyond_the_highest_value() {
    let mut a = IntVector::new(i32::MAX, i32::MIN, i32::MIN, 0);
    a.abs_difference(&IntVector::new(i32::MIN, i32::MAX, 0, i32::MIN));
    assert_eq!(lanes(&a), [-1, -1, i32::MIN, i32::MIN]);
}

#[test]
fn int_negate_wraps_at_the_lowest_value() {
    let mut a = IntVector::new(1, -2, 0, i32::MIN);
    a.negate();
    assert_eq!(lanes(&a), [-1, 2, 0, i32::MIN]);
}

#[test]
fn int_concat_takes_the_first_half_of_each() {
    let a = IntVector::new(1, 2, 3, 4);
    let b = IntVector::new(5, 6, 7, 8);
    let c = a.concat(&b);
    assert_eq!(lanes(&c), [1, 2, 5, 6]);
    assert_eq!(lanes(&a), [1, 2, 3, 4]);
    assert_eq!(lanes(&b), [5, 6, 7, 8]);
}

#[test]
fn int_add_then_subtract_restores() {
    let cases = [
        ([1, 2, 3, 4], [5, 6, 7, 8]),
        ([i32::MAX, i32::MIN, -1, 0], [1, -1, i32::MIN, i32::MAX]),
        ([i32::MAX, i32::MAX, i32::MIN, i32::MIN], [i32::MAX, i32::MIN, i32::MAX, i32::MIN]),
    ];
    for (a, b) in cases {
        let mut v = IntVector::new(a[0], a[1], a[2], a[3]);
        let w = IntVector::new(b[0], b[1], b[2], b[3]);
        v.add(&w);
        v.subtract(&w);
        assert_eq!(lanes(&v), a);
    }
}

#[test]
fn int_sqrt_passes_bit_patterns_through_a_float_root() {
    let four = 4.0f32.to_bits() as i32;
    let two = 2.0f32.to_bits() as i32;
    let nine = 9.0f32.to_bits() as i32;
    let three = 3.0f32.to_bits() as i32;
    let mut v = IntVector::new(four, nine, 1.0f32.to_bits() as i32, 0);
    v.sqrt();
    assert_eq!(lanes(&v), [two, three, 1.0f32.to_bits() as i32, 0]);
    assert_eq!(lanes(&v)[0], 0x4000_0000);
}

#[test]
fn int_sqrt_is_not_the_integer_root() {
    let mut v = IntVector::new(4, 16, 100, 1);
    v.sqrt();
    let expected = [
        f32::from_bits(4).sqrt().to_bits() as i32,
        f32::from_bits(16).sqrt().to_bits() as i32,
        f32::from_bits(100).sqrt().to_bits() as i32,
        f32::from_bits(1).sqrt().to_bits() as i32,
    ];
    assert_eq!(lanes(&v), expected);
    assert_ne!(lanes(&v)[0], 2);
    assert_eq!(lanes(&v)[3], 0x1A35_04F3);
}

#[test]
fn int_sqrt_of_negative_lanes_is_a_nan_pattern() {
    let mut v = IntVector::new(-1, i32::MIN, -4, i32::MIN + 1);
    v.sqrt();
    let got = lanes(&v);
    assert_eq!(got[0], -1);
    assert_eq!(got[1], i32::MIN);
    assert_eq!(got[2], -4);
    assert_eq!(got[3], 0x7FC0_0000);
    assert!(f32::from_bits(got[0] as u32).is_nan());
    assert!(f32::from_bits(got[2] as u32).is_nan());
    assert!(f32::from_bits(got[3] as u32).is_nan());
}
