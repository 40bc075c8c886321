use spirals::fixed::{div_ceil, div_floor, isqrt, wide_product, LIMIT, ONE};

#[test]
fn one_is_a_million() {
    assert_eq!(ONE, 1_000_000);
    assert_eq!(LIMIT, 1_000 * ONE);
}

#[test]
fn div_floor_of_positive_values_truncates() {
    assert_eq!(div_floor(7, 2), 3);
    assert_eq!(div_floor(6, 2), 3);
    assert_eq!(div_floor(0, 5), 0);
    assert_eq!(div_floor(1, 1_000_000), 0);
}

#[test]
fn div_floor_rounds_toward_negative_infinity() {
    assert_eq!(div_floor(-7, 2), -4);
    assert_eq!(div_floor(-6, 2), -3);
    assert_eq!(div_floor(-1, 1_000_000), -1);
    assert_eq!(div_floor(7, -2), -4);
    assert_eq!(div_floor(-7, -2), 3);
    assert_eq!(div_floor(6, -2), -3);
}

#[test]
fn div_floor_accepts_the_widest_values() {
    assert_eq!(div_floor(i128::MAX, 1), i128::MAX);
    assert_eq!(div_floor(i128::MIN + 1, -1), i128::MAX);
    assert_eq!(div_floor(i128::MIN + 1, i128::MAX), -1);
    assert_eq!(div_floor(i128::MAX, i128::MIN + 1), -1);
    assert_eq!(div_floor(i128::MAX - 1, i128::MIN + 1), -1);
}

#[test]
fn wide_product_is_exact_at_the_extremes() {
    assert_eq!(wide_product(i64::MIN, i64::MIN), 1i128 << 126);
    assert_eq!(wide_product(i64::MAX, i64::MIN), -((1i128 << 126) - (1i128 << 63)));
    assert_eq!(wide_product(-3, 7), -21);
    assert_eq!(wide_product(0, i64::MAX), 0);
}

#[test]
fn isqrt_of_small_numbers() {
    let expected: [u128; 17] = [0, 1, 1, 1, 2, 2, 2, 2, 2, 3, 3, 3, 3, 3, 3, 3, 4];
    for (n, r) in expected.iter().enumerate() {
        assert_eq!(isqrt(n as u128), *r, "isqrt({})", n);
    }
}

#[test]
fn isqrt_brackets_its_argument() {
    let samples: [u128; 8] = [
        99,
        1_000_000,
        999_999_999_999,
        25_330_314_025_000_000_000_000,
        1_000_000_000_000_000_000_000_000_000_000_000_000,
        1_000_001_000_000_000_000_000_000_000_000_000_000,
        u64::MAX as u128,
        u128::MAX / 3,
    ];
    for n in samples {
        let r = isqrt(n);
        assert!(r * r <= n);
        assert!((r + 1) * (r + 1) > n);
    }
}

#[test]
fn isqrt_exact_values() {
    assert_eq!(isqrt(25_330_314_025_000_000_000_000), 159_155_000_000);
    assert_eq!(isqrt(1_000_001_000_000_000_000_000_000_000_000_000_000), 1_000_000_499_999_875_000);
    assert_eq!(isqrt(u128::MAX), u64::MAX as u128);
    assert_eq!(isqrt((u64::MAX as u128) * (u64::MAX as u128)), u64::MAX as u128);
    assert_eq!(isqrt((u64::MAX as u128) * (u64::MAX as u128) - 1), u64::MAX as u128 - 1);
}

#[test]
fn div_ceil_rounds_toward_positive_infinity() {
    assert_eq!(div_ceil(7, 2), 4);
    assert_eq!(div_ceil(6, 2), 3);
    assert_eq!(div_ceil(1, 1_000_000), 1);
    assert_eq!(div_ceil(0, 5), 0);
    assert_eq!(div_ceil(-7, 2), -3);
    assert_eq!(div_ceil(-1, 1_000_000), 0);
    assert_eq!(div_ceil(7, -2), -3);
    assert_eq!(div_ceil(-7, -2), 4);
}

#[test]
fn div_ceil_accepts_the_widest_values() {
    assert_eq!(div_ceil(i128::MAX, 1), i128::MAX);
    assert_eq!(div_ceil(i128::MIN + 1, 1), i128::MIN + 1);
    assert_eq!(div_ceil(i128::MAX, i128::MAX), 1);
    assert_eq!(div_ceil(1, i128::MAX), 1);
    assert_eq!(div_ceil(-1, i128::MAX), 0);
    assert_eq!(div_ceil(i128::MIN + 1, -1), i128::MAX);
}
