use four_fours::number::{
    abs, eq, exact_num, is_finite, le, lt, neg, FOUR, INFINITY, QUARTER, TEN_MILLIONTH,
    THOUSANDTH, ZERO,
};
use four_fours::{factorial, strict_f64_to_i64};

fn strict_by_floats(x: f64) -> Option<i64> {
    let i = x as i64;
    if x.fract() == 0.0 && x >= i64::MIN as f64 && x <= i64::MAX as f64 && x == i as f64 {
        return Some(i);
    }
    None
}

fn samples() -> Vec<f64> {
    let mut v = vec![
        0.0,
        -0.0,
        1.0,
        -1.0,
        4.0,
        0.25,
        0.5,
        -0.5,
        1.5,
        4.5,
        0.001,
        0.0000001,
        1e-320,
        -1e-320,
        f64::MIN_POSITIVE,
        f64::MAX,
        f64::MIN,
        f64::INFINITY,
        f64::NEG_INFINITY,
        f64::NAN,
        -f64::NAN,
        9007199254740992.0,
        9007199254740993.0,
        9007199254740994.0,
        -9007199254740992.0,
        4503599627370496.0,
        4503599627370496.5,
        9223372036854775808.0,
        -9223372036854775808.0,
        9223372036854774784.0,
        9223372036854777856.0,
        -9223372036854777856.0,
        1e19,
        1e300,
        24.0,
        2432902008176640000.0,
    ];
    let mut seed: u64 = 0x9E37_79B9_7F4A_7C15;
    for _ in 0..2000 {
        seed ^= seed << 13;
        seed ^= seed >> 7;
        seed ^= seed << 17;
        v.push(f64::from_bits(seed));
        v.push(((seed >> 40) as f64) - 8000000.0);
        v.push((((seed >> 44) as f64) - 500000.0) / 8.0);
    }
    v
}

#[test]
fn constants_are_the_patterns_of_their_values() {
    assert_eq!(ZERO, 0.0f64.to_bits());
    assert_eq!(FOUR, 4.0f64.to_bits());
    assert_eq!(QUARTER, 0.25f64.to_bits());
    assert_eq!(THOUSANDTH, 0.001f64.to_bits());
    assert_eq!(TEN_MILLIONTH, 0.0000001f64.to_bits());
    assert_eq!(INFINITY, f64::INFINITY.to_bits());
}

#[test]
fn strict_conversion_of_whole_numbers() {
    assert_eq!(strict_f64_to_i64(4.0f64.to_bits()), Some(4));
    assert_eq!(strict_f64_to_i64((-3.0f64).to_bits()), Some(-3));
    assert_eq!(strict_f64_to_i64(0.0f64.to_bits()), Some(0));
    assert_eq!(strict_f64_to_i64((-0.0f64).to_bits()), Some(0));
    assert_eq!(strict_f64_to_i64(9007199254740992.0f64.to_bits()), Some(9007199254740992));
    assert_eq!(strict_f64_to_i64(2432902008176640000.0f64.to_bits()), Some(2432902008176640000));
}

#[test]
fn strict_conversion_rejects_fractions_and_non_numbers() {
    assert_eq!(strict_f64_to_i64(4.5f64.to_bits()), None);
    assert_eq!(strict_f64_to_i64(0.001f64.to_bits()), None);
    assert_eq!(strict_f64_to_i64(1e-320f64.to_bits()), None);
    assert_eq!(strict_f64_to_i64(f64::NAN.to_bits()), None);
    assert_eq!(strict_f64_to_i64(f64::INFINITY.to_bits()), None);
    assert_eq!(strict_f64_to_i64(f64::NEG_INFINITY.to_bits()), None);
}

#[test]
fn strict_conversion_at_the_ends_of_the_range() {
    assert_eq!(strict_f64_to_i64((-9223372036854775808.0f64).to_bits()), Some(i64::MIN));
    assert_eq!(strict_f64_to_i64(9223372036854775808.0f64.to_bits()), Some(i64::MAX));
    assert_eq!(
        strict_f64_to_i64(9223372036854774784.0f64.to_bits()),
        Some(9223372036854774784)
    );
    assert_eq!(strict_f64_to_i64(9223372036854777856.0f64.to_bits()), None);
    assert_eq!(strict_f64_to_i64((-9223372036854777856.0f64).to_bits()), None);
    assert_eq!(strict_f64_to_i64(1e19f64.to_bits()), None);
}

#[test]
fn strict_conversion_agrees_with_float_arithmetic() {
    for x in samples() {
        assert_eq!(strict_f64_to_i64(x.to_bits()), strict_by_floats(x), "at {:?}", x);
    }
}

#[test]
fn factorial_values() {
    assert_eq!(factorial(0), Some(1));
    assert_eq!(factorial(1), Some(1));
    assert_eq!(factorial(2), Some(2));
    assert_eq!(factorial(4), Some(24));
    assert_eq!(factorial(5), Some(120));
    assert_eq!(factorial(10), Some(3628800));
    assert_eq!(factorial(20), Some(2432902008176640000));
}

#[test]
fn factorial_rejects_negatives_and_overflow() {
    assert_eq!(factorial(-1), None);
    assert_eq!(factorial(i64::MIN), None);
    assert_eq!(factorial(21), None);
    assert_eq!(factorial(100), None);
    assert_eq!(factorial(i64::MAX), None);
}

#[test]
fn exact_patterns_of_integers() {
    assert_eq!(exact_num(0), Some(0.0f64.to_bits()));
    assert_eq!(exact_num(1), Some(1.0f64.to_bits()));
    assert_eq!(exact_num(-1), Some((-1.0f64).to_bits()));
    assert_eq!(exact_num(24), Some(24.0f64.to_bits()));
    assert_eq!(exact_num(9007199254740992), Some(9007199254740992.0f64.to_bits()));
    assert_eq!(exact_num(9007199254740993), None);
    assert_eq!(exact_num(9007199254740994), Some(9007199254740994.0f64.to_bits()));
    assert_eq!(exact_num(i64::MAX), None);
    assert_eq!(exact_num(i64::MIN), Some((-9223372036854775808.0f64).to_bits()));
    for i in -3000i64..3000 {
        assert_eq!(exact_num(i), Some((i as f64).to_bits()), "at {}", i);
    }
    let mut f: i64 = 1;
    for n in 1i64..=20 {
        f *= n;
        assert_eq!(exact_num(f), Some((f as f64).to_bits()), "at {}!", n);
        assert_eq!((f as f64) as i64, f);
    }
}

#[test]
fn comparisons_agree_with_float_arithmetic() {
    let v = samples();
    let picks: Vec<f64> = v.iter().cloned().take(60).collect();
    for &x in &v {
        for &y in &picks {
            assert_eq!(lt(x.to_bits(), y.to_bits()), x < y, "{:?} < {:?}", x, y);
            assert_eq!(le(x.to_bits(), y.to_bits()), x <= y, "{:?} <= {:?}", x, y);
            assert_eq!(eq(x.to_bits(), y.to_bits()), x == y, "{:?} == {:?}", x, y);
        }
    }
}

#[test]
fn sign_changes_agree_with_float_arithmetic() {
    for x in samples() {
        assert_eq!(abs(x.to_bits()), x.abs().to_bits(), "abs {:?}", x);
        assert_eq!(neg(x.to_bits()), (-x).to_bits(), "neg {:?}", x);
        assert_eq!(is_finite(x.to_bits()), x.is_finite(), "finite {:?}", x);
    }
}

#[test]
fn zero_has_two_patterns_that_compare_equal() {
    assert!(eq(0.0f64.to_bits(), (-0.0f64).to_bits()));
    assert!(!lt((-0.0f64).to_bits(), 0.0f64.to_bits()));
    assert!(le(0.0f64.to_bits(), (-0.0f64).to_bits()));
    assert!(!eq(f64::NAN.to_bits(), f64::NAN.to_bits()));
}
