use exchange_prototype::decimal::{pow10_of, Decimal, DECIMAL_PLACES, MAX_MANTISSA, UNITS_PER_ONE};

#[test]
fn test_decimal_from_parts() {
    assert_eq!(DECIMAL_PLACES, 8);
    assert_eq!(UNITS_PER_ONE, 100_000_000);
    assert_eq!(Decimal::from_parts(512, 0), Some(Decimal { units: 51_200_000_000 }));
    assert_eq!(Decimal::from_parts(5125, 1), Some(Decimal { units: 51_250_000_000 }));
    assert_eq!(Decimal::from_parts(-5125, 1), Some(Decimal { units: -51_250_000_000 }));
    assert_eq!(Decimal::from_parts(1, 8), Some(Decimal { units: 1 }));
    assert_eq!(Decimal::from_parts(10, 9), Some(Decimal { units: 1 }));
    assert_eq!(Decimal::from_parts(11, 9), None);
    assert_eq!(Decimal::from_parts(0, 28), Some(Decimal { units: 0 }));
    assert_eq!(Decimal::from_parts(0, 29), None);
    assert_eq!(Decimal::from_parts(1, 29), None);
    assert_eq!(Decimal::from_parts(MAX_MANTISSA, 0), None);
    assert_eq!(Decimal::from_parts(MAX_MANTISSA + 1, 28), None);
    assert_eq!(Decimal::from_parts(i128::MIN, 0), None);
    assert_eq!(Decimal::from_parts(i64::MAX as i128, 8), Some(Decimal { units: i64::MAX }));
    assert_eq!(Decimal::from_parts(i64::MAX as i128 + 1, 8), None);
    assert_eq!(Decimal::from_parts(-(i64::MAX as i128), 8), Some(Decimal { units: -i64::MAX }));
    assert_eq!(Decimal::from_parts(92_233_720_368, 0), Some(Decimal { units: 9_223_372_036_800_000_000 }));
    assert_eq!(Decimal::from_parts(92_233_720_369, 0), None);
    assert_eq!(
        Decimal::from_parts(12_300_000_000_000_000_000_000, 28),
        Some(Decimal { units: 123 })
    );
}

#[test]
fn test_decimal_parse() {
    assert_eq!(Decimal::parse("512"), Some(Decimal::from_u32(512)));
    assert_eq!(Decimal::parse("1234"), Some(Decimal { units: 123_400_000_000 }));
    assert_eq!(Decimal::parse("0.5"), Some(Decimal { units: 50_000_000 }));
    assert_eq!(Decimal::parse("-2.25"), Some(Decimal { units: -225_000_000 }));
    assert_eq!(Decimal::parse("0.00000001"), Some(Decimal { units: 1 }));
    assert_eq!(Decimal::parse("0.000000001"), None);
    assert_eq!(Decimal::parse("1.500000000"), Some(Decimal { units: 150_000_000 }));
    assert_eq!(Decimal::parse("abc"), None);
    assert_eq!(Decimal::parse(""), None);
    assert_eq!(Decimal::parse("231HTTP/1.1"), None);
    assert_eq!(Decimal::parse("100000000000"), None);
}

#[test]
fn test_decimal_to_text() {
    assert_eq!(Decimal::from_u32(68).to_text(), "68");
    assert_eq!(Decimal { units: 150_000_000 }.to_text(), "1.5");
    assert_eq!(Decimal { units: 1 }.to_text(), "0.00000001");
    assert_eq!(Decimal { units: -225_000_000 }.to_text(), "-2.25");
    assert_eq!(Decimal::zero().to_text(), "0");
}

#[test]
fn test_pow10() {
    assert_eq!(pow10_of(0), 1);
    assert_eq!(pow10_of(1), 10);
    assert_eq!(pow10_of(8), 100_000_000);
    assert_eq!(pow10_of(20), 100_000_000_000_000_000_000);
}

#[test]
fn test_decimal_arithmetic() {
    let a = Decimal::from_u32(100);
    let b = Decimal::from_u32(32);
    assert_eq!(a.checked_sub(&b), Some(Decimal::from_u32(68)));
    assert_eq!(b.checked_sub(&a), Some(Decimal { units: -6_800_000_000 }));
    assert_eq!(a.checked_add(&b), Some(Decimal::from_u32(132)));
    assert_eq!(Decimal::max().checked_add(&Decimal { units: 1 }), None);
    assert_eq!(Decimal::max().checked_add(&Decimal::zero()), Some(Decimal::max()));
    assert_eq!(Decimal { units: i64::MIN }.checked_sub(&Decimal { units: 1 }), None);
    assert_eq!(Decimal { units: -2 }.checked_sub(&Decimal::max()), None);
    assert!(b.is_below(&a));
    assert!(!a.is_below(&b));
    assert!(!a.is_below(&a));
    assert_eq!(a.smaller_of(&b), b);
    assert_eq!(b.smaller_of(&a), b);
}
