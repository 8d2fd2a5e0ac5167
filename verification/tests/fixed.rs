use skipper::fixed::millionths_from_f64_bits;

fn millionths(value: f64) -> Option<i64> {
    millionths_from_f64_bits(value.to_bits())
}

#[test]
fn whole_and_decimal_values_are_exact() {
    assert_eq!(millionths(0.0), Some(0));
    assert_eq!(millionths(-0.0), Some(0));
    assert_eq!(millionths(1.0), Some(1_000_000));
    assert_eq!(millionths(0.1), Some(100_000));
    assert_eq!(millionths(0.2), Some(200_000));
    assert_eq!(millionths(0.3), Some(300_000));
    assert_eq!(millionths(0.01), Some(10_000));
    assert_eq!(millionths(0.8), Some(800_000));
    assert_eq!(millionths(0.765), Some(765_000));
    assert_eq!(millionths(15.9), Some(15_900_000));
    assert_eq!(millionths(-2.25), Some(-2_250_000));
    assert_eq!(millionths(120.0), Some(120_000_000));
    assert_eq!(millionths(123456.789012), Some(123_456_789_012));
    assert_eq!(millionths(4.0e12), Some(4_000_000_000_000_000_000));
}

#[test]
fn values_round_to_the_nearest_millionth() {
    assert_eq!(millionths(0.000_001), Some(1));
    assert_eq!(millionths(0.000_001_4), Some(1));
    assert_eq!(millionths(0.000_001_6), Some(2));
    assert_eq!(millionths(0.000_000_4), Some(0));
    assert_eq!(millionths(0.000_000_6), Some(1));
    assert_eq!(millionths(-0.000_000_6), Some(-1));
    // A half that is exact in binary goes upward in magnitude.
    assert_eq!(millionths(0.5f64.powi(7)), Some(7_813));
    assert_eq!(millionths(-(0.5f64.powi(7))), Some(-7_813));
    assert_eq!(millionths(f64::MIN_POSITIVE), Some(0));
    assert_eq!(millionths(f64::from_bits(1)), Some(0));
    assert_eq!(millionths(1.0e-300), Some(0));
}

#[test]
fn values_agree_with_floating_point_rounding() {
    let mut value = 0.0f64;
    for _ in 0..2_000 {
        value += 0.137_731;
        let expected = (value * 1_000_000.0).round() as i64;
        let got = millionths(value).unwrap();
        assert!((got - expected).abs() <= 1, "{value}: {got} against {expected}");
        assert_eq!(millionths(-value), Some(-got));
    }
}

#[test]
fn huge_values_are_limited() {
    assert_eq!(millionths(1.0e300), Some(i64::MAX));
    assert_eq!(millionths(-1.0e300), Some(-i64::MAX));
    assert_eq!(millionths(f64::MAX), Some(i64::MAX));
    assert_eq!(millionths(9.3e12), Some(i64::MAX));
    assert_eq!(millionths(-9.3e12), Some(-i64::MAX));
    assert_eq!(millionths(9.2e12), Some(9_200_000_000_000_000_000));
    assert_eq!(millionths(4_503_599_627_370_496.0), Some(i64::MAX));
}

#[test]
fn infinities_and_nan_are_no_numbers() {
    assert_eq!(millionths(f64::INFINITY), None);
    assert_eq!(millionths(f64::NEG_INFINITY), None);
    assert_eq!(millionths(f64::NAN), None);
    assert_eq!(millionths_from_f64_bits(0x7ff0_0000_0000_0001), None);
    assert_eq!(millionths_from_f64_bits(0xffff_ffff_ffff_ffff), None);
}
