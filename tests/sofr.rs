use numo_arb::sofr::{CurveError, CurveKnot, DayCount, SofrCurve, ONE};

fn fixed(x: f64) -> u128 {
    (x * 1e18).round() as u128
}

fn float(x: u128) -> f64 {
    x as f64 / 1e18
}

fn knot(t: f64, rate: f64) -> CurveKnot {
    CurveKnot { t: fixed(t), rate: fixed(rate) }
}

#[test]
fn test_discount_factor() {
    let curve = SofrCurve::default_usd();

    assert!((float(curve.discount_factor(fixed(0.0))) - 1.0).abs() < 1e-10);

    let df1 = float(curve.discount_factor(fixed(0.5)));
    let df2 = float(curve.discount_factor(fixed(1.0)));
    assert!(df1 > df2);

    assert!(df1 < 1.0);
    assert!(df2 < 1.0);
}

#[test]
fn test_rate_interpolation() {
    let curve = SofrCurve::new(vec![knot(0.0, 0.05), knot(1.0, 0.04)], DayCount::Act360).unwrap();

    assert!((float(curve.rate(fixed(0.0))) - 0.05).abs() < 1e-10);
    assert!((float(curve.rate(fixed(1.0))) - 0.04).abs() < 1e-10);

    let mid_rate = float(curve.rate(fixed(0.5)));
    assert!((mid_rate - 0.045).abs() < 1e-10);
}

#[test]
fn test_time_to_maturity() {
    let curve = SofrCurve::default_usd();

    let current = 1700000000u64;
    let maturity = (current + 365 * 86400) as u32;

    let ttm = float(curve.time_to_maturity(current, maturity));
    assert!((ttm - 1.0139).abs() < 0.001);
}

#[test]
fn test_forward_rate() {
    let curve = SofrCurve::default_usd();

    let fwd = curve.forward_rate(fixed(0.5), fixed(1.0)).unwrap();
    assert!(fwd > 0);

    let spot = float(curve.rate(fixed(0.5)));
    let fwd_from_zero = curve.forward_rate(fixed(0.0), fixed(0.5)).unwrap() as f64 / 1e18;
    assert!((fwd_from_zero - spot).abs() < 0.01);
}

#[test]
fn midpoint_rate_is_exact() {
    let curve = SofrCurve::new(vec![knot(0.0, 0.05), knot(1.0, 0.04)], DayCount::Act360).unwrap();
    assert_eq!(curve.rate(500_000_000_000_000_000), 45_000_000_000_000_000);
}

#[test]
fn rate_is_flat_outside_knots() {
    let curve = SofrCurve::default_usd();
    assert_eq!(curve.rate(0), 52_000_000_000_000_000);
    assert_eq!(curve.rate(fixed(0.0028)), 52_000_000_000_000_000);
    assert_eq!(curve.rate(fixed(2.0)), 42_500_000_000_000_000);
    assert_eq!(curve.rate(fixed(30.0)), 42_500_000_000_000_000);
    // At an inner knot the knot's own rate.
    assert_eq!(curve.rate(fixed(0.25)), 50_000_000_000_000_000);
}

#[test]
fn empty_curve_has_zero_rate() {
    let curve = SofrCurve::new(vec![], DayCount::Act365).unwrap();
    assert_eq!(curve.rate(fixed(1.0)), 0);
    assert_eq!(curve.discount_factor(fixed(1.0)), ONE);
}

#[test]
fn discount_factor_values() {
    let curve = SofrCurve::new(vec![knot(0.0028, 0.052), knot(1.0, 0.045)], DayCount::Act360).unwrap();
    assert_eq!(curve.discount_factor(0), ONE);
    // 1 / 1.045, rounded down.
    assert_eq!(curve.discount_factor(ONE), 956_937_799_043_062_200);
    // Far beyond any horizon the factor reaches zero.
    assert_eq!(curve.discount_factor(u128::MAX), 0);
}

#[test]
fn discount_factor_does_not_rise_on_default_curve() {
    let curve = SofrCurve::default_usd();
    let mut previous = curve.discount_factor(0);
    let mut t = 0u128;
    while t <= fixed(3.0) {
        let df = curve.discount_factor(t);
        assert!(df <= previous);
        previous = df;
        t += fixed(0.01);
    }
}

#[test]
fn forward_rate_is_zero_when_times_do_not_advance() {
    let curve = SofrCurve::default_usd();
    assert_eq!(curve.forward_rate(fixed(1.0), fixed(1.0)), Some(0));
    assert_eq!(curve.forward_rate(fixed(1.0), fixed(0.5)), Some(0));
}

#[test]
fn forward_rate_on_flat_curve() {
    let curve = SofrCurve::new(vec![knot(1.0, 0.05)], DayCount::Act360).unwrap();
    // DF(0) = 1, DF(1) = 1 / 1.05: forward (1.05 - 1) / 1 = 0.05.
    let fwd = curve.forward_rate(0, ONE).unwrap();
    assert!((fwd - 50_000_000_000_000_000).abs() <= 2);
}

#[test]
fn year_fractions() {
    assert_eq!(DayCount::Act360.year_fraction(360), ONE);
    assert_eq!(DayCount::Act365.year_fraction(365), ONE);
    assert_eq!(DayCount::Act360.year_fraction(180), ONE / 2);
    assert_eq!(DayCount::Act365.year_fraction_from_seconds(365 * 86_400), ONE);
    assert_eq!(DayCount::Act360.year_fraction_from_seconds(0), 0);
}

#[test]
fn time_to_maturity_is_zero_after_maturity() {
    let curve = SofrCurve::default_usd();
    assert_eq!(curve.time_to_maturity(2_000_000_000, 1_999_999_999), 0);
    assert_eq!(curve.time_to_maturity(1_000, 1_000 + 360 * 86_400), ONE);
}

#[test]
fn curve_rejects_bad_knots() {
    let unsorted = SofrCurve::new(vec![knot(1.0, 0.04), knot(0.5, 0.05)], DayCount::Act360);
    assert_eq!(unsorted.err(), Some(CurveError::Unsorted));
    let too_high = SofrCurve::new(vec![knot(1.0, 1.5)], DayCount::Act360);
    assert_eq!(too_high.err(), Some(CurveError::OutOfRange));
    let too_late = SofrCurve::new(vec![knot(301.0, 0.01)], DayCount::Act360);
    assert_eq!(too_late.err(), Some(CurveError::OutOfRange));
}
