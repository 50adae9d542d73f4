use numo_arb::pricing::{
    apply_slippage, calculate_profit, marginal_price_base_per_fy, meets_edge_threshold,
    price_divergence_bps, signed_difference, PRICE_PROBE_AMOUNT, PRICE_SCALE,
};

#[test]
fn test_calculate_profit() {
    // Profitable trade
    let (gross, net) = calculate_profit(1000, 1100, 20);
    assert_eq!(gross, 100);
    assert_eq!(net, 80);

    // Unprofitable after gas
    let (gross, net) = calculate_profit(1000, 1050, 100);
    assert_eq!(gross, 50);
    assert_eq!(net, -50);
}

#[test]
fn test_apply_slippage() {
    let amount = 10_000u128;
    let max_in = apply_slippage(amount, 100, true);
    assert_eq!(max_in, 10_100);
    let min_out = apply_slippage(amount, 100, false);
    assert_eq!(min_out, 9_900);
}

#[test]
fn test_price_divergence_bps() {
    let target = 1_000_000u128;
    let pool_high = 1_010_000u128;
    assert_eq!(price_divergence_bps(pool_high, target), 100);
    let pool_low = 995_000u128;
    assert_eq!(price_divergence_bps(pool_low, target), 50);
}

#[test]
fn test_meets_edge_threshold() {
    let target = 1_000_000u128;
    let edge_bps = 15;
    let pool1 = 1_001_000u128;
    assert!(!meets_edge_threshold(pool1, target, edge_bps));
    let pool2 = 1_002_000u128;
    assert!(meets_edge_threshold(pool2, target, edge_bps));
}

#[test]
fn gross_profit_is_never_negative() {
    let (gross, net) = calculate_profit(1100, 1000, 20);
    assert_eq!(gross, 0);
    assert_eq!(net, -20);
}

#[test]
fn net_profit_saturates_at_i128_bounds() {
    let (gross, net) = calculate_profit(0, u128::MAX, 0);
    assert_eq!(gross, u128::MAX);
    assert_eq!(net, i128::MAX);
    let (_, net) = calculate_profit(0, 0, u128::MAX);
    assert_eq!(net, i128::MIN);
    assert_eq!(signed_difference(5, 7), -2);
}

#[test]
fn slippage_saturates_at_extremes() {
    assert_eq!(apply_slippage(u128::MAX, 100, true), u128::MAX);
    assert_eq!(apply_slippage(u128::MAX, u32::MAX, false), 0);
    assert_eq!(apply_slippage(1_000, 20_000, false), 0);
    assert_eq!(apply_slippage(1_000, 0, true), 1_000);
    // 12_345 * 50 / 10_000 = 61 (rounded down)
    assert_eq!(apply_slippage(12_345, 50, true), 12_406);
    assert_eq!(apply_slippage(12_345, 50, false), 12_284);
}

#[test]
fn divergence_of_zero_target_is_zero() {
    assert_eq!(price_divergence_bps(123_456, 0), 0);
    assert_eq!(price_divergence_bps(0, 0), 0);
}

#[test]
fn divergence_rounds_down_and_saturates() {
    assert_eq!(price_divergence_bps(1_000_999, 1_000_000), 9);
    assert_eq!(price_divergence_bps(1_000_000, 1_000_000), 0);
    assert_eq!(price_divergence_bps(u128::MAX, 1), u32::MAX);
    // A target too large for a direct `* 10_000`.
    let big = u128::MAX / 20_000 * 10_000;
    assert_eq!(price_divergence_bps(big + big / 100, big), 100);
    assert_eq!(price_divergence_bps(big - big / 200, big), 50);
}

#[test]
fn edge_threshold_boundary_is_inclusive() {
    assert!(meets_edge_threshold(1_002_000, 1_000_000, 20));
    assert!(!meets_edge_threshold(1_002_000, 1_000_000, 21));
    assert!(meets_edge_threshold(998_000, 1_000_000, 20));
}

#[test]
fn marginal_price_is_mean_of_probe_prices() {
    // Selling 1e15 base gives 0.98e15 FY; selling 1e15 FY gives 0.97e15 base.
    let price = marginal_price_base_per_fy(980_000_000_000_000, 970_000_000_000_000).unwrap();
    let ask = PRICE_PROBE_AMOUNT * PRICE_SCALE / 980_000_000_000_000;
    let bid = 970_000_000_000_000u128 * 1000;
    assert_eq!(price, (ask + bid) / 2);
    assert_eq!(price, 995_204_081_632_653_061);
}

#[test]
fn marginal_price_treats_zero_quotes_as_one() {
    let price = marginal_price_base_per_fy(0, 0).unwrap();
    assert_eq!(price, (PRICE_PROBE_AMOUNT * PRICE_SCALE + 1000) / 2);
}

#[test]
fn marginal_price_out_of_range_is_none() {
    assert_eq!(marginal_price_base_per_fy(1, u128::MAX), None);
}
