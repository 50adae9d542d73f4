use numo_arb::sizer::{solve_fy_amount_to_target, Bisection, CONVERGENCE_WIDTH, MAX_BISECTION_ITERATIONS};
use numo_arb::sofr::{CurveKnot, DayCount, SofrCurve};
use numo_arb::strategy::NumoArb;
use numo_arb::types::{
    Address, ArbOpportunity, Config, Event, NewBlockEvent, PoolState, TOKEN_UNIT,
};

const E18: u128 = 1_000_000_000_000_000_000;
const NOW: u64 = 1_700_000_000;
/// 360 days: one Act/360 year.
const YEAR_SECONDS: u64 = 360 * 86_400;

fn address(tag: u8) -> Address {
    let mut bytes = [0u8; 20];
    bytes[19] = tag;
    Address { bytes }
}

fn pool_state(tag: u8, maturity: u32) -> PoolState {
    PoolState {
        address: address(tag),
        base_reserves: 1_000_000 * E18,
        fy_reserves: 1_000_000 * E18,
        fee_bps: 5,
        maturity,
    }
}

fn two_knot_curve() -> SofrCurve {
    SofrCurve::new(
        vec![
            CurveKnot { t: 2_800_000_000_000_000, rate: 52_000_000_000_000_000 },
            CurveKnot { t: E18, rate: 45_000_000_000_000_000 },
        ],
        DayCount::Act360,
    )
    .unwrap()
}

fn strategy(pools: u8) -> NumoArb {
    let mut config = Config::default();
    config.pool_addresses = (1..=pools).map(address).collect();
    let mut arb = NumoArb::new(config, two_knot_curve());
    let maturity = (NOW + YEAR_SECONDS) as u32;
    let fetched: Vec<Option<PoolState>> = (1..=pools).map(|t| Some(pool_state(t, maturity))).collect();
    arb.sync_state(&fetched);
    arb
}

#[test]
fn config_defaults() {
    let c = Config::default();
    assert!(c.pool_addresses.is_empty());
    assert_eq!(c.router_address, Address::zero());
    assert_eq!(c.edge_bps, 10);
    assert_eq!(c.slippage_bps, 50);
    assert_eq!(c.max_fy_amount, 100_000 * TOKEN_UNIT);
    assert_eq!(c.max_base_amount, 50_000 * TOKEN_UNIT);
    assert_eq!(c.bid_percentage, 80);
}

#[test]
fn end_to_end_rich_pool_passes_edge() {
    let arb = strategy(2);
    let prices = vec![Some(E18), Some(1_020_000_000_000_000_000)];
    let candidate = arb.plan_opportunity(NOW, &prices).expect("candidate");
    assert_eq!(candidate.cheap_index, 0);
    assert_eq!(candidate.rich_index, 1);
    assert_eq!(candidate.cheap_pool, address(1));
    assert_eq!(candidate.rich_pool, address(2));
    // 1 / (1 + 0.045)
    assert_eq!(candidate.target_price, 956_937_799_043_062_200);
    let divergence = numo_arb::pricing::price_divergence_bps(candidate.rich_price, candidate.target_price);
    assert_eq!(divergence, 659);
    assert!(divergence > 10);
}

#[test]
fn single_pool_finds_nothing() {
    let arb = strategy(1);
    assert!(arb.plan_opportunity(NOW, &vec![Some(2 * E18)]).is_none());
}

#[test]
fn tied_prices_find_nothing() {
    let arb = strategy(2);
    let prices = vec![Some(1_020_000_000_000_000_000), Some(1_020_000_000_000_000_000)];
    assert!(arb.plan_opportunity(NOW, &prices).is_none());
}

#[test]
fn failed_price_query_excludes_pool() {
    let arb = strategy(3);
    let prices = vec![Some(E18), None, Some(1_020_000_000_000_000_000)];
    let candidate = arb.plan_opportunity(NOW, &prices).unwrap();
    assert_eq!(candidate.cheap_index, 0);
    assert_eq!(candidate.rich_index, 2);
    let only_one = vec![Some(E18), None, None];
    assert!(arb.plan_opportunity(NOW, &only_one).is_none());
}

#[test]
fn pool_without_state_is_not_priced() {
    let mut config = Config::default();
    config.pool_addresses = vec![address(1), address(2)];
    let mut arb = NumoArb::new(config, two_knot_curve());
    let maturity = (NOW + YEAR_SECONDS) as u32;
    arb.sync_state(&vec![Some(pool_state(1, maturity)), None]);
    assert_eq!(arb.pool_states[1], None);
    let prices = vec![Some(E18), Some(1_020_000_000_000_000_000)];
    assert!(arb.plan_opportunity(NOW, &prices).is_none());
}

#[test]
fn sync_keeps_stale_state_on_failure() {
    let mut arb = strategy(2);
    let old = arb.pool_states[0];
    let fresh = pool_state(2, 1_234);
    arb.sync_state(&vec![None, Some(fresh)]);
    assert_eq!(arb.pool_states[0], old);
    assert_eq!(arb.pool_states[1], Some(fresh));
}

#[test]
fn edge_below_threshold_finds_nothing() {
    let mut arb = strategy(2);
    arb.config.edge_bps = 700;
    let prices = vec![Some(E18), Some(1_020_000_000_000_000_000)];
    assert!(arb.plan_opportunity(NOW, &prices).is_none());
    arb.config.edge_bps = 659;
    assert!(arb.plan_opportunity(NOW, &prices).is_some());
}

#[test]
fn events_record_the_block() {
    let mut arb = strategy(2);
    let block = NewBlockEvent { block_number: 42, timestamp: NOW, base_fee: None };
    let ts = arb.process_event(&Event::NewBlock(block));
    assert_eq!(ts, NOW);
    assert_eq!(arb.last_block, 42);
}

#[test]
fn evaluation_applies_slippage_and_limits() {
    let arb = strategy(2);
    let prices = vec![Some(E18), Some(1_020_000_000_000_000_000)];
    let candidate = arb.plan_opportunity(NOW, &prices).unwrap();

    let opp = arb.evaluate_opportunity(&candidate, 1_000 * E18, 1_000 * E18, 1_020 * E18).unwrap();
    assert_eq!(opp.max_base_in, 1_005 * E18);
    assert_eq!(opp.min_base_out, 1_014_900_000_000_000_000_000);
    assert_eq!(opp.expected_profit, 9_900_000_000_000_000_000);
    assert_eq!(opp.fy_amount, 1_000 * E18);

    // Unprofitable before slippage.
    assert!(arb.evaluate_opportunity(&candidate, 1_000 * E18, 1_020 * E18, 1_020 * E18).is_none());
    // Zero size.
    assert!(arb.evaluate_opportunity(&candidate, 0, 1_000 * E18, 1_020 * E18).is_none());
    // Slippage eats the whole profit.
    assert!(arb.evaluate_opportunity(&candidate, 1_000 * E18, 1_000 * E18, 1_005 * E18).is_none());
    // Over the position limit, although profitable before slippage.
    assert!(arb.evaluate_opportunity(&candidate, 1_000 * E18, 49_900 * E18, 60_000 * E18).is_none());
}

#[test]
fn execution_instruction_carries_bid() {
    let arb = strategy(2);
    let opp = ArbOpportunity {
        cheap_pool: address(1),
        rich_pool: address(2),
        fy_amount: 10,
        max_base_in: 100,
        min_base_out: 150,
        expected_profit: 50,
        target_price: E18,
        cheap_price: E18,
        rich_price: E18,
    };
    let ins = arb.execute_arbitrage(&opp);
    assert_eq!(ins.total_profit, 50);
    assert_eq!(ins.bid_percentage, 80);
    assert_eq!(ins.bid_amount(), 40);
    assert_eq!(ins.fy_amount, 10);
    assert_eq!(ins.max_base_in, 100);
    assert_eq!(ins.min_base_out, 150);
    let mut big = ins;
    big.total_profit = u128::MAX;
    big.bid_percentage = 200;
    assert_eq!(big.bid_amount(), u128::MAX);
    big.bid_percentage = 100;
    assert_eq!(big.bid_amount(), u128::MAX);
    big.total_profit = 1_000;
    big.bid_percentage = 250;
    assert_eq!(big.bid_amount(), 1_000);
    big.bid_percentage = 33;
    assert_eq!(big.bid_amount(), 330);
    big.bid_percentage = 0;
    assert_eq!(big.bid_amount(), 0);
}

#[test]
fn opportunity_profit_after_gas() {
    let opp = ArbOpportunity {
        cheap_pool: address(1),
        rich_pool: address(2),
        fy_amount: 10,
        max_base_in: 100,
        min_base_out: 150,
        expected_profit: 50,
        target_price: E18,
        cheap_price: E18,
        rich_price: E18,
    };
    assert!(opp.is_profitable(49));
    assert!(!opp.is_profitable(50));
    assert_eq!(opp.net_profit(80), -30);
    assert_eq!(opp.net_profit(20), 30);
}

#[test]
fn sizer_with_zero_max_finds_nothing() {
    assert_eq!(solve_fy_amount_to_target(&|_x: u128| 2 * E18, E18, 0), None);
    let search = Bisection::new(0);
    assert_eq!(search.next_probe(), None);
    assert_eq!(search.result(), None);
}

#[test]
fn sizer_below_target_finds_nothing() {
    assert_eq!(solve_fy_amount_to_target(&|_x: u128| E18 / 2, E18, 1_000_000 * E18), None);
}

#[test]
fn sizer_converges_on_decreasing_price() {
    // Price falls by one unit per unit traded from 2e6; the target 1e6 is
    // crossed at size 1e6.
    let max = 4_000_000u128;
    let price = |x: u128| 2_000_000u128.saturating_sub(x);
    let mut search = Bisection::new(max);
    let mut steps = 0usize;
    while let Some(size) = search.next_probe() {
        search.observe(price(size), 1_000_000);
        steps += 1;
    }
    assert!(steps <= MAX_BISECTION_ITERATIONS);
    assert!(search.converged);
    let best = search.result().unwrap();
    assert!(best < 1_000_000);
    assert!(999_999 - best <= CONVERGENCE_WIDTH);
    assert_eq!(solve_fy_amount_to_target(&price, 1_000_000, max), Some(best));
}

#[test]
fn sizer_stops_at_iteration_cap() {
    let max = 100_000 * E18;
    let mut search = Bisection::new(max);
    let mut steps = 0usize;
    while let Some(size) = search.next_probe() {
        search.observe(if size < max / 3 { 2 * E18 } else { E18 / 2 }, E18);
        steps += 1;
    }
    assert_eq!(steps, MAX_BISECTION_ITERATIONS);
    assert!(!search.converged);
    let best = search.result().unwrap();
    assert!(best < max / 3);
}

#[test]
fn sizer_first_step_probes_midpoint() {
    let mut search = Bisection::new(10_000);
    assert_eq!(search.next_probe(), Some(5_000));
    search.observe(2 * E18, E18);
    assert_eq!(search.best, 5_000);
    assert_eq!(search.lo, 5_001);
    assert_eq!(search.next_probe(), Some(7_500));
    search.observe(E18, E18);
    assert_eq!(search.hi, 7_499);
    assert_eq!(search.best, 5_000);
    assert!(!search.converged);
    assert_eq!(search.next_probe(), Some(6_250));
    assert_eq!(search.result(), Some(5_000));
}

#[test]
fn sizer_above_target_nears_max() {
    let max = 100_000 * E18;
    let x = solve_fy_amount_to_target(&|_x: u128| 2 * E18, E18, max).unwrap();
    assert!(x <= max);
    assert!(max - x <= CONVERGENCE_WIDTH + max / (1u128 << 25));
    let small = 5_000_000u128;
    let y = solve_fy_amount_to_target(&|_x: u128| 2 * E18, E18, small).unwrap();
    assert!(small - y <= CONVERGENCE_WIDTH);
    assert_eq!(solve_fy_amount_to_target(&|_x: u128| 2 * E18, E18, 2), Some(1));
}

#[test]
fn sizer_result_is_within_width_of_threshold() {
    // Threshold at 123_456: sizes up to it price above target.
    let price = |x: u128| if x <= 123_456 { 2 * E18 } else { E18 / 2 };
    let x = solve_fy_amount_to_target(&price, E18, 10_000_000).unwrap();
    assert!(x <= 123_456);
    assert!(123_456 - x <= CONVERGENCE_WIDTH);
    // Threshold below the width: nothing may be found, never a size above it.
    let low = |x: u128| if x <= 10 { 2 * E18 } else { E18 / 2 };
    match solve_fy_amount_to_target(&low, E18, 10_000_000) {
        Some(x) => assert!(x <= 10),
        None => {}
    }
}
