//! Configuration, pool snapshots, events, opportunities and execution
//! instructions.

use crate::pricing::{clamp_i128, signed_difference};
use vstd::prelude::*;

verus! {

/// A 20-byte ledger account identifier.
#[derive(Clone, Copy, Debug, PartialEq, Eq)]
pub struct Address {
    pub bytes: [u8; 20],
}

impl Address {
    /// The all-zero address.
    pub fn zero() -> (r: Address)
        ensures
            forall|i: int| 0 <= i < 20 ==> r.bytes@[i] == 0,
    {
        Address { bytes: [0u8; 20] }
    }
}

/// Strategy configuration, fixed for the life of the process.
#[derive(Clone, Debug)]
pub struct Config {
    /// The arbitrage router contract.
    pub router_address: Address,
    /// The pools to watch.
    pub pool_addresses: Vec<Address>,
    /// Minimum divergence from fair value, in basis points, to act on.
    pub edge_bps: u32,
    /// Slippage buffer in basis points.
    pub slippage_bps: u32,
    /// Largest FY amount to trade at once, in smallest units.
    pub max_fy_amount: u128,
    /// Largest base amount to put at risk at once, in smallest units.
    pub max_base_amount: u128,
    /// Share of the expected profit, in percent, to bid for gas; a value
    /// above 100 counts as 100.
    pub bid_percentage: u64,
}

/// 10^18, one whole 18-decimal token in smallest units.
pub const TOKEN_UNIT: u128 = 1_000_000_000_000_000_000;

impl Default for Config {
    /// No pools, a 10 bps edge, 50 bps slippage, at most 100,000 FY and
    /// 50,000 base tokens per trade, and an 80% gas bid.
    fn default() -> (r: Config)
        ensures
            r.pool_addresses@.len() == 0,
            forall|i: int| 0 <= i < 20 ==> r.router_address.bytes@[i] == 0,
            r.edge_bps == 10,
            r.slippage_bps == 50,
            r.max_fy_amount == 100_000 * TOKEN_UNIT,
            r.max_base_amount == 50_000 * TOKEN_UNIT,
            r.bid_percentage == 80,
    {
        Config {
            router_address: Address::zero(),
            pool_addresses: Vec::new(),
            edge_bps: 10,
            slippage_bps: 50,
            max_fy_amount: 100_000 * TOKEN_UNIT,
            max_base_amount: 50_000 * TOKEN_UNIT,
            bid_percentage: 80,
        }
    }
}

/// Snapshot of one pool, refreshed once per sync.
#[derive(Clone, Copy, Debug, PartialEq, Eq)]
pub struct PoolState {
    pub address: Address,
    pub base_reserves: u128,
    pub fy_reserves: u128,
    pub fee_bps: u16,
    /// Maturity as a Unix timestamp in seconds.
    pub maturity: u32,
}

/// A new block, which starts one evaluation cycle.
#[derive(Clone, Copy, Debug, PartialEq, Eq)]
pub struct NewBlockEvent {
    pub block_number: u64,
    /// Unix seconds at which the cycle evaluates.
    pub timestamp: u64,
    pub base_fee: Option<u128>,
}

/// What the strategy reacts to.
#[derive(Clone, Copy, Debug, PartialEq, Eq)]
pub enum Event {
    NewBlock(NewBlockEvent),
}

/// A cross-pool trade: buy FY on the cheap pool, sell it on the rich one.
#[derive(Clone, Copy, Debug, PartialEq, Eq)]
pub struct ArbOpportunity {
    pub cheap_pool: Address,
    pub rich_pool: Address,
    /// FY amount to buy and sell.
    pub fy_amount: u128,
    /// Most base to pay on the cheap pool, slippage included.
    pub max_base_in: u128,
    /// Least base to receive on the rich pool, slippage included.
    pub min_base_out: u128,
    /// `min_base_out - max_base_in`, never negative.
    pub expected_profit: u128,
    /// Fair price from the discount curve, at `10^18` scale.
    pub target_price: u128,
    pub cheap_price: u128,
    pub rich_price: u128,
}

impl ArbOpportunity {
    /// Whether the expected profit exceeds `gas_cost`.
    pub fn is_profitable(&self, gas_cost: u128) -> (r: bool)
        ensures
            r == (self.expected_profit > gas_cost),
    {
        self.expected_profit > gas_cost
    }

    /// Expected profit minus `gas_cost`, signed (saturating at the bounds
    /// of `i128`).
    pub fn net_profit(&self, gas_cost: u128) -> (r: i128)
        ensures
            r == clamp_i128(self.expected_profit - gas_cost),
    {
        signed_difference(self.expected_profit, gas_cost)
    }
}

/// `profit * percentage / 100`, rounded down, with the percentage
/// clamped to `[0, 100]`.
pub open spec fn bid_of(profit: int, percentage: int) -> int {
    let share = if percentage > 100 {
        100
    } else if percentage < 0 {
        0
    } else {
        percentage
    };
    profit * share / 100
}

/// What the execution collaborator needs to submit a trade.
#[derive(Clone, Copy, Debug, PartialEq, Eq)]
pub struct ExecutionInstruction {
    pub cheap_pool: Address,
    pub rich_pool: Address,
    pub fy_amount: u128,
    pub max_base_in: u128,
    pub min_base_out: u128,
    /// Expected profit the gas bid is a share of.
    pub total_profit: u128,
    /// Share of `total_profit`, in percent, to bid for gas; a value
    /// above 100 counts as 100.
    pub bid_percentage: u64,
}

impl ExecutionInstruction {
    /// Gas-bid hint: `total_profit * bid_percentage / 100`, rounded down,
    /// with the percentage clamped to `[0, 100]` so that the bid never
    /// exceeds the profit.
    pub fn bid_amount(&self) -> (r: u128)
        ensures
            r == bid_of(self.total_profit as int, self.bid_percentage as int),
            r <= self.total_profit,
    {
        let pct: u128 = if self.bid_percentage > 100 {
            100
        } else {
            self.bid_percentage as u128
        };
        let whole = self.total_profit / 100;
        let rest = self.total_profit % 100;
        proof {
            crate::arith::lemma_mul_div_split(self.total_profit as int, pct as int, 100);
            crate::arith::lemma_fraction_below(rest as int, pct as int + 1, 100);
            assert(rest * pct <= rest * (pct + 1)) by (nonlinear_arith)
                requires
                    rest >= 0,
            ;
            let a = self.total_profit as int;
            assert(a * pct <= a * 100) by (nonlinear_arith)
                requires
                    a >= 0,
                    pct <= 100,
            ;
            crate::arith::lemma_div_monotone(a * pct, a * 100, 100);
            assert(a * 100 == 100 * a) by (nonlinear_arith);
            vstd::arithmetic::div_mod::lemma_div_multiples_vanish(a, 100);
            assert(whole * pct <= whole * 100) by (nonlinear_arith)
                requires
                    whole >= 0,
                    pct <= 100,
            ;
            vstd::arithmetic::div_mod::lemma_fundamental_div_mod(a, 100);
        }
        whole * pct + rest * pct / 100
    }
}

} // verus!
