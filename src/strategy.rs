//! The arbitrage strategy: pool-state cache, the opportunity scan and the
//! execution hand-off.
//!
//! One cycle runs per block: `process_event` records the block, the
//! caller prices every pool and calls `plan_opportunity` (cheap/rich
//! selection, fair-value target, edge gate), sizes the trade against the
//! rich pool (see `crate::sizer`), quotes the two legs, and calls
//! `evaluate_opportunity` (profitability, slippage, position limit) and
//! then `execute_arbitrage`.

use crate::pricing::{apply_slippage, divergence, gross_profit, meets_edge_threshold, slipped};
use crate::sofr::{discount, years_to_maturity, SofrCurve};
use crate::types::{ArbOpportunity, Config, Event, ExecutionInstruction, NewBlockEvent, PoolState};
use crate::types::Address;
use vstd::prelude::*;

verus! {

/// A cheap/rich pool pair whose rich price diverges enough from fair
/// value to be worth sizing.
#[derive(Clone, Copy, Debug, PartialEq, Eq)]
pub struct Candidate {
    /// Index of the cheap pool in the configured pool list.
    pub cheap_index: usize,
    /// Index of the rich pool in the configured pool list.
    pub rich_index: usize,
    pub cheap_pool: Address,
    pub rich_pool: Address,
    pub cheap_price: u128,
    pub rich_price: u128,
    /// Fair price from the discount curve at the rich pool's maturity.
    pub target_price: u128,
}

/// Pool `i` has a cached state and a price this cycle.
pub open spec fn is_priced(states: Seq<Option<PoolState>>, prices: Seq<Option<u128>>, i: int) -> bool {
    0 <= i < states.len() && i < prices.len() && states[i] is Some && prices[i] is Some
}

/// Price of pool `i` this cycle.
pub open spec fn price_of(prices: Seq<Option<u128>>, i: int) -> int {
    prices[i]->0 as int
}

/// The first priced pool below `n` with the lowest price.
pub open spec fn cheapest_before(
    states: Seq<Option<PoolState>>,
    prices: Seq<Option<u128>>,
    n: int,
) -> Option<int>
    decreases n,
{
    if n <= 0 {
        None
    } else {
        let prev = cheapest_before(states, prices, n - 1);
        if !is_priced(states, prices, n - 1) {
            prev
        } else {
            match prev {
                None => Some(n - 1),
                Some(j) => if price_of(prices, n - 1) < price_of(prices, j) {
                    Some(n - 1)
                } else {
                    Some(j)
                },
            }
        }
    }
}

/// The first priced pool below `n` with the highest price.
pub open spec fn richest_before(
    states: Seq<Option<PoolState>>,
    prices: Seq<Option<u128>>,
    n: int,
) -> Option<int>
    decreases n,
{
    if n <= 0 {
        None
    } else {
        let prev = richest_before(states, prices, n - 1);
        if !is_priced(states, prices, n - 1) {
            prev
        } else {
            match prev {
                None => Some(n - 1),
                Some(j) => if price_of(prices, n - 1) > price_of(prices, j) {
                    Some(n - 1)
                } else {
                    Some(j)
                },
            }
        }
    }
}

/// Fair price of a pool maturing at `maturity`, seen at `now`: the
/// curve's discount factor at the time to maturity.
pub open spec fn target_price_for(curve: SofrCurve, now: int, maturity: int) -> int {
    discount(curve.knots@, years_to_maturity(curve.day_count, now, maturity))
}

/// The strategy's state across cycles.
pub struct NumoArb {
    pub config: Config,
    pub sofr_curve: SofrCurve,
    /// Latest state of each configured pool, by its index in
    /// `config.pool_addresses`; `None` until one has been loaded.
    pub pool_states: Vec<Option<PoolState>>,
    /// Number of the last block processed.
    pub last_block: u64,
}

impl NumoArb {
    /// The curve is well formed and there is one cache slot per pool.
    pub open spec fn wf(&self) -> bool {
        self.sofr_curve.wf() && self.pool_states.len() == self.config.pool_addresses.len()
    }

    /// The candidate a cycle at `now` with these pool prices yields: the
    /// cheapest and the richest priced pool, if they differ and the rich
    /// price diverges from its fair price by at least `edge_bps`.
    pub open spec fn planned(&self, now: int, prices: Seq<Option<u128>>) -> Option<Candidate> {
        let states = self.pool_states@;
        let n = states.len() as int;
        match (cheapest_before(states, prices, n), richest_before(states, prices, n)) {
            (Some(c), Some(ri)) => if c == ri {
                None
            } else {
                let target = target_price_for(self.sofr_curve, now, states[ri]->0.maturity as int);
                if divergence(price_of(prices, ri), target) >= self.config.edge_bps {
                    Some(
                        Candidate {
                            cheap_index: c as usize,
                            rich_index: ri as usize,
                            cheap_pool: self.config.pool_addresses@[c],
                            rich_pool: self.config.pool_addresses@[ri],
                            cheap_price: prices[c]->0,
                            rich_price: prices[ri]->0,
                            target_price: target as u128,
                        },
                    )
                } else {
                    None
                }
            },
            _ => None,
        }
    }

    /// The opportunity a sized candidate yields, given the cost
    /// `base_in` of buying `fy_amount` on the cheap pool and the proceeds
    /// `base_out` of selling it on the rich one.
    pub open spec fn evaluated(
        &self,
        c: Candidate,
        fy_amount: u128,
        base_in: u128,
        base_out: u128,
    ) -> Option<ArbOpportunity> {
        let slip = self.config.slippage_bps as int;
        let max_in = slipped(base_in as int, slip, true);
        let min_out = slipped(base_out as int, slip, false);
        let profit = gross_profit(max_in, min_out);
        if fy_amount == 0 || base_in >= base_out || max_in > self.config.max_base_amount
            || profit == 0 {
            None
        } else {
            Some(
                ArbOpportunity {
                    cheap_pool: c.cheap_pool,
                    rich_pool: c.rich_pool,
                    fy_amount,
                    max_base_in: max_in as u128,
                    min_base_out: min_out as u128,
                    expected_profit: profit as u128,
                    target_price: c.target_price,
                    cheap_price: c.cheap_price,
                    rich_price: c.rich_price,
                },
            )
        }
    }

    /// A strategy with an empty pool cache.
    pub fn new(config: Config, sofr_curve: SofrCurve) -> (r: NumoArb)
        requires
            sofr_curve.wf(),
        ensures
            r.wf(),
            r.config == config,
            r.sofr_curve == sofr_curve,
            r.last_block == 0,
            forall|i: int| 0 <= i < r.pool_states.len() ==> r.pool_states@[i] is None,
    {
        let n = config.pool_addresses.len();
        let mut pool_states: Vec<Option<PoolState>> = Vec::new();
        let mut i: usize = 0;
        while i < n
            invariant
                i <= n,
                pool_states.len() == i,
                forall|j: int| 0 <= j < i ==> pool_states@[j] is None,
            decreases n - i,
        {
            pool_states.push(None);
            i = i + 1;
        }
        NumoArb { config, sofr_curve, pool_states, last_block: 0 }
    }

    /// Refreshes the pool cache from one sync: `fetched[i]` is the state
    /// just read for pool `i`, or `None` where the read failed, which
    /// leaves the cached entry as it was.
    pub fn sync_state(&mut self, fetched: &Vec<Option<PoolState>>)
        requires
            old(self).wf(),
        ensures
            final(self).wf(),
            final(self).config == old(self).config,
            final(self).sofr_curve == old(self).sofr_curve,
            final(self).last_block == old(self).last_block,
            final(self).pool_states.len() == old(self).pool_states.len(),
            forall|i: int|
                0 <= i < old(self).pool_states.len() ==> #[trigger] final(self).pool_states@[i] == if i
                    < fetched.len() && fetched@[i] is Some {
                    fetched@[i]
                } else {
                    old(self).pool_states@[i]
                },
    {
        let n = self.pool_states.len();
        let mut i: usize = 0;
        while i < n
            invariant
                i <= n,
                n == old(self).pool_states.len(),
                self.pool_states.len() == n,
                self.wf(),
                self.config == old(self).config,
                self.sofr_curve == old(self).sofr_curve,
                self.last_block == old(self).last_block,
                forall|j: int|
                    0 <= j < n ==> #[trigger] self.pool_states@[j] == if j < i && j < fetched.len()
                        && fetched@[j] is Some {
                        fetched@[j]
                    } else {
                        old(self).pool_states@[j]
                    },
            decreases n - i,
        {
            if i < fetched.len() {
                let entry = fetched[i];
                if entry.is_some() {
                    self.pool_states.set(i, entry);
                }
            }
            i = i + 1;
        }
    }

    /// Records a new block as the last one processed.
    pub fn process_new_block(&mut self, block: &NewBlockEvent)
        ensures
            final(self).last_block == block.block_number,
            final(self).config == old(self).config,
            final(self).sofr_curve == old(self).sofr_curve,
            final(self).pool_states == old(self).pool_states,
    {
        self.last_block = block.block_number;
    }

    /// Starts the cycle an event calls for and returns the timestamp it
    /// evaluates at.
    pub fn process_event(&mut self, event: &Event) -> (r: u64)
        ensures
            match *event {
                Event::NewBlock(b) => r == b.timestamp && final(self).last_block == b.block_number,
            },
            final(self).config == old(self).config,
            final(self).sofr_curve == old(self).sofr_curve,
            final(self).pool_states == old(self).pool_states,
    {
        match event {
            Event::NewBlock(block) => {
                self.process_new_block(block);
                block.timestamp
            },
        }
    }

    /// Selects the cheap and the rich pool among those priced this cycle
    /// (`prices[i]` is pool `i`'s marginal price, `None` where the query
    /// failed; pools without a cached state are left out) and gates the
    /// pair on the edge threshold (see `planned`).
    pub fn plan_opportunity(&self, current_ts: u64, prices: &Vec<Option<u128>>) -> (r: Option<
        Candidate,
    >)
        requires
            self.wf(),
        ensures
            r == self.planned(current_ts as int, prices@),
    {
        let states = &self.pool_states;
        let n = states.len();
        let mut cheap: Option<usize> = None;
        let mut rich: Option<usize> = None;
        let mut cheap_price: u128 = 0;
        let mut rich_price: u128 = 0;
        let mut i: usize = 0;
        while i < n
            invariant
                i <= n,
                n == states.len(),
                match cheap {
                    None => cheapest_before(states@, prices@, i as int) is None,
                    Some(c) => cheapest_before(states@, prices@, i as int) == Some(c as int)
                        && cheap_price == prices@[c as int]->0 && c < i && is_priced(
                        states@,
                        prices@,
                        c as int,
                    ),
                },
                match rich {
                    None => richest_before(states@, prices@, i as int) is None,
                    Some(c) => richest_before(states@, prices@, i as int) == Some(c as int)
                        && rich_price == prices@[c as int]->0 && c < i && is_priced(
                        states@,
                        prices@,
                        c as int,
                    ),
                },
            decreases n - i,
        {
            let price = if i < prices.len() {
                prices[i]
            } else {
                None
            };
            if let Some(p) = price {
                if states[i].is_some() {
                    match cheap {
                        None => {
                            cheap = Some(i);
                            cheap_price = p;
                        },
                        Some(_) => {
                            if p < cheap_price {
                                cheap = Some(i);
                                cheap_price = p;
                            }
                        },
                    }
                    match rich {
                        None => {
                            rich = Some(i);
                            rich_price = p;
                        },
                        Some(_) => {
                            if p > rich_price {
                                rich = Some(i);
                                rich_price = p;
                            }
                        },
                    }
                }
            }
            i = i + 1;
        }
        let (c, ri) = match (cheap, rich) {
            (Some(c), Some(ri)) => (c, ri),
            _ => {
                return None;
            },
        };
        if c == ri {
            return None;
        }
        let rich_state = match states[ri] {
            Some(s) => s,
            None => {
                return None;
            },
        };
        let years = self.sofr_curve.time_to_maturity(current_ts, rich_state.maturity);
        let target = self.sofr_curve.discount_factor(years);
        if !meets_edge_threshold(rich_price, target, self.config.edge_bps) {
            return None;
        }
        Some(
            Candidate {
                cheap_index: c,
                rich_index: ri,
                cheap_pool: self.config.pool_addresses[c],
                rich_pool: self.config.pool_addresses[ri],
                cheap_price,
                rich_price,
                target_price: target,
            },
        )
    }

    /// Turns a sized candidate into an opportunity (see `evaluated`):
    /// `fy_amount` is the size found for it, `base_in` the cheap pool's
    /// cost of buying that much FY and `base_out` the rich pool's proceeds
    /// from selling it. Rejects a zero size, a trade that loses before
    /// slippage, one whose slippage-adjusted cost exceeds
    /// `max_base_amount`, and one with nothing left after slippage.
    pub fn evaluate_opportunity(
        &self,
        candidate: &Candidate,
        fy_amount: u128,
        base_in: u128,
        base_out: u128,
    ) -> (r: Option<ArbOpportunity>)
        ensures
            r == self.evaluated(*candidate, fy_amount, base_in, base_out),
            slipped(base_in as int, self.config.slippage_bps as int, true)
                > self.config.max_base_amount ==> r is None,
    {
        if fy_amount == 0 || base_in >= base_out {
            return None;
        }
        let max_base_in = apply_slippage(base_in, self.config.slippage_bps, true);
        let min_base_out = apply_slippage(base_out, self.config.slippage_bps, false);
        if max_base_in > self.config.max_base_amount {
            return None;
        }
        let expected_profit = min_base_out.saturating_sub(max_base_in);
        if expected_profit == 0 {
            return None;
        }
        Some(
            ArbOpportunity {
                cheap_pool: candidate.cheap_pool,
                rich_pool: candidate.rich_pool,
                fy_amount,
                max_base_in,
                min_base_out,
                expected_profit,
                target_price: candidate.target_price,
                cheap_price: candidate.cheap_price,
                rich_price: candidate.rich_price,
            },
        )
    }

    /// The instruction that hands an opportunity to execution, with the
    /// configured gas-bid share of its expected profit.
    pub fn execute_arbitrage(&self, opp: &ArbOpportunity) -> (r: ExecutionInstruction)
        ensures
            r == (ExecutionInstruction {
                cheap_pool: opp.cheap_pool,
                rich_pool: opp.rich_pool,
                fy_amount: opp.fy_amount,
                max_base_in: opp.max_base_in,
                min_base_out: opp.min_base_out,
                total_profit: opp.expected_profit,
                bid_percentage: self.config.bid_percentage,
            }),
    {
        ExecutionInstruction {
            cheap_pool: opp.cheap_pool,
            rich_pool: opp.rich_pool,
            fy_amount: opp.fy_amount,
            max_base_in: opp.max_base_in,
            min_base_out: opp.min_base_out,
            total_profit: opp.expected_profit,
            bid_percentage: self.config.bid_percentage,
        }
    }
}

/// The cheapest and the richest pool below `n` are priced pools below `n`.
proof fn lemma_extremes_are_priced(states: Seq<Option<PoolState>>, prices: Seq<Option<u128>>, n: int)
    ensures
        cheapest_before(states, prices, n) matches Some(c) ==> 0 <= c < n && is_priced(
            states,
            prices,
            c,
        ),
        richest_before(states, prices, n) matches Some(c) ==> 0 <= c < n && is_priced(
            states,
            prices,
            c,
        ),
    decreases n,
{
    if n > 0 {
        lemma_extremes_are_priced(states, prices, n - 1);
    }
}

/// When every priced pool has the same price, the cheapest and the richest
/// pool are the same one.
proof fn lemma_equal_prices_same_extremes(
    states: Seq<Option<PoolState>>,
    prices: Seq<Option<u128>>,
    n: int,
)
    requires
        forall|i: int, j: int|
            is_priced(states, prices, i) && is_priced(states, prices, j) ==> price_of(prices, i)
                == price_of(prices, j),
    ensures
        cheapest_before(states, prices, n) == richest_before(states, prices, n),
    decreases n,
{
    if n > 0 {
        lemma_equal_prices_same_extremes(states, prices, n - 1);
        lemma_extremes_are_priced(states, prices, n - 1);
    }
}

/// The cheapest pool has the lowest price and the richest the highest
/// among the priced pools below `n`.
pub proof fn lemma_extremes_bound_prices(
    states: Seq<Option<PoolState>>,
    prices: Seq<Option<u128>>,
    n: int,
    i: int,
)
    requires
        0 <= i < n,
        is_priced(states, prices, i),
    ensures
        cheapest_before(states, prices, n) matches Some(c) && price_of(prices, c) <= price_of(
            prices,
            i,
        ),
        richest_before(states, prices, n) matches Some(c) && price_of(prices, i) <= price_of(
            prices,
            c,
        ),
    decreases n,
{
    if i < n - 1 {
        lemma_extremes_bound_prices(states, prices, n - 1, i);
    } else {
        lemma_extremes_are_priced(states, prices, n - 1);
    }
}

/// With at most one pool both cached and priced, a cycle finds no
/// opportunity.
pub proof fn lemma_single_pool_no_opportunity(s: NumoArb, now: int, prices: Seq<Option<u128>>)
    requires
        forall|i: int, j: int|
            is_priced(s.pool_states@, prices, i) && is_priced(s.pool_states@, prices, j) ==> i
                == j,
    ensures
        s.planned(now, prices) is None,
{
    lemma_extremes_are_priced(s.pool_states@, prices, s.pool_states@.len() as int);
}

/// When all priced pools quote the same price, a cycle finds no
/// opportunity.
pub proof fn lemma_tied_prices_no_opportunity(s: NumoArb, now: int, prices: Seq<Option<u128>>)
    requires
        forall|i: int, j: int|
            is_priced(s.pool_states@, prices, i) && is_priced(s.pool_states@, prices, j)
                ==> price_of(prices, i) == price_of(prices, j),
    ensures
        s.planned(now, prices) is None,
{
    lemma_equal_prices_same_extremes(s.pool_states@, prices, s.pool_states@.len() as int);
}

/// An opportunity whose slippage-adjusted cost exceeds the position limit
/// is rejected, however large its profit before slippage.
pub proof fn lemma_position_limit_rejects(
    s: NumoArb,
    c: Candidate,
    fy_amount: u128,
    base_in: u128,
    base_out: u128,
)
    requires
        slipped(base_in as int, s.config.slippage_bps as int, true) > s.config.max_base_amount,
    ensures
        s.evaluated(c, fy_amount, base_in, base_out) is None,
{
}

} // verus!
