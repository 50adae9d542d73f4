//! Marginal-price estimation, price divergence, slippage and profit
//! arithmetic.

use crate::arith::{lemma_fraction_below, lemma_mul_div_split};
use vstd::arithmetic::div_mod::*;
use vstd::prelude::*;

verus! {

/// The fixed-point scale of every price: `10^18` stands for one base
/// token per FY token.
pub const PRICE_SCALE: u128 = 1_000_000_000_000_000_000;

/// Size of each one-sided probe quote used to estimate a marginal price
/// (`10^15` smallest units, 0.001 of an 18-decimal token).
pub const PRICE_PROBE_AMOUNT: u128 = 1_000_000_000_000_000;

/// Basis points in one whole.
pub const BPS_DENOMINATOR: u128 = 10_000;

/// Absolute difference of two integers.
pub open spec fn abs_diff(a: int, b: int) -> int {
    if a >= b {
        a - b
    } else {
        b - a
    }
}

/// `x` clamped into the range of `i128`.
pub open spec fn clamp_i128(x: int) -> int {
    if x > i128::MAX {
        i128::MAX as int
    } else if x < i128::MIN {
        i128::MIN as int
    } else {
        x
    }
}

/// `x` clamped into the range of `u128`.
pub open spec fn clamp_u128(x: int) -> int {
    if x > u128::MAX {
        u128::MAX as int
    } else if x < 0 {
        0
    } else {
        x
    }
}

/// A zero quote counts as one unit, so that it can divide.
pub open spec fn at_least_one(x: int) -> int {
    if x == 0 {
        1
    } else {
        x
    }
}

/// Mid price, at `PRICE_SCALE`, of a pool whose probe quotes were:
/// `fy_out` FY received for `PRICE_PROBE_AMOUNT` base sold, and
/// `base_out` base received for `PRICE_PROBE_AMOUNT` FY sold.
pub open spec fn mid_price(fy_out: int, base_out: int) -> int {
    let ask = (PRICE_PROBE_AMOUNT as int) * (PRICE_SCALE as int) / at_least_one(fy_out);
    let bid = at_least_one(base_out) * (PRICE_SCALE as int) / (PRICE_PROBE_AMOUNT as int);
    (ask + bid) / 2
}

/// Price divergence in whole basis points: `|pool - target| * 10000 / target`,
/// and 0 for a zero target.
pub open spec fn divergence(pool_price: int, target_price: int) -> int {
    if target_price == 0 {
        0
    } else {
        abs_diff(pool_price, target_price) * (BPS_DENOMINATOR as int) / target_price
    }
}

/// `amount` widened (a maximum input) or narrowed (a minimum output) by
/// `slippage_bps` basis points, saturating at the bounds of `u128`.
pub open spec fn slipped(amount: int, slippage_bps: int, is_max_in: bool) -> int {
    let adjustment = amount * slippage_bps / (BPS_DENOMINATOR as int);
    if is_max_in {
        clamp_u128(amount + adjustment)
    } else {
        clamp_u128(amount - adjustment)
    }
}

/// Gross profit of a round trip: what came back over what was spent,
/// never below zero.
pub open spec fn gross_profit(spent: int, received: int) -> int {
    if received > spent {
        received - spent
    } else {
        0
    }
}

/// `a - b` as a signed 128-bit value, saturating at its bounds.
pub fn signed_difference(a: u128, b: u128) -> (r: i128)
    ensures
        r == clamp_i128(a - b),
{
    if a >= b {
        let d: u128 = a - b;
        if d > i128::MAX as u128 {
            i128::MAX
        } else {
            d as i128
        }
    } else {
        let d: u128 = b - a;
        if d > i128::MAX as u128 {
            i128::MIN
        } else {
            -(d as i128)
        }
    }
}

/// Gross and net profit of a trade: `gross = received - spent` (never
/// negative) and `net = gross - gas` (signed).
pub fn calculate_profit(base_spent: u128, base_received: u128, estimated_gas_cost: u128) -> (r: (
    u128,
    i128,
))
    ensures
        r.0 == gross_profit(base_spent as int, base_received as int),
        r.1 == clamp_i128(r.0 - estimated_gas_cost),
{
    let gross = base_received.saturating_sub(base_spent);
    (gross, signed_difference(gross, estimated_gas_cost))
}

/// Widens a maximum input (`is_max_in`) or narrows a minimum output by
/// `slippage_bps` basis points; saturates rather than overflowing.
pub fn apply_slippage(amount: u128, slippage_bps: u32, is_max_in: bool) -> (r: u128)
    ensures
        r == slipped(amount as int, slippage_bps as int, is_max_in),
{
    let bps = slippage_bps as u128;
    let whole = amount / BPS_DENOMINATOR;
    let rest = amount % BPS_DENOMINATOR;
    proof {
        lemma_mul_div_split(amount as int, bps as int, BPS_DENOMINATOR as int);
        lemma_fraction_below(rest as int, bps as int + 1, BPS_DENOMINATOR as int);
        assert(rest * bps <= rest * (bps + 1)) by (nonlinear_arith)
            requires
                rest >= 0,
        ;
    }
    let part = rest * bps / BPS_DENOMINATOR;
    let adjustment = match whole.checked_mul(bps) {
        Some(w) => w.checked_add(part),
        None => None,
    };
    match adjustment {
        Some(adj) => {
            if is_max_in {
                amount.saturating_add(adj)
            } else {
                amount.saturating_sub(adj)
            }
        },
        None => {
            // The adjustment alone exceeds every `u128`, hence `amount` too.
            if is_max_in {
                u128::MAX
            } else {
                0
            }
        },
    }
}

/// `rem * 10000 / den` for `rem < den`, without overflow.
fn bps_fraction(rem: u128, den: u128) -> (r: u128)
    requires
        rem < den,
    ensures
        r == (rem as int) * (BPS_DENOMINATOR as int) / (den as int),
        r < BPS_DENOMINATOR,
{
    proof {
        lemma_fraction_below(rem as int, BPS_DENOMINATOR as int, den as int);
    }
    if rem <= u128::MAX / BPS_DENOMINATOR {
        proof {
            assert(rem * BPS_DENOMINATOR <= u128::MAX) by (nonlinear_arith)
                requires
                    rem <= u128::MAX / BPS_DENOMINATOR,
            ;
        }
        return rem * BPS_DENOMINATOR / den;
    }
    // Long multiplication by repeated addition modulo `den`: after `i`
    // steps, `i * rem == count * den + acc` with `acc < den`.
    let mut i: u128 = 0;
    let mut count: u128 = 0;
    let mut acc: u128 = 0;
    while i < BPS_DENOMINATOR
        invariant
            i <= BPS_DENOMINATOR,
            rem < den,
            acc < den,
            count <= i,
            i * rem == count * den + acc,
        decreases BPS_DENOMINATOR - i,
    {
        proof {
            assert((i + 1) * rem == i * rem + rem) by (nonlinear_arith);
        }
        if acc >= den - rem {
            acc = acc - (den - rem);
            count = count + 1;
            proof {
                assert((count - 1) * den + den == count * den) by (nonlinear_arith);
            }
        } else {
            acc = acc + rem;
        }
        i = i + 1;
    }
    proof {
        assert(rem * BPS_DENOMINATOR == count * den + acc) by (nonlinear_arith)
            requires
                i * rem == count * den + acc,
                i == BPS_DENOMINATOR,
        ;
        lemma_fundamental_div_mod_converse(rem * BPS_DENOMINATOR, den as int, count as int, acc as int);
    }
    count
}

/// Divergence of a pool price from a target price in whole basis points,
/// `|pool - target| * 10000 / target` (0 for a zero target), saturating
/// at `u32::MAX`.
pub fn price_divergence_bps(pool_price: u128, target_price: u128) -> (r: u32)
    ensures
        r as int == if divergence(pool_price as int, target_price as int) > u32::MAX {
            u32::MAX as int
        } else {
            divergence(pool_price as int, target_price as int)
        },
{
    if target_price == 0 {
        return 0;
    }
    let diff = if pool_price > target_price {
        pool_price - target_price
    } else {
        target_price - pool_price
    };
    let whole = diff / target_price;
    let rest = diff % target_price;
    proof {
        lemma_mul_div_split(diff as int, BPS_DENOMINATOR as int, target_price as int);
        lemma_mod_pos_bound(diff as int, target_price as int);
    }
    if whole >= 429_497 {
        return u32::MAX;
    }
    let frac = bps_fraction(rest, target_price);
    let total: u128 = whole * BPS_DENOMINATOR + frac;
    if total > u32::MAX as u128 {
        u32::MAX
    } else {
        total as u32
    }
}

/// Whether a pool price diverges from the target by at least `edge_bps`
/// basis points (the boundary itself counts).
pub fn meets_edge_threshold(pool_price: u128, target_price: u128, edge_bps: u32) -> (r: bool)
    ensures
        r == (divergence(pool_price as int, target_price as int) >= edge_bps),
{
    let d = price_divergence_bps(pool_price, target_price);
    d >= edge_bps
}

/// Mid price (at `PRICE_SCALE`) from the two probe quotes of a pool:
/// `fy_out` FY received for `PRICE_PROBE_AMOUNT` base, and `base_out`
/// base received for `PRICE_PROBE_AMOUNT` FY. A zero quote counts as 1.
/// `None` when the mid price does not fit in a `u128`.
pub fn marginal_price_base_per_fy(fy_out: u128, base_out: u128) -> (r: Option<u128>)
    ensures
        r == (if mid_price(fy_out as int, base_out as int) <= u128::MAX {
            Some(mid_price(fy_out as int, base_out as int) as u128)
        } else {
            None
        }),
{
    let fy = if fy_out == 0 {
        1
    } else {
        fy_out
    };
    let base = if base_out == 0 {
        1
    } else {
        base_out
    };
    let ask: u128 = PRICE_PROBE_AMOUNT * PRICE_SCALE / fy;
    proof {
        // PRICE_SCALE == 1000 * PRICE_PROBE_AMOUNT, so the bid is exactly 1000 * base.
        assert(base * PRICE_SCALE == (1000 * base) * PRICE_PROBE_AMOUNT) by (nonlinear_arith);
        lemma_fundamental_div_mod_converse(
            base * PRICE_SCALE,
            PRICE_PROBE_AMOUNT as int,
            1000 * base,
            0,
        );
        lemma_fundamental_div_mod(ask as int, 2);
        lemma_fundamental_div_mod_converse(
            ask + 1000 * base,
            2,
            500 * base + ask / 2,
            (ask % 2) as int,
        );
    }
    match base.checked_mul(500) {
        Some(half_bid) => half_bid.checked_add(ask / 2),
        None => None,
    }
}

} // verus!
