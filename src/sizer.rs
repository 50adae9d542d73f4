//! Trade sizing: an integer bisection over `[0, max]` that looks for the
//! largest size at which a pool still prices above a target.
//!
//! Each step needs one price observation, which may come from a live
//! query (the pool's current marginal price, standing in for the
//! unavailable post-trade price) or from a pricing function. `Bisection`
//! holds the search state between observations; `solve_fy_amount_to_target`
//! runs the whole search against a pricing function.

use vstd::prelude::*;

verus! {

/// The search stops after this many observations.
pub const MAX_BISECTION_ITERATIONS: usize = 25;

/// The search stops once the open interval is narrower than this many
/// smallest units.
pub const CONVERGENCE_WIDTH: u128 = 1000;

/// State of a bisection search.
#[derive(Clone, Copy, Debug, PartialEq, Eq)]
pub struct Bisection {
    /// Smallest size still in question.
    pub lo: u128,
    /// Largest size still in question.
    pub hi: u128,
    /// Largest size observed to price above target so far; 0 for none.
    pub best: u128,
    /// Observations made so far.
    pub iterations: usize,
    /// The interval has become narrower than `CONVERGENCE_WIDTH`.
    pub converged: bool,
}

impl Bisection {
    /// The size the next observation is for: the midpoint of `[lo, hi]`;
    /// `None` once the search is over (converged, out of iterations, an
    /// empty interval, or a zero midpoint).
    pub open spec fn next_size(self) -> Option<u128> {
        if self.converged || self.iterations >= MAX_BISECTION_ITERATIONS || self.hi <= self.lo {
            None
        } else if (self.lo + self.hi) / 2 == 0 {
            None
        } else {
            Some(((self.lo + self.hi) / 2) as u128)
        }
    }

    /// The state after observing `price` at the midpoint: above target,
    /// the midpoint becomes the best size and the search moves up;
    /// otherwise it moves down.
    pub open spec fn after(self, price: u128, target: u128) -> Bisection {
        let mid = (self.lo + self.hi) / 2;
        let lo = if price > target {
            mid + 1
        } else {
            self.lo as int
        };
        let hi = if price > target {
            self.hi as int
        } else {
            mid - 1
        };
        Bisection {
            lo: lo as u128,
            hi: hi as u128,
            best: if price > target {
                mid as u128
            } else {
                self.best
            },
            iterations: (self.iterations + 1) as usize,
            converged: hi < lo || hi - lo < CONVERGENCE_WIDTH,
        }
    }

    /// What the search found: the best size, or `None` if no size priced
    /// above target.
    pub open spec fn outcome(self) -> Option<u128> {
        if self.best == 0 {
            None
        } else {
            Some(self.best)
        }
    }

    /// `best` is the size just below `lo`, or nothing was found yet and
    /// `lo` is still 0.
    pub open spec fn consistent(self) -> bool {
        (self.best == 0 && self.lo == 0) || (self.best > 0 && self.best + 1 == self.lo)
    }

    /// A search over `[0, max_fy_amount]`.
    pub fn new(max_fy_amount: u128) -> (r: Bisection)
        ensures
            r == (Bisection { lo: 0, hi: max_fy_amount, best: 0, iterations: 0, converged: false }),
            r.consistent(),
    {
        Bisection { lo: 0, hi: max_fy_amount, best: 0, iterations: 0, converged: false }
    }

    /// The size to observe next, or `None` when the search is over.
    pub fn next_probe(&self) -> (r: Option<u128>)
        ensures
            r == self.next_size(),
    {
        if self.converged || self.iterations >= MAX_BISECTION_ITERATIONS || self.hi <= self.lo {
            return None;
        }
        let mid = self.lo + (self.hi - self.lo) / 2;
        if mid == 0 {
            None
        } else {
            Some(mid)
        }
    }

    /// Records the price observed at the size `next_probe` gave.
    pub fn observe(&mut self, price: u128, target: u128)
        requires
            old(self).next_size() is Some,
        ensures
            *final(self) == old(self).after(price, target),
            old(self).consistent() ==> final(self).consistent(),
    {
        let mid = self.lo + (self.hi - self.lo) / 2;
        if price > target {
            self.best = mid;
            self.lo = mid + 1;
        } else {
            self.hi = mid - 1;
        }
        self.iterations = self.iterations + 1;
        self.converged = self.hi < self.lo || self.hi - self.lo < CONVERGENCE_WIDTH;
    }

    /// The best size found, or `None` if no size priced above target.
    pub fn result(&self) -> (r: Option<u128>)
        ensures
            r == self.outcome(),
    {
        if self.best == 0 {
            None
        } else {
            Some(self.best)
        }
    }
}

/// 2 to the power `n`.
pub open spec fn pow2(n: nat) -> nat
    decreases n,
{
    if n == 0 {
        1
    } else {
        2 * pow2((n - 1) as nat)
    }
}

/// The state a search reaches from `s` when every observation at a size
/// `x` reports `price(x)`: it steps while `next_size` gives a size.
pub open spec fn search(s: Bisection, price: spec_fn(u128) -> u128, target: u128) -> Bisection
    decreases MAX_BISECTION_ITERATIONS - s.iterations,
{
    if s.next_size() is Some {
        search(s.after(price(s.next_size()->0), target), price, target)
    } else {
        s
    }
}

/// `price_at` answers a query at size `x` with `price(x)`.
pub open spec fn reports<F: Fn(u128) -> u128>(price_at: &F, price: spec_fn(u128) -> u128) -> bool {
    forall|x: u128, p: u128| #[trigger] price_at.ensures((x,), p) ==> p == price(x)
}

/// Largest size in `[0, max_fy_amount]` that `price_at` prices above
/// `target_price_1e18`, by bisection (see `Bisection`).
///
/// Where `price_at` answers each size `x` with `price(x)`, the result is
/// exactly that of `search` from `Bisection::new(max_fy_amount)` (see
/// `lemma_search_converges` for how close it comes to the threshold).
/// In any case a size it returns was observed above target; it returns
/// `None` when `max_fy_amount` is 0 or no observation is above target,
/// and a size when `max_fy_amount >= 2` and every observation is above
/// target.
pub fn solve_fy_amount_to_target<F: Fn(u128) -> u128>(
    price_at: &F,
    target_price_1e18: u128,
    max_fy_amount: u128,
) -> (r: Option<u128>)
    requires
        forall|x: u128| price_at.requires((x,)),
    ensures
        forall|price: spec_fn(u128) -> u128|
            #[trigger] reports(price_at, price) ==> r == search(
                Bisection { lo: 0, hi: max_fy_amount, best: 0, iterations: 0, converged: false },
                price,
                target_price_1e18,
            ).outcome(),
        match r {
            Some(x) => 0 < x <= max_fy_amount && exists|p: u128|
                #![trigger price_at.ensures((x,), p)]
                price_at.ensures((x,), p) && p > target_price_1e18,
            None => true,
        },
        max_fy_amount == 0 ==> r is None,
        (forall|x: u128, p: u128| #[trigger] price_at.ensures((x,), p) ==> p <= target_price_1e18)
            ==> r is None,
        max_fy_amount >= 2 && (forall|x: u128, p: u128|
            #[trigger] price_at.ensures((x,), p) ==> p > target_price_1e18) ==> r is Some,
{
    let mut search_state = Bisection::new(max_fy_amount);
    let ghost start = search_state;
    loop
        invariant
            forall|x: u128| price_at.requires((x,)),
            start == (Bisection { lo: 0, hi: max_fy_amount, best: 0, iterations: 0, converged: false }),
            search_state.hi <= max_fy_amount,
            search_state.best <= max_fy_amount,
            search_state.iterations <= MAX_BISECTION_ITERATIONS,
            search_state.iterations == 0 ==> search_state == start,
            search_state.best == 0 || exists|p: u128|
                #![trigger price_at.ensures((search_state.best,), p)]
                price_at.ensures((search_state.best,), p) && p > target_price_1e18,
            (forall|x: u128, p: u128| #[trigger] price_at.ensures((x,), p) ==> p <= target_price_1e18)
                ==> search_state.best == 0,
            (forall|x: u128, p: u128| #[trigger] price_at.ensures((x,), p) ==> p > target_price_1e18)
                ==> (search_state.iterations == 0 || search_state.best > 0),
            forall|price: spec_fn(u128) -> u128|
                #[trigger] reports(price_at, price) ==> search(search_state, price, target_price_1e18)
                    == search(start, price, target_price_1e18),
        ensures
            search_state.next_size() is None,
        decreases MAX_BISECTION_ITERATIONS - search_state.iterations,
    {
        match search_state.next_probe() {
            None => {
                break ;
            },
            Some(mid) => {
                let price = price_at(mid);
                let ghost before = search_state;
                search_state.observe(price, target_price_1e18);
                assert forall|f: spec_fn(u128) -> u128| #[trigger] reports(price_at, f) implies search(
                    search_state,
                    f,
                    target_price_1e18,
                ) == search(start, f, target_price_1e18) by {
                    assert(price == f(mid));
                    assert(search(before, f, target_price_1e18) == search(
                        before.after(f(mid), target_price_1e18),
                        f,
                        target_price_1e18,
                    ));
                }
            },
        }
    }
    proof {
        assert forall|f: spec_fn(u128) -> u128| #[trigger] reports(price_at, f) implies search(
            start,
            f,
            target_price_1e18,
        ) == search_state by {
            assert(search(search_state, f, target_price_1e18) == search_state);
        }
    }
    search_state.result()
}

/// Every size below `lo` prices above target, and every size above `hi`
/// up to `cap` prices at or below it.
pub open spec fn brackets(
    s: Bisection,
    price: spec_fn(u128) -> u128,
    target: u128,
    cap: u128,
) -> bool {
    &&& forall|x: u128| x < s.lo ==> #[trigger] price(x) > target
    &&& forall|x: u128| s.hi < x <= cap ==> #[trigger] price(x) <= target
}

/// Prices that never rise with the traded size.
pub open spec fn non_increasing(price: spec_fn(u128) -> u128) -> bool {
    forall|x: u128, y: u128| x <= y ==> #[trigger] price(y) <= #[trigger] price(x)
}

/// Against a pool whose price never rises with size, each observation
/// keeps the threshold size bracketed between `lo` and `hi`.
pub proof fn lemma_step_keeps_bracket(
    s: Bisection,
    price: spec_fn(u128) -> u128,
    target: u128,
    cap: u128,
)
    requires
        non_increasing(price),
        brackets(s, price, target, cap),
        s.next_size() is Some,
    ensures
        brackets(s.after(price(s.next_size()->0), target), price, target, cap),
{
    let mid = s.next_size()->0;
    let t = s.after(price(mid), target);
    if price(mid) > target {
        assert forall|x: u128| x < t.lo implies #[trigger] price(x) > target by {
            if x >= s.lo {
                assert(price(mid) <= price(x));
            }
        }
    } else {
        assert forall|x: u128| t.hi < x <= cap implies #[trigger] price(x) <= target by {
            if x <= s.hi {
                assert(price(x) <= price(mid));
            }
        }
    }
}

/// Once a search has converged with a result, the threshold size is
/// pinned to within `CONVERGENCE_WIDTH` of it: every size up to the
/// result prices above target, and every size more than
/// `CONVERGENCE_WIDTH` beyond it (up to `cap`) prices at or below.
pub proof fn lemma_converged_result_is_close(
    s: Bisection,
    price: spec_fn(u128) -> u128,
    target: u128,
    cap: u128,
)
    requires
        s.consistent(),
        s.converged == (s.hi < s.lo || s.hi - s.lo < CONVERGENCE_WIDTH),
        s.converged,
        s.best > 0,
        brackets(s, price, target, cap),
    ensures
        forall|x: u128| x <= s.best ==> #[trigger] price(x) > target,
        forall|x: u128| s.best + CONVERGENCE_WIDTH < x <= cap ==> #[trigger] price(x) <= target,
{
    assert forall|x: u128| s.best + CONVERGENCE_WIDTH < x <= cap implies #[trigger] price(x) <= target by {
        assert(s.hi < x);
    }
}

/// Every search step counts one observation, so a search ends within
/// `MAX_BISECTION_ITERATIONS` observations.
pub proof fn lemma_iterations_capped(s: Bisection, price: u128, target: u128)
    requires
        s.next_size() is Some,
    ensures
        s.iterations < MAX_BISECTION_ITERATIONS,
        s.after(price, target).iterations == s.iterations + 1,
{
}

/// A search over an empty range finds nothing.
pub proof fn lemma_zero_budget_finds_nothing()
    ensures
        (Bisection { lo: 0, hi: 0, best: 0, iterations: 0, converged: false }).next_size() is None,
        (Bisection { lo: 0, hi: 0, best: 0, iterations: 0, converged: false }).outcome() is None,
{
}

/// An observation at or below target never changes the result.
pub proof fn lemma_low_price_keeps_result(s: Bisection, price: u128, target: u128)
    requires
        price <= target,
    ensures
        s.after(price, target).outcome() == s.outcome(),
{
}

/// Against a pool whose price never rises with size and is already at or
/// below target at size 0, no observation records a result.
pub proof fn lemma_below_target_at_zero_finds_nothing(
    s: Bisection,
    price: spec_fn(u128) -> u128,
    target: u128,
)
    requires
        non_increasing(price),
        price(0) <= target,
        s.best == 0,
        s.next_size() is Some,
    ensures
        s.after(price(s.next_size()->0), target).best == 0,
{
    let mid = s.next_size()->0;
    assert(price(mid) <= price(0));
}

/// Largest `max_fy_amount` for which a search always narrows its interval
/// below `CONVERGENCE_WIDTH` within `MAX_BISECTION_ITERATIONS` steps
/// (exclusive): `CONVERGENCE_WIDTH * 2^25`.
pub const CONVERGENT_MAX: u128 = 33_554_432_000;

/// What holds at every state of a search over `[0, max]` against a
/// pricing function that never rises with size: the threshold stays
/// bracketed, and the interval halves with every observation.
pub open spec fn on_track(s: Bisection, price: spec_fn(u128) -> u128, target: u128, max: u128) -> bool {
    &&& s.consistent()
    &&& brackets(s, price, target, max)
    &&& s.iterations <= MAX_BISECTION_ITERATIONS
    &&& s.hi <= max
    &&& s.best <= max
    &&& (s.converged ==> s.hi < s.lo + CONVERGENCE_WIDTH)
    &&& (s.hi >= s.lo ==> (s.hi - s.lo + 1) * pow2(s.iterations as nat) <= max + 1)
}

proof fn lemma_step_on_track(s: Bisection, price: spec_fn(u128) -> u128, target: u128, max: u128)
    requires
        non_increasing(price),
        on_track(s, price, target, max),
        s.next_size() is Some,
    ensures
        on_track(s.after(price(s.next_size()->0), target), price, target, max),
{
    let mid = s.next_size()->0;
    let t = s.after(price(mid), target);
    lemma_step_keeps_bracket(s, price, target, max);
    let w = s.hi - s.lo + 1;
    let p = pow2(s.iterations as nat);
    assert(pow2(t.iterations as nat) == 2 * p);
    if t.hi >= t.lo {
        let w2 = t.hi - t.lo + 1;
        assert(2 * w2 <= w);
        assert(w2 * (2 * p) <= w * p) by (nonlinear_arith)
            requires
                2 * w2 <= w,
                p >= 0,
                w2 >= 0,
        ;
    }
}

proof fn lemma_search_on_track(s: Bisection, price: spec_fn(u128) -> u128, target: u128, max: u128)
    requires
        non_increasing(price),
        on_track(s, price, target, max),
    ensures
        on_track(search(s, price, target), price, target, max),
        search(s, price, target).next_size() is None,
    decreases MAX_BISECTION_ITERATIONS - s.iterations,
{
    if s.next_size() is Some {
        lemma_step_on_track(s, price, target, max);
        lemma_search_on_track(s.after(price(s.next_size()->0), target), price, target, max);
    }
}

/// Against a pricing function that never rises with size, and for
/// `max_fy_amount < CONVERGENT_MAX`, a search ends with the threshold
/// size within `CONVERGENCE_WIDTH` of its result: a result `x` prices
/// above target and every size more than `CONVERGENCE_WIDTH` beyond `x`
/// (up to the maximum) prices at or below it; with no result, every size
/// from `CONVERGENCE_WIDTH` up prices at or below target.
pub proof fn lemma_search_converges(max_fy_amount: u128, price: spec_fn(u128) -> u128, target: u128)
    requires
        non_increasing(price),
        max_fy_amount < CONVERGENT_MAX,
    ensures
        ({
            let s = search(
                Bisection { lo: 0, hi: max_fy_amount, best: 0, iterations: 0, converged: false },
                price,
                target,
            );
            &&& s.iterations <= MAX_BISECTION_ITERATIONS
            &&& s.hi < s.lo + CONVERGENCE_WIDTH
            &&& match s.outcome() {
                Some(x) => x <= max_fy_amount && price(x) > target && forall|y: u128|
                    x + CONVERGENCE_WIDTH < y <= max_fy_amount ==> #[trigger] price(y) <= target,
                None => forall|y: u128|
                    CONVERGENCE_WIDTH <= y <= max_fy_amount ==> #[trigger] price(y) <= target,
            }
        }),
{
    let s0 = Bisection { lo: 0, hi: max_fy_amount, best: 0, iterations: 0, converged: false };
    assert(pow2(0) == 1);
    assert(brackets(s0, price, target, max_fy_amount));
    assert(pow2(s0.iterations as nat) == 1);
    assert((s0.hi - s0.lo + 1) * pow2(s0.iterations as nat) <= max_fy_amount + 1) by (nonlinear_arith)
        requires
            pow2(s0.iterations as nat) == 1,
            s0.hi - s0.lo + 1 == max_fy_amount + 1,
    ;
    lemma_search_on_track(s0, price, target, max_fy_amount);
    let s = search(s0, price, target);
    if s.hi >= s.lo && !s.converged && s.iterations >= MAX_BISECTION_ITERATIONS
        && (s.lo + s.hi) / 2 != 0 {
        reveal_with_fuel(pow2, 26);
        assert(pow2(25) == 33_554_432);
        let w = s.hi - s.lo + 1;
        assert(w <= CONVERGENCE_WIDTH) by (nonlinear_arith)
            requires
                w * 33_554_432 <= max_fy_amount + 1,
                max_fy_amount < 33_554_432_000,
        ;
    }
    assert(s.hi < s.lo + CONVERGENCE_WIDTH);
    match s.outcome() {
        Some(x) => {
            assert(x < s.lo);
            assert forall|y: u128| x + CONVERGENCE_WIDTH < y <= max_fy_amount implies #[trigger] price(
                y,
            ) <= target by {
                assert(s.hi < y);
            }
        },
        None => {
            assert forall|y: u128| CONVERGENCE_WIDTH <= y <= max_fy_amount implies #[trigger] price(
                y,
            ) <= target by {
                assert(s.hi < y);
            }
        },
    }
}

proof fn lemma_search_keeps_best(s: Bisection, price: spec_fn(u128) -> u128, target: u128)
    requires
        s.best > 0,
    ensures
        search(s, price, target).best > 0,
    decreases MAX_BISECTION_ITERATIONS - s.iterations,
{
    if s.next_size() is Some {
        lemma_search_keeps_best(s.after(price(s.next_size()->0), target), price, target);
    }
}

/// When every size prices above target (a pool left unchanged during the
/// search, whose price stays above target, is the common case) and
/// `max_fy_amount >= 2`, the search finds a size `x` near the maximum:
/// `max_fy_amount - x` is within `CONVERGENCE_WIDTH`, or else at most
/// `(max_fy_amount + 1) / 2^25`.
pub proof fn lemma_search_above_target_nears_max(
    max_fy_amount: u128,
    price: spec_fn(u128) -> u128,
    target: u128,
)
    requires
        non_increasing(price),
        forall|x: u128| #[trigger] price(x) > target,
        max_fy_amount >= 2,
    ensures
        search(
            Bisection { lo: 0, hi: max_fy_amount, best: 0, iterations: 0, converged: false },
            price,
            target,
        ).outcome() matches Some(x) && x <= max_fy_amount && (max_fy_amount - x
            <= CONVERGENCE_WIDTH || (max_fy_amount - x) * 33_554_432 <= max_fy_amount + 1),
{
    let s0 = Bisection { lo: 0, hi: max_fy_amount, best: 0, iterations: 0, converged: false };
    assert(pow2(s0.iterations as nat) == 1);
    assert((s0.hi - s0.lo + 1) * pow2(s0.iterations as nat) <= max_fy_amount + 1) by (nonlinear_arith)
        requires
            pow2(s0.iterations as nat) == 1,
            s0.hi - s0.lo + 1 == max_fy_amount + 1,
    ;
    lemma_search_on_track(s0, price, target, max_fy_amount);
    let s1 = s0.after(price(s0.next_size()->0), target);
    assert(search(s0, price, target) == search(s1, price, target));
    lemma_search_keeps_best(s1, price, target);
    let s = search(s0, price, target);
    assert(s.hi == max_fy_amount) by {
        if s.hi < max_fy_amount {
            assert(price(max_fy_amount) > target);
        }
    }
    let x = s.best;
    if !(s.hi < s.lo + CONVERGENCE_WIDTH) {
        assert(s.iterations >= MAX_BISECTION_ITERATIONS);
        reveal_with_fuel(pow2, 26);
        assert(pow2(25) == 33_554_432);
        assert((max_fy_amount - x) * 33_554_432 <= max_fy_amount + 1);
    }
}

} // verus!
