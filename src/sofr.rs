//! Reference discount curve: piecewise-linear simple rates, discount
//! factors, forward rates and year fractions.
//!
//! Times are year fractions and rates are simple annual rates, both as
//! fixed-point numbers where `ONE` (`10^18`) stands for 1.0.

use crate::arith::{lemma_div_antitone, lemma_div_monotone, lemma_mul_div_split};
use crate::pricing::abs_diff;
use vstd::arithmetic::div_mod::*;
use vstd::prelude::*;

verus! {

/// Fixed-point one: `10^18`.
pub const ONE: u128 = 1_000_000_000_000_000_000;

/// Seconds in a day.
pub const SECONDS_PER_DAY: u128 = 86_400;

/// Latest knot time a curve accepts: 300 years.
pub const MAX_KNOT_TIME: u128 = 300_000_000_000_000_000_000;

/// Highest knot rate a curve accepts: 100% a year.
pub const MAX_KNOT_RATE: u128 = 1_000_000_000_000_000_000;

/// Day-count convention that turns elapsed time into a year fraction.
#[derive(Clone, Copy, Debug, PartialEq, Eq)]
pub enum DayCount {
    /// Actual/360, common for USD money-market instruments.
    Act360,
    /// Actual/365.
    Act365,
}

impl DayCount {
    /// Days in a year under this convention.
    pub open spec fn year_days(self) -> int {
        match self {
            DayCount::Act360 => 360,
            DayCount::Act365 => 365,
        }
    }

    /// Days in a year under this convention.
    pub fn days_per_year(&self) -> (r: u128)
        ensures
            r == self.year_days(),
    {
        match self {
            DayCount::Act360 => 360,
            DayCount::Act365 => 365,
        }
    }

    /// `days` as a fixed-point year fraction.
    pub fn year_fraction(&self, days: u64) -> (r: u128)
        ensures
            r == days * (ONE as int) / self.year_days(),
    {
        let per_year = self.days_per_year();
        (days as u128) * ONE / per_year
    }

    /// `seconds` as a fixed-point year fraction.
    pub fn year_fraction_from_seconds(&self, seconds: u64) -> (r: u128)
        ensures
            r == seconds * (ONE as int) / (SECONDS_PER_DAY * self.year_days()),
    {
        let per_year = self.days_per_year();
        (seconds as u128) * ONE / (SECONDS_PER_DAY * per_year)
    }
}

/// One point of the curve: a time to maturity and the simple rate there.
#[derive(Clone, Copy, Debug, PartialEq, Eq)]
pub struct CurveKnot {
    /// Time to maturity in years, fixed point.
    pub t: u128,
    /// Simple annual rate, fixed point (`52 * 10^15` is 5.2%).
    pub rate: u128,
}

/// Why a set of knots cannot form a curve.
#[derive(Clone, Copy, Debug, PartialEq, Eq)]
pub enum CurveError {
    /// A knot comes before the one ahead of it in time.
    Unsorted,
    /// A knot's time or rate is beyond `MAX_KNOT_TIME` or `MAX_KNOT_RATE`.
    OutOfRange,
}

/// Every knot is within the accepted time and rate ranges.
pub open spec fn knots_in_range(k: Seq<CurveKnot>) -> bool {
    forall|i: int| 0 <= i < k.len() ==> k[i].t <= MAX_KNOT_TIME && k[i].rate <= MAX_KNOT_RATE
}

/// Knot times never decrease.
pub open spec fn knots_sorted(k: Seq<CurveKnot>) -> bool {
    forall|i: int, j: int| 0 <= i <= j < k.len() ==> k[i].t <= k[j].t
}

/// Knots that form a curve.
pub open spec fn knots_wf(k: Seq<CurveKnot>) -> bool {
    knots_in_range(k) && knots_sorted(k)
}

/// Linear interpolation of the rate at `t` between two knots.
pub open spec fn lerp(k0: CurveKnot, k1: CurveKnot, t: int) -> int {
    let span = k1.t - k0.t;
    let elapsed = t - k0.t;
    if k1.rate >= k0.rate {
        k0.rate + (k1.rate - k0.rate) * elapsed / span
    } else {
        k0.rate - (k0.rate - k1.rate) * elapsed / span
    }
}

/// `t` lies on the segment from knot `i - 1` to knot `i`: after the
/// first knot's time, up to and including the second's.
pub open spec fn on_segment(k: Seq<CurveKnot>, t: int, i: int) -> bool {
    1 <= i < k.len() && k[i - 1].t < t <= k[i].t
}

/// The segment `t` lies on (unique on sorted knots, see
/// `lemma_segment_unique`).
pub open spec fn segment_of(k: Seq<CurveKnot>, t: int) -> int {
    choose|i: int| on_segment(k, t, i)
}

/// Rate of the curve at `t`: 0 without knots, flat before the first and
/// after the last knot, linear between the bracketing knots.
pub open spec fn curve_rate(k: Seq<CurveKnot>, t: int) -> int {
    if k.len() == 0 {
        0
    } else if t <= k[0].t {
        k[0].rate as int
    } else if t >= k.last().t {
        k.last().rate as int
    } else {
        lerp(k[segment_of(k, t) - 1], k[segment_of(k, t)], t)
    }
}

/// Simple-compounding discount factor `1 / (1 + r(t) * t)`, fixed point,
/// rounded down; 1 at time 0.
pub open spec fn discount(k: Seq<CurveKnot>, t: int) -> int {
    if t <= 0 {
        ONE as int
    } else {
        (ONE * ONE) as int / (ONE + curve_rate(k, t) * t / (ONE as int))
    }
}

/// Forward rate `(DF(t1) / DF(t2) - 1) / (t2 - t1)`, fixed point,
/// rounded toward zero: 0 when `t2 <= t1`; `None` when `DF(t2)` is 0 or
/// the result is out of range (`|DF(t1) / DF(t2) - 1| * ONE` must fit in
/// a `u128` and the result in an `i128`).
pub open spec fn forward(k: Seq<CurveKnot>, t1: int, t2: int) -> Option<int> {
    if t2 <= t1 {
        Some(0)
    } else if discount(k, t2) == 0 {
        None
    } else {
        let growth = discount(k, t1) * ONE / discount(k, t2);
        let excess = abs_diff(growth, ONE as int);
        let magnitude = excess * ONE / (t2 - t1);
        if excess * ONE > u128::MAX || magnitude > i128::MAX {
            None
        } else if growth >= ONE {
            Some(magnitude)
        } else {
            Some(-magnitude)
        }
    }
}

/// Year fraction, fixed point, from `now` until `maturity` (Unix seconds)
/// under day count `dc`; 0 once maturity has passed.
pub open spec fn years_to_maturity(dc: DayCount, now: int, maturity: int) -> int {
    (if maturity > now {
        maturity - now
    } else {
        0
    }) * (ONE as int) / (SECONDS_PER_DAY * dc.year_days())
}

/// A discount curve: sorted knots of simple rates and a day-count
/// convention.
#[derive(Clone, Debug)]
pub struct SofrCurve {
    /// Curve knots, sorted by time.
    pub knots: Vec<CurveKnot>,
    /// Day-count convention for turning seconds into years.
    pub day_count: DayCount,
}

impl SofrCurve {
    /// The curve is well formed.
    pub open spec fn wf(&self) -> bool {
        knots_wf(self.knots@)
    }

    /// Builds a curve from knots sorted by time, each within
    /// `MAX_KNOT_TIME` and `MAX_KNOT_RATE`.
    pub fn new(knots: Vec<CurveKnot>, day_count: DayCount) -> (r: Result<SofrCurve, CurveError>)
        ensures
            match r {
                Ok(c) => c.knots@ == knots@ && c.day_count == day_count && c.wf(),
                Err(CurveError::OutOfRange) => !knots_in_range(knots@),
                Err(CurveError::Unsorted) => knots_in_range(knots@) && !knots_sorted(knots@),
            },
    {
        let n = knots.len();
        let mut i: usize = 0;
        while i < n
            invariant
                n == knots.len(),
                i <= n,
                forall|j: int| 0 <= j < i ==> knots@[j].t <= MAX_KNOT_TIME && knots@[j].rate <= MAX_KNOT_RATE,
            decreases n - i,
        {
            if knots[i].t > MAX_KNOT_TIME || knots[i].rate > MAX_KNOT_RATE {
                return Err(CurveError::OutOfRange);
            }
            i = i + 1;
        }
        assert(knots_in_range(knots@));
        let mut i: usize = 1;
        while i < n
            invariant
                n == knots.len(),
                knots_in_range(knots@),
                1 <= i,
                i <= n || n == 0,
                forall|a: int, b: int| 0 <= a <= b < i && b < n ==> knots@[a].t <= knots@[b].t,
            decreases n - i,
        {
            if knots[i - 1].t > knots[i].t {
                assert(!knots_sorted(knots@)) by {
                    assert(knots@[i - 1].t > knots@[i as int].t);
                }
                return Err(CurveError::Unsorted);
            }
            assert forall|a: int, b: int| 0 <= a <= b < i + 1 && b < n implies knots@[a].t <= knots@[b].t by {
                if b == i && a < i {
                    assert(knots@[a].t <= knots@[i - 1].t);
                }
            }
            i = i + 1;
        }
        Ok(SofrCurve { knots, day_count })
    }

    /// A sample USD curve under Act/360, from one day to two years.
    pub fn default_usd() -> (r: SofrCurve)
        ensures
            r.wf(),
            r.day_count == DayCount::Act360,
            r.knots@ == seq![
                CurveKnot { t: 2_800_000_000_000_000, rate: 52_000_000_000_000_000 },
                CurveKnot { t: 83_300_000_000_000_000, rate: 51_500_000_000_000_000 },
                CurveKnot { t: 250_000_000_000_000_000, rate: 50_000_000_000_000_000 },
                CurveKnot { t: 500_000_000_000_000_000, rate: 47_500_000_000_000_000 },
                CurveKnot { t: 1_000_000_000_000_000_000, rate: 45_000_000_000_000_000 },
                CurveKnot { t: 2_000_000_000_000_000_000, rate: 42_500_000_000_000_000 },
            ],
    {
        let knots = vec![
            CurveKnot { t: 2_800_000_000_000_000, rate: 52_000_000_000_000_000 },
            CurveKnot { t: 83_300_000_000_000_000, rate: 51_500_000_000_000_000 },
            CurveKnot { t: 250_000_000_000_000_000, rate: 50_000_000_000_000_000 },
            CurveKnot { t: 500_000_000_000_000_000, rate: 47_500_000_000_000_000 },
            CurveKnot { t: 1_000_000_000_000_000_000, rate: 45_000_000_000_000_000 },
            CurveKnot { t: 2_000_000_000_000_000_000, rate: 42_500_000_000_000_000 },
        ];
        let r = SofrCurve { knots, day_count: DayCount::Act360 };
        assert(knots_sorted(r.knots@));
        r
    }

    /// Piecewise-linear rate at `t` (see `curve_rate`).
    fn interpolate_rate(&self, t: u128) -> (r: u128)
        requires
            self.wf(),
        ensures
            r == curve_rate(self.knots@, t as int),
            r <= MAX_KNOT_RATE,
    {
        let n = self.knots.len();
        if n == 0 {
            return 0;
        }
        if t <= self.knots[0].t {
            return self.knots[0].rate;
        }
        if t >= self.knots[n - 1].t {
            return self.knots[n - 1].rate;
        }
        let mut i: usize = 1;
        while i < n
            invariant
                n == self.knots.len(),
                self.wf(),
                1 <= i <= n,
                t > self.knots@[i - 1].t,
                t < self.knots@[n - 1].t,
            decreases n - i,
        {
            let k1 = self.knots[i];
            if t <= k1.t {
                let k0 = self.knots[i - 1];
                proof {
                    lemma_segment_of(self.knots@, t as int, i as int);
                }
                return interpolate_between(k0, k1, t);
            }
            i = i + 1;
        }
        self.knots[n - 1].rate
    }

    /// Rate of the curve at time `t` (see `curve_rate`).
    pub fn rate(&self, t: u128) -> (r: u128)
        requires
            self.wf(),
        ensures
            r == curve_rate(self.knots@, t as int),
            r <= MAX_KNOT_RATE,
    {
        self.interpolate_rate(t)
    }

    /// Discount factor at time `t` (see `discount`).
    pub fn discount_factor(&self, t: u128) -> (r: u128)
        requires
            self.wf(),
        ensures
            r == discount(self.knots@, t as int),
            r <= ONE,
    {
        if t == 0 {
            return ONE;
        }
        let rate = self.interpolate_rate(t);
        let whole = t / ONE;
        let frac = t % ONE;
        proof {
            lemma_mul_div_split(rate as int, t as int, ONE as int);
            lemma_mul_div_split(t as int, rate as int, ONE as int);
            assert(rate * t == t * rate) by (nonlinear_arith);
            lemma_fundamental_div_mod(t as int, ONE as int);
            assert(rate * whole <= ONE * whole) by (nonlinear_arith)
                requires
                    rate <= ONE,
                    whole >= 0,
            ;
            assert(ONE * whole <= t) by (nonlinear_arith)
                requires
                    t == ONE * whole + frac,
                    frac >= 0,
            ;
            assert(rate * frac < ONE * ONE) by (nonlinear_arith)
                requires
                    rate <= ONE,
                    frac < ONE,
                    frac >= 0,
            ;
            assert((t as int) * (rate as int) / (ONE as int) == (t as int / ONE as int) * rate + ((t as int % ONE as int) * rate) / (ONE as int));
            assert(frac * rate == rate * frac) by (nonlinear_arith);
            assert(whole * rate == rate * whole) by (nonlinear_arith);
            assert(frac * rate <= ONE * frac) by (nonlinear_arith)
                requires
                    rate <= ONE,
                    frac >= 0,
            ;
            lemma_div_monotone((frac * rate) as int, (ONE * frac) as int, ONE as int);
            lemma_div_multiples_vanish(frac as int, ONE as int);
        }
        let accrual = whole * rate + frac * rate / ONE;
        if accrual >= ONE * ONE {
            proof {
                lemma_div_antitone((ONE * ONE) as int, (ONE * ONE) as int + 1, (ONE + accrual) as int);
                lemma_fundamental_div_mod_converse((ONE * ONE) as int, (ONE * ONE) as int + 1, 0, (ONE * ONE) as int);
            }
            return 0;
        }
        proof {
            lemma_div_antitone((ONE * ONE) as int, ONE as int, (ONE + accrual) as int);
            lemma_div_multiples_vanish(ONE as int, ONE as int);
        }
        ONE * ONE / (ONE + accrual)
    }

    /// Forward rate between `t1` and `t2` (see `forward`); 0 when
    /// `t2 <= t1`.
    pub fn forward_rate(&self, t1: u128, t2: u128) -> (r: Option<i128>)
        requires
            self.wf(),
        ensures
            r == match forward(self.knots@, t1 as int, t2 as int) {
                Some(f) => Some(f as i128),
                None => None::<i128>,
            },
            t2 <= t1 ==> r == Some(0i128),
    {
        if t2 <= t1 {
            return Some(0);
        }
        let df1 = self.discount_factor(t1);
        let df2 = self.discount_factor(t2);
        if df2 == 0 {
            return None;
        }
        proof {
            assert(df1 * ONE <= ONE * ONE) by (nonlinear_arith)
                requires
                    df1 <= ONE,
            ;
        }
        let growth = df1 * ONE / df2;
        proof {
            lemma_div_monotone((df1 * ONE) as int, (ONE * ONE) as int, df2 as int);
            lemma_div_antitone((ONE * ONE) as int, 1, df2 as int);
        }
        let excess = if growth >= ONE {
            growth - ONE
        } else {
            ONE - growth
        };
        let scaled = match excess.checked_mul(ONE) {
            Some(s) => s,
            None => {
                return None;
            },
        };
        let magnitude = scaled / (t2 - t1);
        if magnitude > i128::MAX as u128 {
            return None;
        }
        if growth >= ONE {
            Some(magnitude as i128)
        } else {
            Some(-(magnitude as i128))
        }
    }

    /// Year fraction from `current_ts` until `maturity_ts` (both Unix
    /// seconds) under the curve's day count; 0 once maturity has passed.
    pub fn time_to_maturity(&self, current_ts: u64, maturity_ts: u32) -> (r: u128)
        ensures
            r == years_to_maturity(self.day_count, current_ts as int, maturity_ts as int),
    {
        let seconds: u64 = if (maturity_ts as u64) > current_ts {
            maturity_ts as u64 - current_ts
        } else {
            0
        };
        self.day_count.year_fraction_from_seconds(seconds)
    }
}

/// The rate at `t` on the segment from `k0` to `k1`, where
/// `k0.t < t <= k1.t`.
fn interpolate_between(k0: CurveKnot, k1: CurveKnot, t: u128) -> (r: u128)
    requires
        k0.t < t <= k1.t,
        k1.t <= MAX_KNOT_TIME,
        k0.rate <= MAX_KNOT_RATE,
        k1.rate <= MAX_KNOT_RATE,
    ensures
        r == lerp(k0, k1, t as int),
        r <= MAX_KNOT_RATE,
{
    let span = k1.t - k0.t;
    let elapsed = t - k0.t;
    if k1.rate >= k0.rate {
        let rise = k1.rate - k0.rate;
        proof {
            lemma_bounded_step(rise as int, elapsed as int, span as int);
        }
        k0.rate + rise * elapsed / span
    } else {
        let fall = k0.rate - k1.rate;
        proof {
            lemma_bounded_step(fall as int, elapsed as int, span as int);
        }
        k0.rate - fall * elapsed / span
    }
}

/// `delta * elapsed` fits in a `u128` and `delta * elapsed / span <= delta`
/// when `elapsed <= span` on a curve's ranges.
proof fn lemma_bounded_step(delta: int, elapsed: int, span: int)
    requires
        0 <= delta <= MAX_KNOT_RATE,
        0 < elapsed <= span <= MAX_KNOT_TIME,
    ensures
        delta * elapsed <= u128::MAX,
        0 <= delta * elapsed / span <= delta,
{
    assert(delta * elapsed <= MAX_KNOT_RATE * MAX_KNOT_TIME) by (nonlinear_arith)
        requires
            0 <= delta <= MAX_KNOT_RATE,
            0 < elapsed <= MAX_KNOT_TIME,
    ;
    assert(0 <= delta * elapsed <= delta * span) by (nonlinear_arith)
        requires
            0 <= delta,
            0 < elapsed <= span,
    ;
    lemma_div_monotone(delta * elapsed, delta * span, span);
    lemma_div_pos_is_pos(delta * elapsed, span);
    assert(delta * span == span * delta) by (nonlinear_arith);
    lemma_div_multiples_vanish(delta, span);
}

/// Knot times strictly increase.
pub open spec fn knots_strictly_increasing(k: Seq<CurveKnot>) -> bool {
    forall|i: int, j: int| 0 <= i < j < k.len() ==> k[i].t < k[j].t
}

/// An interpolated rate lies within the accepted rate range.
proof fn lemma_lerp_bounds(k0: CurveKnot, k1: CurveKnot, t: int)
    requires
        k0.t < t <= k1.t,
        k1.t <= MAX_KNOT_TIME,
        k0.rate <= MAX_KNOT_RATE,
        k1.rate <= MAX_KNOT_RATE,
    ensures
        0 <= lerp(k0, k1, t) <= MAX_KNOT_RATE,
{
    if k1.rate >= k0.rate {
        lemma_bounded_step(k1.rate - k0.rate, t - k0.t, k1.t - k0.t);
    } else {
        lemma_bounded_step(k0.rate - k1.rate, t - k0.t, k1.t - k0.t);
    }
}

/// The rate of a well-formed curve is never negative and never above
/// `MAX_KNOT_RATE`.
pub proof fn lemma_rate_in_range(k: Seq<CurveKnot>, t: int)
    requires
        knots_wf(k),
    ensures
        0 <= curve_rate(k, t) <= MAX_KNOT_RATE,
{
    if k.len() > 0 && t > k[0].t && t < k.last().t {
        let i = lemma_segment_found(k, t, 1);
        lemma_lerp_bounds(k[i - 1], k[i], t);
    }
}

/// The discount factor at time 0 is exactly one.
pub proof fn lemma_discount_at_zero(k: Seq<CurveKnot>)
    ensures
        discount(k, 0) == ONE,
{
}

/// Discount factors do not rise with time: for `t1 <= t2`, `DF(t2) <= DF(t1)`
/// wherever the accrued rate `r(t) * t` does not fall from `t1` to `t2`
/// (it always holds from `t1 = 0`, and on flat or rising curves).
pub proof fn lemma_discount_non_increasing(k: Seq<CurveKnot>, t1: int, t2: int)
    requires
        knots_wf(k),
        0 <= t1 <= t2,
        curve_rate(k, t1) * t1 <= curve_rate(k, t2) * t2,
    ensures
        discount(k, t2) <= discount(k, t1),
{
    lemma_rate_in_range(k, t1);
    lemma_rate_in_range(k, t2);
    let a1 = curve_rate(k, t1) * t1;
    let a2 = curve_rate(k, t2) * t2;
    assert(a1 >= 0) by (nonlinear_arith)
        requires
            a1 == curve_rate(k, t1) * t1,
            curve_rate(k, t1) >= 0,
            t1 >= 0,
    ;
    lemma_div_monotone(a1, a2, ONE as int);
    lemma_div_monotone(0, a1, ONE as int);
    if t2 > 0 {
        if t1 > 0 {
            lemma_div_antitone(
                (ONE * ONE) as int,
                ONE + a1 / (ONE as int),
                ONE + a2 / (ONE as int),
            );
        } else {
            lemma_div_antitone((ONE * ONE) as int, ONE as int, ONE + a2 / (ONE as int));
            lemma_div_multiples_vanish(ONE as int, ONE as int);
        }
    }
}

/// Up to the first knot the rate is the first knot's rate.
pub proof fn lemma_rate_before_first(k: Seq<CurveKnot>, t: int)
    requires
        k.len() > 0,
        t <= k[0].t,
    ensures
        curve_rate(k, t) == k[0].rate,
{
}

/// From the last knot on the rate is the last knot's rate (past the first
/// knot's time, which wins where the two coincide).
pub proof fn lemma_rate_after_last(k: Seq<CurveKnot>, t: int)
    requires
        k.len() > 0,
        t >= k.last().t,
        t > k[0].t,
    ensures
        curve_rate(k, t) == k.last().rate,
{
}

/// At a knot the rate is that knot's rate exactly, on a curve whose knot
/// times strictly increase.
pub proof fn lemma_rate_at_knot(k: Seq<CurveKnot>, i: int)
    requires
        knots_wf(k),
        knots_strictly_increasing(k),
        0 <= i < k.len(),
    ensures
        curve_rate(k, k[i].t as int) == k[i].rate,
{
    let t = k[i].t as int;
    let n = k.len() as int;
    if i > 0 && i < n - 1 {
        assert(k[0].t < t);
        assert(t < k[n - 1].t);
        assert(k[i - 1].t < k[i].t);
        lemma_segment_of(k, t, i);
        let k0 = k[i - 1];
        let k1 = k[i];
        let span = k1.t - k0.t;
        assert(k0.t < k1.t);
        if k1.rate >= k0.rate {
            let d = k1.rate - k0.rate;
            assert(d * span == span * d) by (nonlinear_arith);
            lemma_div_multiples_vanish(d, span);
        } else {
            let d = k0.rate - k1.rate;
            assert(d * span == span * d) by (nonlinear_arith);
            lemma_div_multiples_vanish(d, span);
        }
    } else if i == n - 1 && i > 0 {
        assert(k[0].t < k[i].t);
    }
}

/// Knot rates never fall from one knot to a later one.
pub open spec fn rates_non_decreasing(k: Seq<CurveKnot>) -> bool {
    forall|i: int, j: int| 0 <= i <= j < k.len() ==> k[i].rate <= k[j].rate
}

/// Sorted knots put a time on at most one segment.
pub proof fn lemma_segment_unique(k: Seq<CurveKnot>, t: int, i: int, j: int)
    requires
        knots_sorted(k),
        on_segment(k, t, i),
        on_segment(k, t, j),
    ensures
        i == j,
{
    if i < j {
        assert(k[i].t <= k[j - 1].t);
    } else if j < i {
        assert(k[j].t <= k[i - 1].t);
    }
}

/// On sorted knots, the segment a time lies on is `segment_of` it.
proof fn lemma_segment_of(k: Seq<CurveKnot>, t: int, i: int)
    requires
        knots_sorted(k),
        on_segment(k, t, i),
    ensures
        segment_of(k, t) == i,
{
    let c = segment_of(k, t);
    assert(on_segment(k, t, c));
    lemma_segment_unique(k, t, i, c);
}

/// A time after knot `j - 1` and before the last knot lies on a segment
/// from `j` on.
proof fn lemma_segment_found(k: Seq<CurveKnot>, t: int, j: int) -> (i: int)
    requires
        knots_sorted(k),
        1 <= j < k.len(),
        t > k[j - 1].t,
        t < k.last().t,
    ensures
        j <= i < k.len(),
        on_segment(k, t, i),
        segment_of(k, t) == i,
    decreases k.len() - j,
{
    if t <= k[j].t {
        lemma_segment_of(k, t, j);
        j
    } else {
        lemma_segment_found(k, t, j + 1)
    }
}

/// On a rising segment the interpolated rate rises with `t` and stays
/// between the two knot rates.
proof fn lemma_lerp_rising(k0: CurveKnot, k1: CurveKnot, t1: int, t2: int)
    requires
        k0.t < t1 <= t2 <= k1.t,
        k0.rate <= k1.rate,
    ensures
        k0.rate <= lerp(k0, k1, t1) <= lerp(k0, k1, t2) <= k1.rate,
{
    let d = k1.rate - k0.rate;
    let span = k1.t - k0.t;
    assert(0 <= d * (t1 - k0.t) <= d * (t2 - k0.t) <= d * span) by (nonlinear_arith)
        requires
            d >= 0,
            0 < t1 - k0.t <= t2 - k0.t <= span,
    ;
    lemma_div_monotone(d * (t1 - k0.t), d * (t2 - k0.t), span);
    lemma_div_monotone(d * (t2 - k0.t), d * span, span);
    lemma_div_monotone(0, d * (t1 - k0.t), span);
    assert(d * span == span * d) by (nonlinear_arith);
    lemma_div_multiples_vanish(d, span);
}

/// On a curve whose knot rates never fall, the rate never falls with time.
pub proof fn lemma_rate_non_decreasing(k: Seq<CurveKnot>, t1: int, t2: int)
    requires
        knots_wf(k),
        rates_non_decreasing(k),
        t1 <= t2,
    ensures
        curve_rate(k, t1) <= curve_rate(k, t2),
{
    let n = k.len() as int;
    if n == 0 {
        return;
    }
    let inside1 = t1 > k[0].t && t1 < k[n - 1].t;
    let inside2 = t2 > k[0].t && t2 < k[n - 1].t;
    if inside1 {
        let i1 = lemma_segment_found(k, t1, 1);
        lemma_lerp_rising(k[i1 - 1], k[i1], t1, t1);
        if inside2 {
            let i2 = lemma_segment_found(k, t2, 1);
            lemma_lerp_rising(k[i2 - 1], k[i2], t2, t2);
            if i1 == i2 {
                lemma_lerp_rising(k[i1 - 1], k[i1], t1, t2);
            } else {
                assert(i1 < i2) by {
                    if i2 < i1 {
                        assert(k[i2].t <= k[i1 - 1].t);
                    }
                }
                assert(k[i1].rate <= k[i2 - 1].rate);
            }
        } else {
            assert(k[i1].rate <= k[n - 1].rate);
        }
    } else if inside2 {
        let i2 = lemma_segment_found(k, t2, 1);
        lemma_lerp_rising(k[i2 - 1], k[i2], t2, t2);
        assert(k[0].rate <= k[i2 - 1].rate);
    } else {
        assert(k[0].rate <= k[n - 1].rate);
    }
}

/// On a curve whose knot rates never fall (flat or rising), the discount
/// factor never rises with time.
pub proof fn lemma_discount_non_increasing_on_rising_curve(k: Seq<CurveKnot>, t1: int, t2: int)
    requires
        knots_wf(k),
        rates_non_decreasing(k),
        0 <= t1 <= t2,
    ensures
        discount(k, t2) <= discount(k, t1),
{
    lemma_rate_non_decreasing(k, t1, t2);
    lemma_rate_in_range(k, t1);
    assert(curve_rate(k, t1) * t1 <= curve_rate(k, t2) * t2) by (nonlinear_arith)
        requires
            0 <= curve_rate(k, t1) <= curve_rate(k, t2),
            0 <= t1 <= t2,
    ;
    lemma_discount_non_increasing(k, t1, t2);
}

} // verus!
