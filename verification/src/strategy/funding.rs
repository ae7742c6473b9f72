//! What it costs or earns to hold a position that is short on the maker exchange
//! and long on the hedge exchange.
use crate::clock::{Clock, Moment, NANOS_PER_SECOND};
use crate::double;
use crate::double::arithmetic;
use crate::double::laws;
use crate::double::Double;
use std::collections::VecDeque;
use vstd::arithmetic::power2::*;
use vstd::prelude::*;

verus! {

/// The funding rates of both exchanges at one time.
#[derive(Debug, Clone, Copy, PartialEq, Eq, Structural)]
pub struct FundingSnapshot {
    /// Binance funding rate per 8 hours; where it is negative, shorts pay longs.
    pub maker_rate: Double,
    /// Seconds until the next Binance settlement.
    pub maker_secs_to_settle: u64,
    /// Hyperliquid funding rate per hour; where it is negative, shorts pay longs.
    pub hedge_rate_hourly: Double,
    /// When this snapshot was taken.
    pub captured_at: Moment,
}

impl FundingSnapshot {
    /// What the position earns in 8 hours, in basis points: the maker rate, which
    /// shorts receive, less eight times the hourly hedge rate, which longs pay.
    pub open spec fn net_carry_bps(self) -> Double {
        self.maker_rate.product(Double::whole_number(10000)).sum(
            self.hedge_rate_hourly.opposite().product(Double::whole_number(10000)).product(
                Double::whole_number(8),
            ),
        )
    }

    /// What each leg earns is a finite number.
    pub open spec fn legs_are_finite(self) -> bool {
        let k = Double::whole_number(10000);
        &&& self.maker_rate.product(k).finite()
        &&& self.hedge_rate_hourly.product(k).finite()
        &&& self.hedge_rate_hourly.opposite().product(k).finite()
        &&& self.hedge_rate_hourly.opposite().product(k).product(Double::whole_number(8)).finite()
    }
}

/// The carry goes up with the maker's rate and down with the hedge exchange's, and is ten
/// thousand times what the one is above eight times the other, up to rounding.
pub proof fn law_carry(a: FundingSnapshot, b: FundingSnapshot)
    requires
        a.maker_rate.finite(),
        a.hedge_rate_hourly.finite(),
        b.maker_rate.finite(),
        b.hedge_rate_hourly.finite(),
        a.legs_are_finite(),
        b.legs_are_finite(),
    ensures
        a.maker_rate.at_most(b.maker_rate) && a.hedge_rate_hourly == b.hedge_rate_hourly
            ==> a.net_carry_bps().at_most(b.net_carry_bps()),
        a.maker_rate == b.maker_rate && a.hedge_rate_hourly.at_most(b.hedge_rate_hourly)
            ==> b.net_carry_bps().at_most(a.net_carry_bps()),
        a.net_carry_bps().finite() ==> laws::distance(
            a.net_carry_bps().amount(),
            10000 * a.maker_rate.amount() - 80000 * a.hedge_rate_hourly.amount(),
        ) * pow2(53) <= 30000 * laws::distance(a.maker_rate.amount(), 0) + 600000
            * laws::distance(a.hedge_rate_hourly.amount(), 0),
{
    lemma_legs(a);
    lemma_legs(b);
    let k = Double::whole_number(10000);
    let e = Double::whole_number(8);
    arithmetic::lemma_whole_exact(10000);
    arithmetic::lemma_whole_exact(8);
    double::lemma_units_order(k.magnitude(), 0);
    double::lemma_units_order(e.magnitude(), 0);
    let (x, y) = (a.maker_rate.product(k), b.maker_rate.product(k));
    let (u, v) = (
        a.hedge_rate_hourly.opposite().product(k).product(e),
        b.hedge_rate_hourly.opposite().product(k).product(e),
    );
    if a.maker_rate.at_most(b.maker_rate) && a.hedge_rate_hourly == b.hedge_rate_hourly {
        laws::law_product_keeps_the_order(a.maker_rate, b.maker_rate, k);
        laws::law_sum_keeps_the_order(x, y, u);
    }
    if a.maker_rate == b.maker_rate && a.hedge_rate_hourly.at_most(b.hedge_rate_hourly) {
        let (p, q) = (a.hedge_rate_hourly.opposite(), b.hedge_rate_hourly.opposite());
        laws::law_product_keeps_the_order(q, p, k);
        laws::law_product_keeps_the_order(q.product(k), p.product(k), e);
        laws::law_sum_keeps_the_order(v, u, x);
        laws::lemma_sum_rounds_once(v, x);
        laws::lemma_sum_rounds_once(u, x);
        laws::lemma_sum_rounds_once(x, v);
        laws::lemma_sum_rounds_once(x, u);
        laws::law_sum_is_near(x, u);
        laws::law_sum_is_near(x, v);
    }
    if a.net_carry_bps().finite() {
        laws::law_sum_is_near(x, u);
        let p = pow2(53) as int;
        lemma_pow2_pos(53);
        let (m, h) = (a.maker_rate.amount(), a.hedge_rate_hourly.amount());
        let (c, t) = (a.net_carry_bps().amount(), x.amount() + u.amount());
        let g = laws::distance(x.amount(), 10000 * m);
        let l = laws::distance(u.amount(), -80000 * h);
        let s = laws::distance(c, t);
        let all = laws::distance(c, 10000 * m - 80000 * h);
        assert(g <= g * p && l <= l * p) by (nonlinear_arith)
            requires
                g >= 0,
                l >= 0,
                p >= 1,
        ;
        assert(all * p <= g * p + l * p + s * p) by (nonlinear_arith)
            requires
                all <= g + l + s,
                p > 0,
        ;
    }
}

/// What the two legs come to, each on its own.
proof fn lemma_legs(s: FundingSnapshot)
    requires
        s.maker_rate.finite(),
        s.hedge_rate_hourly.finite(),
        s.legs_are_finite(),
    ensures
        ({
            let k = Double::whole_number(10000);
            let x = s.maker_rate.product(k);
            let u = s.hedge_rate_hourly.opposite().product(k).product(Double::whole_number(8));
            let (m, h) = (s.maker_rate.amount(), s.hedge_rate_hourly.amount());
            &&& laws::distance(x.amount(), 10000 * m) * pow2(53) <= 10000 * laws::distance(m, 0)
            &&& laws::distance(u.amount(), -80000 * h) * pow2(53) <= 240000 * laws::distance(
                h,
                0,
            )
        }),
{
    let k = Double::whole_number(10000);
    let o = s.hedge_rate_hourly.opposite();
    let h = s.hedge_rate_hourly.amount();
    assert(o.finite() && o.amount() == -h);
    laws::law_whole_multiple_is_near(s.maker_rate, 10000);
    laws::law_whole_multiple_is_near(o, 10000);
    let w = o.product(k);
    laws::law_whole_multiple_is_near(w, 8);
    let u = w.product(Double::whole_number(8));
    let p = pow2(53) as int;
    lemma_pow2_pos(53);
    let e = laws::distance(w.amount(), -10000 * h);
    let f = laws::distance(u.amount(), 8 * w.amount());
    assert(e <= e * p) by (nonlinear_arith)
        requires
            e >= 0,
            p >= 1,
    ;
    let all = laws::distance(u.amount(), -80000 * h);
    assert(all * p <= f * p + 8 * (e * p)) by (nonlinear_arith)
        requires
            all <= f + 8 * e,
            p > 0,
    ;
}

/// What a tracker knows.
pub struct Carry {
    /// The net carry of the recent snapshots, in basis points per 8 hours.
    pub history: Seq<Double>,
    pub max_history: nat,
    pub latest: Option<FundingSnapshot>,
    pub prev_hedge_rate: Option<Double>,
}

impl Carry {
    /// With one more snapshot; only the last `max_history` values are kept.
    pub open spec fn updated(self, snapshot: FundingSnapshot) -> Carry {
        let all = self.history.push(snapshot.net_carry_bps());
        Carry {
            history: if all.len() > self.max_history {
                all.drop_first()
            } else {
                all
            },
            max_history: self.max_history,
            latest: Some(snapshot),
            prev_hedge_rate: match self.latest {
                Some(s) => Some(s.hedge_rate_hourly),
                None => None,
            },
        }
    }

    /// The last `n` values are all below `threshold`.
    pub open spec fn ends_below(self, threshold: Double, n: int) -> bool {
        forall|i: int|
            self.history.len() - n <= i < self.history.len() ==> (
            #[trigger] self.history[i]).below(threshold)
    }
}

impl Carry {
    /// The values at the end that are adverse: none are asked for, or the last one is
    /// smaller than the threshold and the ones before it are adverse too.
    pub proof fn law_adverse_values(self, threshold: Double, n: int)
        requires
            !threshold.nan(),
            0 <= n < self.history.len(),
            !self.history.last().nan(),
        ensures
            self.ends_below(threshold, 0),
            self.ends_below(threshold, n + 1) <==> self.history.last().amount()
                < threshold.amount() && (Carry {
                history: self.history.drop_last(),
                ..self
            }).ends_below(threshold, n),
    {
        let before = Carry { history: self.history.drop_last(), ..self };
        let last = self.history.len() - 1;
        if self.ends_below(threshold, n + 1) {
            assert(self.history[last].below(threshold));
            assert forall|i: int| before.history.len() - n <= i < before.history.len() implies (
            #[trigger] before.history[i]).below(threshold) by {
                assert(self.history[i] == before.history[i]);
            }
        }
        if before.ends_below(threshold, n) && self.history.last().below(threshold) {
            assert forall|i: int| self.history.len() - (n + 1) <= i < self.history.len() implies (
            #[trigger] self.history[i]).below(threshold) by {
                if i < last {
                    assert(self.history[i] == before.history[i]);
                }
            }
        }
    }

    /// A snapshot becomes the latest one, its carry the last of the values, and the rate of
    /// the one before it is remembered. No more values are kept than asked for, and only the
    /// oldest one goes.
    pub proof fn law_snapshots_are_taken_in(self, snapshot: FundingSnapshot)
        requires
            self.history.len() <= self.max_history,
            self.max_history > 0,
        ensures
            ({
                let after = self.updated(snapshot);
                &&& after.latest == Some(snapshot)
                &&& after.history.len() > 0 && after.history.last() == snapshot.net_carry_bps()
                &&& after.history.len() <= self.max_history
                &&& after.max_history == self.max_history
                &&& self.latest matches Some(s) ==> after.prev_hedge_rate == Some(
                    s.hedge_rate_hourly,
                )
                &&& self.latest is None ==> after.prev_hedge_rate is None
                &&& self.history.len() < self.max_history ==> after.history.drop_last()
                    == self.history
                &&& self.history.len() == self.max_history ==> after.history.drop_last()
                    == self.history.drop_first()
            }),
    {
        let all = self.history.push(snapshot.net_carry_bps());
        assert(all.drop_last() =~= self.history);
        if self.history.len() > 0 {
            assert(all.drop_first().drop_last() =~= self.history.drop_first());
        }
    }
}

/// Tracks the carry of the position.
pub struct FundingCarryTracker {
    clock: Clock,
    history: VecDeque<Double>,
    max_history: usize,
    latest: Option<FundingSnapshot>,
    prev_hedge_rate: Option<Double>,
}

impl View for FundingCarryTracker {
    type V = Carry;

    closed spec fn view(&self) -> Carry {
        Carry {
            history: self.history@,
            max_history: self.max_history as nat,
            latest: self.latest,
            prev_hedge_rate: self.prev_hedge_rate,
        }
    }
}

impl FundingCarryTracker {
    /// The clock by which the tracker goes.
    pub closed spec fn clock(&self) -> Clock {
        self.clock
    }

    /// No more values than asked for are kept.
    pub open spec fn wf(&self) -> bool {
        self@.history.len() <= self@.max_history
    }

    /// A tracker without data that keeps `max_history` values.
    pub fn new(max_history: usize) -> (t: FundingCarryTracker)
        requires
            max_history < usize::MAX,
        ensures
            t.wf(),
            t@ == (Carry {
                history: Seq::empty(),
                max_history: max_history as nat,
                latest: None,
                prev_hedge_rate: None,
            }),
    {
        FundingCarryTracker {
            clock: Clock::start(),
            history: VecDeque::new(),
            max_history,
            latest: None,
            prev_hedge_rate: None,
        }
    }

    /// The present reading of the tracker's clock.
    pub fn now(&self) -> (m: Moment)
        ensures
            m.is_reading(),
    {
        self.clock.now()
    }

    /// Takes in a snapshot and returns its net carry, in basis points per 8 hours.
    pub fn update(&mut self, snapshot: FundingSnapshot) -> (net: Double)
        requires
            old(self).wf(),
        ensures
            final(self).wf(),
            final(self)@ == old(self)@.updated(snapshot),
            net == snapshot.net_carry_bps(),
            final(self).clock() == old(self).clock(),
    {
        let net = net_carry_bps_8h(&snapshot);
        self.prev_hedge_rate = match &self.latest {
            Some(s) => Some(s.hedge_rate_hourly),
            None => None,
        };
        self.latest = Some(snapshot);
        self.history.push_back(net);
        if self.history.len() > self.max_history {
            self.history.pop_front();
            assert(self@.history =~= old(self)@.history.push(net).drop_first());
        }
        net
    }

    /// The latest net carry, 0 without data.
    pub fn current_carry_bps(&self) -> (d: Double)
        ensures
            d == if self@.history.len() > 0 {
                self@.history.last()
            } else {
                Double::whole_number(0)
            },
    {
        let n: usize = self.history.len();
        if n > 0 {
            self.history[n - 1]
        } else {
            Double::whole(0)
        }
    }

    /// How many of the latest values in a row are below `threshold_bps`.
    pub fn consecutive_adverse(&self, threshold_bps: Double) -> (n: usize)
        ensures
            n <= self@.history.len(),
            self@.ends_below(threshold_bps, n as int),
            n < self@.history.len() ==> !self@.history[self@.history.len() - 1 - n].below(
                threshold_bps,
            ),
    {
        let len: usize = self.history.len();
        let mut n: usize = 0;
        while n < len && self.history[len - 1 - n].lt(&threshold_bps)
            invariant
                n <= len,
                len == self@.history.len(),
                self@.ends_below(threshold_bps, n as int),
            decreases len - n,
        {
            n = n + 1;
        }
        n
    }

    /// Whether the hedge rate has changed by more than `threshold` with the last snapshot.
    pub fn hedge_rate_jumped(&self, threshold: Double) -> (r: bool)
        ensures
            r == match (self@.prev_hedge_rate, self@.latest) {
                (Some(prev), Some(snap)) => threshold.below(
                    Double::signed(false, snap.hedge_rate_hourly.difference(prev).magnitude()),
                ),
                _ => false,
            },
            (self@.prev_hedge_rate is Some && self@.latest is Some
                && self@.prev_hedge_rate->0.finite()
                && self@.latest->0.hedge_rate_hourly.finite()) ==> ({
                let (before, after) = (
                    self@.prev_hedge_rate->0,
                    self@.latest->0.hedge_rate_hourly,
                );
                r <==> threshold.below(after.difference(before)) && before.at_most(after)
                    || threshold.below(before.difference(after)) && after.at_most(before)
            }),
    {
        proof {
            if let (Some(p), Some(s)) = (self@.prev_hedge_rate, self@.latest) {
                if p.finite() && s.hedge_rate_hourly.finite() {
                    laws::lemma_two_sided(s.hedge_rate_hourly, p);
                    laws::law_difference_is_near(s.hedge_rate_hourly, p);
                    double::lemma_units_order(s.hedge_rate_hourly.difference(p).magnitude(), 0);
                }
            }
        }
        match (&self.prev_hedge_rate, &self.latest) {
            (Some(prev), Some(snap)) => snap.hedge_rate_hourly.minus(prev).abs().gt(&threshold),
            _ => false,
        }
    }

    /// The seconds to the next Binance settlement at `now`.
    pub fn maker_secs_to_settle_at(&self, now: Moment) -> (r: Option<u64>)
        ensures
            r is Some <==> self@.latest is Some,
            self@.latest matches Some(s) ==> r == Some(secs_left(s, now)),
    {
        match &self.latest {
            Some(s) => {
                let elapsed = now.secs_since(&s.captured_at);
                if elapsed >= s.maker_secs_to_settle as u128 {
                    Some(0)
                } else {
                    Some(s.maker_secs_to_settle - elapsed as u64)
                }
            },
            None => None,
        }
    }

    /// The seconds to the next Binance settlement, if known.
    pub fn maker_secs_to_settle(&self) -> (r: Option<u64>)
        ensures
            r is Some <==> self@.latest is Some,
            self@.latest matches Some(s) ==> exists|now: Moment|
                now.is_reading() && r == Some(secs_left(s, now)),
    {
        let now = self.clock.now();
        self.maker_secs_to_settle_at(now)
    }

    pub fn has_data(&self) -> (r: bool)
        ensures
            r == self@.latest is Some,
    {
        self.latest.is_some()
    }
}

/// What is left at `now` of the seconds to the settlement.
pub open spec fn secs_left(s: FundingSnapshot, now: Moment) -> u64 {
    let elapsed = now.nanos_since(s.captured_at) / NANOS_PER_SECOND as int;
    if elapsed >= s.maker_secs_to_settle {
        0
    } else {
        (s.maker_secs_to_settle - elapsed) as u64
    }
}

/// The seconds to the settlement run down with the clock: what has passed and what is left
/// add up, up to a second, and nothing is left once all have passed.
pub proof fn law_settlement_comes_closer(s: FundingSnapshot, now: Moment)
    ensures
        ({
            let left = secs_left(s, now);
            let passed = if now.nanos >= s.captured_at.nanos {
                now.nanos - s.captured_at.nanos
            } else {
                0
            };
            &&& left <= s.maker_secs_to_settle
            &&& left == 0 <==> passed >= s.maker_secs_to_settle * 1_000_000_000
            &&& left > 0 ==> (s.maker_secs_to_settle - left) * 1_000_000_000 <= passed < (
            s.maker_secs_to_settle - left + 1) * 1_000_000_000
        }),
{
}

/// What the position earns in 8 hours, in basis points.
fn net_carry_bps_8h(snap: &FundingSnapshot) -> (d: Double)
    ensures
        d == snap.net_carry_bps(),
{
    let bps = Double::whole(10000);
    let maker_pnl = snap.maker_rate.times(&bps);
    let hedge_pnl = snap.hedge_rate_hourly.negated().times(&bps).times(&Double::whole(8));
    maker_pnl.plus(&hedge_pnl)
}

} // verus!
