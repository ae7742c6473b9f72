//! Statistics of the spread over a sliding window of time.
use crate::double;
use crate::double::arithmetic;
use crate::double::Double;
use crate::sequences;
use std::collections::VecDeque;
use vstd::arithmetic::mul::*;
use vstd::arithmetic::power2::*;
use vstd::prelude::*;

verus! {

/// A window of samples with their running sums.
pub struct Window {
    /// Timestamp in milliseconds, and mid spread in basis points.
    pub samples: Seq<(i64, Double)>,
    pub sum: Double,
    pub sum_sq: Double,
}

impl Window {
    /// With one more sample at the end.
    pub open spec fn extended(self, timestamp_ms: i64, value: Double) -> Window {
        Window {
            samples: self.samples.push((timestamp_ms, value)),
            sum: self.sum.sum(value),
            sum_sq: self.sum_sq.sum(value.product(value)),
        }
    }

    /// Without its first sample.
    pub open spec fn shortened(self) -> Window {
        let value = self.samples[0].1;
        Window {
            samples: self.samples.drop_first(),
            sum: self.sum.difference(value),
            sum_sq: self.sum_sq.difference(value.product(value)),
        }
    }

    /// Without the samples at its front that are older than `cutoff`.
    pub open spec fn expired(self, cutoff: int) -> Window
        decreases self.samples.len(),
    {
        if self.samples.len() == 0 || self.samples[0].0 >= cutoff {
            self
        } else {
            self.shortened().expired(cutoff)
        }
    }

    pub open spec fn count(self) -> Double {
        Double::whole_number(self.samples.len() as int)
    }

    pub open spec fn mean(self) -> Double {
        if self.samples.len() == 0 {
            Double::whole_number(0)
        } else {
            self.sum.quotient(self.count())
        }
    }

    /// The standard deviation of the samples: the root of the mean square less the
    /// squared mean.
    pub open spec fn deviation(self) -> Double {
        if self.samples.len() < 2 {
            Double::whole_number(0)
        } else {
            self.sum_sq.quotient(self.count()).difference(self.mean().product(self.mean())).larger(
                Double::whole_number(0),
            ).root()
        }
    }

    /// How many standard deviations `current` lies above the mean; 0 with fewer than
    /// 60 samples, or where the deviation is below 0.01.
    pub open spec fn z_score(self, current: Double) -> Double {
        if self.samples.len() < 60 || self.deviation().below(Double::fraction(1, 100)) {
            Double::whole_number(0)
        } else {
            current.difference(self.mean()).quotient(self.deviation())
        }
    }

    /// The running sum of the samples, or of their squares.
    pub open spec fn running(self, squares: bool) -> Double {
        if squares {
            self.sum_sq
        } else {
            self.sum
        }
    }

    /// What rounding loses in one of the running sums while the samples at the front
    /// that are older than `cutoff` go.
    pub open spec fn lost_in_expiry(self, squares: bool, cutoff: int) -> int
        decreases self.samples.len(),
    {
        if self.samples.len() == 0 || self.samples[0].0 >= cutoff {
            0
        } else {
            Double::lost(
                self.running(squares).amount() - term(squares, self.samples[0].1).amount(),
                1,
            ) + self.shortened().lost_in_expiry(squares, cutoff)
        }
    }

    /// The sizes that one of the running sums goes through meanwhile, added up.
    pub open spec fn sizes_in_expiry(self, squares: bool, cutoff: int) -> int
        decreases self.samples.len(),
    {
        if self.samples.len() == 0 || self.samples[0].0 >= cutoff {
            0
        } else {
            size(
                self.running(squares).amount() - term(squares, self.samples[0].1).amount(),
            ) + self.shortened().sizes_in_expiry(squares, cutoff)
        }
    }

    /// What expiry leaves is the end of the samples, and starts with one that is not
    /// older than the cutoff.
    pub proof fn lemma_expired(self, cutoff: int)
        ensures
            ({
                let left = self.expired(cutoff).samples;
                &&& left.len() <= self.samples.len()
                &&& left == self.samples.subrange(
                    self.samples.len() - left.len(),
                    self.samples.len() as int,
                )
                &&& left.len() > 0 ==> left[0].0 >= cutoff
                &&& forall|i: int|
                    0 <= i < self.samples.len() - left.len() ==> (#[trigger] self.samples[i]).0
                        < cutoff
            }),
        decreases self.samples.len(),
    {
        if self.samples.len() == 0 || self.samples[0].0 >= cutoff {
            assert(self.samples.subrange(0, self.samples.len() as int) =~= self.samples);
        } else {
            let rest = self.shortened();
            rest.lemma_expired(cutoff);
            let left = self.expired(cutoff).samples;
            assert(left =~= self.samples.subrange(
                self.samples.len() - left.len(),
                self.samples.len() as int,
            ));
            assert forall|i: int| 0 <= i < self.samples.len() - left.len() implies (
            #[trigger] self.samples[i]).0 < cutoff by {
                if i > 0 {
                    assert(rest.samples[i - 1] == self.samples[i]);
                }
            }
        }
    }
}

/// What a sample adds to a running sum: itself, or its square.
pub open spec fn term(squares: bool, value: Double) -> Double {
    if squares {
        value.product(value)
    } else {
        value
    }
}

/// The exact sum of the samples, or of their squares, counted in units of 2^-1074.
pub open spec fn total(squares: bool, samples: Seq<(i64, Double)>) -> int
    decreases samples.len(),
{
    if samples.len() == 0 {
        0
    } else {
        total(squares, samples.drop_last()) + term(squares, samples.last().1).amount()
    }
}

/// The standard deviation of `n` numbers with the given sums, of themselves and of their
/// squares, which are counted in units of 2^-1074.
pub open spec fn deviation_of(sum: int, sum_of_squares: int, n: int) -> Double {
    let mean = Double::nearest(sum, n);
    Double::nearest(sum_of_squares, n).difference(mean.product(mean)).larger(
        Double::whole_number(0),
    ).root()
}

/// A window without samples.
pub open spec fn fresh() -> Window {
    Window {
        samples: Seq::empty(),
        sum: Double::whole_number(0),
        sum_sq: Double::whole_number(0),
    }
}

/// The window, of the given width, after all of `history` has been pushed.
pub open spec fn pushed(width: int, history: Seq<(i64, Double)>) -> Window
    decreases history.len(),
{
    if history.len() == 0 {
        fresh()
    } else {
        let (at, value) = history.last();
        pushed(width, history.drop_last()).extended(at, value).expired(at - width)
    }
}

/// What rounding has lost in one of the running sums, over all of its additions and
/// subtractions.
pub open spec fn lost_so_far(squares: bool, width: int, history: Seq<(i64, Double)>) -> int
    decreases history.len(),
{
    if history.len() == 0 {
        0
    } else {
        let before = pushed(width, history.drop_last());
        let (at, value) = history.last();
        lost_so_far(squares, width, history.drop_last()) + Double::lost(
            before.running(squares).amount() + term(squares, value).amount(),
            1,
        ) + before.extended(at, value).lost_in_expiry(squares, at - width)
    }
}

/// The sizes that one of the running sums has gone through, added up.
pub open spec fn sizes_so_far(squares: bool, width: int, history: Seq<(i64, Double)>) -> int
    decreases history.len(),
{
    if history.len() == 0 {
        0
    } else {
        let before = pushed(width, history.drop_last());
        let (at, value) = history.last();
        sizes_so_far(squares, width, history.drop_last()) + size(
            before.running(squares).amount() + term(squares, value).amount(),
        ) + before.extended(at, value).sizes_in_expiry(squares, at - width)
    }
}

pub open spec fn size(n: int) -> int {
    if n < 0 {
        -n
    } else {
        n
    }
}

/// The first sample can be taken out of a sum as well as the last.
proof fn lemma_total_first(squares: bool, samples: Seq<(i64, Double)>)
    requires
        samples.len() > 0,
    ensures
        total(squares, samples) == term(squares, samples[0].1).amount() + total(
            squares,
            samples.drop_first(),
        ),
    decreases samples.len(),
{
    if samples.len() == 1 {
        assert(samples.drop_last() =~= Seq::empty());
        assert(samples.drop_first() =~= Seq::empty());
        assert(total(squares, Seq::empty()) == 0);
    } else {
        lemma_total_first(squares, samples.drop_last());
        assert(samples.drop_last().drop_first() =~= samples.drop_first().drop_last());
    }
}

/// A sum that is finite has finite parts, is rounded once, and is not the negative zero
/// unless both parts are.
proof fn lemma_finite_sum(a: Double, b: Double)
    requires
        a.sum(b).finite(),
    ensures
        a.finite(),
        b.finite(),
        a.sum(b).amount() == Double::nearest(a.amount() + b.amount(), 1).amount(),
        Double::nearest(a.amount() + b.amount(), 1).finite(),
        a.bits != double::SIGN ==> a.sum(b).bits != double::SIGN,
{
    let t = a.amount() + b.amount();
    let size = if t < 0 { -t } else { t };
    arithmetic::lemma_nearest_range(size, 1);
    arithmetic::lemma_zero();
    assert(Double::signed(true, 0).amount() == 0 && Double::signed(false, 0).amount() == 0) by {
        assert(double::units(0) == 0);
    }
    double::lemma_units_order(a.magnitude(), 0);
    double::lemma_units_order(b.magnitude(), 0);
    if t != 0 {
        arithmetic::lemma_nearest_positive(size);
    }
}

/// A step of a running sum: what it is off by grows by at most what rounding loses.
proof fn lemma_step(a: Double, b: Double, exact: int, off: int)
    requires
        a.sum(b).finite(),
        -off <= a.amount() - exact <= off,
    ensures
        ({
            let lost = Double::lost(a.amount() + b.amount(), 1);
            -(off + lost) <= a.sum(b).amount() - (exact + b.amount()) <= off + lost
        }),
{
    lemma_finite_sum(a, b);
}

impl Window {
    /// What is finite after expiry was so before.
    proof fn lemma_expiry_is_finite(self, squares: bool, cutoff: int)
        requires
            self.expired(cutoff).running(squares).finite(),
        ensures
            self.running(squares).finite(),
        decreases self.samples.len(),
    {
        if self.samples.len() > 0 && self.samples[0].0 < cutoff {
            self.shortened().lemma_expiry_is_finite(squares, cutoff);
            lemma_finite_sum(
                self.running(squares),
                term(squares, self.samples[0].1).opposite(),
            );
        }
    }

    /// Expiry loses at most 2^-53 of the sizes it goes through.
    proof fn lemma_expiry_loses_little(self, squares: bool, cutoff: int)
        requires
            self.expired(cutoff).running(squares).finite(),
        ensures
            self.lost_in_expiry(squares, cutoff) * pow2(53) <= self.sizes_in_expiry(
                squares,
                cutoff,
            ),
        decreases self.samples.len(),
    {
        if self.samples.len() > 0 && self.samples[0].0 < cutoff {
            let next = self.shortened();
            let (r, o) = (
                self.running(squares),
                term(squares, self.samples[0].1).opposite(),
            );
            next.lemma_expiry_is_finite(squares, cutoff);
            next.lemma_expiry_loses_little(squares, cutoff);
            lemma_finite_sum(r, o);
            arithmetic::law_rounding_loses_little(r.amount() + o.amount(), 1);
            lemma_mul_is_distributive_add_other_way(
                pow2(53) as int,
                Double::lost(r.amount() + o.amount(), 1),
                next.lost_in_expiry(squares, cutoff),
            );
        } else {
            lemma_mul_basics(pow2(53) as int);
        }
    }

    /// Where a deviation is large enough to score by, it is positive, and the mean is
    /// finite.
    proof fn lemma_scored(self)
        requires
            self.samples.len() >= 60,
            !self.deviation().below(Double::fraction(1, 100)),
        ensures
            self.deviation().positive(),
            self.mean().finite(),
    {
        let zero = Double::whole_number(0);
        let (mean, square) = (self.mean(), self.mean().product(self.mean()));
        let spread = self.sum_sq.quotient(self.count()).difference(square);
        arithmetic::lemma_zero();
        arithmetic::lemma_hundredth();
        arithmetic::lemma_root_range(spread.larger(zero));
        double::lemma_units_order(double::INFINITY as int, 0);
    }

    /// Where the deviation is infinite, the square of the mean is finite.
    proof fn lemma_wide(self)
        requires
            self.samples.len() >= 2,
            self.deviation().infinite(),
        ensures
            self.mean().finite(),
            double::units(self.mean().magnitude()) < pow2(2044),
    {
        let zero = Double::whole_number(0);
        let mean_square = self.sum_sq.quotient(self.count());
        let square = self.mean().product(self.mean());
        let spread = mean_square.difference(square);
        arithmetic::lemma_zero();
        let size = double::units(self.mean().magnitude());
        double::lemma_units_order(self.mean().magnitude(), 0);
        lemma_mul_nonnegative(size, size);
        lemma_pow2_pos(1074);
        arithmetic::lemma_nearest_range(size * size, double::one());
        double::lemma_units_order(double::INFINITY as int, 0);
        if spread.larger(zero).finite() {
            arithmetic::lemma_root_finite(spread.larger(zero));
        }
        assert(spread.infinite() && !spread.negative());
        if !square.finite() {
            assert(square.nan() || square == (Double { bits: double::INFINITY }));
        }
        arithmetic::lemma_square_finite(self.mean());
    }

    /// What is not the negative zero does not become it by expiry, and what is off by
    /// some amount is off by no more than what rounding loses beyond that.
    proof fn lemma_expiry_drift(self, squares: bool, cutoff: int, off: int)
        requires
            self.expired(cutoff).running(squares).finite(),
            self.running(squares).finite() ==> -off <= self.running(squares).amount() - total(
                squares,
                self.samples,
            ) <= off,
            self.running(squares).bits != double::SIGN,
        ensures
            self.running(squares).finite(),
            self.expired(cutoff).running(squares).bits != double::SIGN,
            ({
                let left = self.expired(cutoff);
                let lost = off + self.lost_in_expiry(squares, cutoff);
                -lost <= left.running(squares).amount() - total(squares, left.samples) <= lost
            }),
        decreases self.samples.len(),
    {
        if self.samples.len() > 0 && self.samples[0].0 < cutoff {
            let (r, v) = (self.running(squares), term(squares, self.samples[0].1));
            let next = self.shortened();
            let o = v.opposite();
            assert(next.running(squares) == r.sum(o));
            lemma_total_first(squares, self.samples);
            let lost = Double::lost(r.amount() - v.amount(), 1);
            if r.sum(o).finite() {
                lemma_finite_sum(r, o);
                assert(o.amount() == -v.amount());
                lemma_step(r, o, total(squares, self.samples), off);
            }
            assert(Double { bits: double::SIGN }.finite());
            next.lemma_expiry_drift(squares, cutoff, off + lost);
        }
    }
}

/// Timestamps do not decrease.
pub open spec fn in_order(samples: Seq<(i64, Double)>) -> bool {
    forall|i: int, j: int| 0 <= i <= j < samples.len() ==> samples[i].0 <= samples[j].0
}

/// What a history in order of time leaves is its end, from the first sample on that is
/// not older than the width.
proof fn lemma_history_parts(width: int, history: Seq<(i64, Double)>)
    requires
        width >= 0,
        history.len() > 0,
        in_order(history),
    ensures
        ({
            let left = pushed(width, history).samples;
            let n = history.len() - left.len();
            let cutoff = history.last().0 - width;
            &&& 0 <= n
            &&& left == history.subrange(n, history.len() as int)
            &&& forall|i: int| 0 <= i < n ==> (#[trigger] history[i]).0 < cutoff
            &&& forall|i: int| 0 <= i < left.len() ==> (#[trigger] left[i]).0 >= cutoff
        }),
    decreases history.len(),
{
    let older = history.drop_last();
    let before = pushed(width, older);
    let (at, value) = history.last();
    let full = before.extended(at, value);
    let cutoff = at - width;
    full.lemma_expired(cutoff);
    let left = full.expired(cutoff).samples;
    if older.len() > 0 {
        assert forall|i: int, j: int| 0 <= i <= j < older.len() implies older[i].0
            <= older[j].0 by {
            assert(older[i] == history[i] && older[j] == history[j]);
        }
        lemma_history_parts(width, older);
        assert(older.last() == history[older.len() - 1]);
    }
    let k = older.len() - before.samples.len();
    let n = history.len() - left.len();
    assert(full.samples =~= history.subrange(k, history.len() as int));
    assert(left =~= history.subrange(n, history.len() as int));
    assert forall|i: int| 0 <= i < n implies (#[trigger] history[i]).0 < cutoff by {
        if i < k {
            assert(older[i] == history[i]);
        } else {
            assert(full.samples[i - k] == history[i]);
        }
    }
    assert forall|i: int| 0 <= i < left.len() implies (#[trigger] left[i]).0 >= cutoff by {
        assert(left[i] == history[n + i] && left[0] == history[n]);
    }
}

/// Statistics of the samples of the last `window_ms` milliseconds.
pub struct SpreadStats {
    window: VecDeque<(i64, Double)>,
    window_ms: i64,
    sum: Double,
    sum_sq: Double,
}

impl View for SpreadStats {
    type V = Window;

    closed spec fn view(&self) -> Window {
        Window { samples: self.window@, sum: self.sum, sum_sq: self.sum_sq }
    }
}

impl SpreadStats {
    /// The window is not of negative width.
    pub open spec fn wf(&self) -> bool {
        self.width() >= 0
    }

    /// The width of the window in milliseconds.
    pub closed spec fn width(&self) -> int {
        self.window_ms as int
    }

    /// An empty window of the given width.
    pub fn new(window_secs: u64) -> (s: SpreadStats)
        requires
            window_secs * 1000 <= i64::MAX,
        ensures
            s@ == fresh(),
            s@ == pushed(s.width(), Seq::empty()),
            s.width() == window_secs * 1000,
            s.wf(),
    {
        SpreadStats {
            window: VecDeque::new(),
            window_ms: window_secs as i64 * 1000,
            sum: Double::whole(0),
            sum_sq: Double::whole(0),
        }
    }

    /// Adds a sample and drops those that have become too old.
    pub fn push(&mut self, timestamp_ms: i64, mid_spread_bps: Double)
        requires
            old(self).wf(),
            timestamp_ms - old(self).width() >= i64::MIN,
        ensures
            final(self).wf(),
            final(self)@ == old(self)@.extended(timestamp_ms, mid_spread_bps).expired(
                timestamp_ms - old(self).width(),
            ),
            forall|history: Seq<(i64, Double)>|
                old(self)@ == #[trigger] pushed(old(self).width(), history) ==> final(self)@
                    == pushed(old(self).width(), history.push((timestamp_ms, mid_spread_bps))),
            final(self).width() == old(self).width(),
    {
        self.window.push_back((timestamp_ms, mid_spread_bps));
        self.sum = self.sum.plus(&mid_spread_bps);
        self.sum_sq = self.sum_sq.plus(&mid_spread_bps.times(&mid_spread_bps));
        let cutoff: i64 = timestamp_ms - self.window_ms;
        let ghost full = self@;
        while self.window.len() > 0 && self.window[0].0 < cutoff
            invariant
                self@.expired(cutoff as int) == full.expired(cutoff as int),
                self.width() == old(self).width(),
            decreases self@.samples.len(),
        {
            let ghost before = self@;
            let value = self.window[0].1;
            self.window.pop_front();
            self.sum = self.sum.minus(&value);
            self.sum_sq = self.sum_sq.minus(&value.times(&value));
            assert(self@.samples =~= before.samples.drop_first());
            assert(self@ == before.shortened());
        }
        assert forall|history: Seq<(i64, Double)>|
            old(self)@ == #[trigger] pushed(old(self).width(), history) implies self@ == pushed(
            old(self).width(),
            history.push((timestamp_ms, mid_spread_bps)),
        ) by {
            assert(history.push((timestamp_ms, mid_spread_bps)).drop_last() =~= history);
        }
    }

    /// The number of samples in the window.
    pub fn len(&self) -> (n: usize)
        ensures
            n == self@.samples.len(),
    {
        self.window.len()
    }

    /// At least `min_samples` are in the window.
    pub fn is_ready(&self, min_samples: usize) -> (r: bool)
        ensures
            r == (self@.samples.len() >= min_samples),
    {
        self.window.len() >= min_samples
    }

    pub fn mean(&self) -> (d: Double)
        ensures
            d == self@.mean(),
    {
        let n: usize = self.window.len();
        if n == 0 {
            return Double::whole(0);
        }
        self.sum.over(&Double::integer(n as u64))
    }

    /// The standard deviation.
    pub fn std_dev(&self) -> (d: Double)
        ensures
            d == self@.deviation(),
    {
        let n: usize = self.window.len();
        if n < 2 {
            return Double::whole(0);
        }
        let count = Double::integer(n as u64);
        let mean = self.sum.over(&count);
        let var = self.sum_sq.over(&count).minus(&mean.times(&mean));
        var.max(&Double::whole(0)).sqrt()
    }

    /// How far `current` stands out from the window.
    pub fn z_score(&self, current: Double) -> (d: Double)
        ensures
            d == self@.z_score(current),
    {
        let s = self.std_dev();
        if s.lt(&Double::ratio(1, 100)) || self.window.len() < 60 {
            return Double::whole(0);
        }
        current.minus(&self.mean()).over(&s)
    }

    /// The newest sample always stays.
    pub proof fn law_newest_stays(before: Window, width: int, timestamp_ms: i64, value: Double)
        requires
            width >= 0,
        ensures
            ({
                let after = before.extended(timestamp_ms, value).expired(timestamp_ms - width);
                after.samples.len() > 0 && after.samples.last() == (timestamp_ms, value)
            }),
    {
        let full = before.extended(timestamp_ms, value);
        let cutoff = timestamp_ms - width;
        full.lemma_expired(cutoff);
        let left = full.expired(cutoff).samples;
        if left.len() == 0 {
            assert(full.samples[full.samples.len() - 1].0 < cutoff);
        }
    }

    /// Where samples come in order of time, the window holds exactly those that are
    /// not older than its width, and stays in order.
    pub proof fn law_window_holds_the_recent(
        before: Window,
        width: int,
        timestamp_ms: i64,
        value: Double,
    )
        requires
            width >= 0,
            in_order(before.samples.push((timestamp_ms, value))),
        ensures
            ({
                let all = before.samples.push((timestamp_ms, value));
                let after = before.extended(timestamp_ms, value).expired(timestamp_ms - width);
                &&& in_order(after.samples)
                &&& forall|i: int|
                    0 <= i < after.samples.len() ==> (#[trigger] after.samples[i]).0 >= timestamp_ms
                        - width
                &&& after.samples == all.filter(|s: (i64, Double)| s.0 >= timestamp_ms - width)
            }),
    {
        let full = before.extended(timestamp_ms, value);
        let cutoff = timestamp_ms - width;
        full.lemma_expired(cutoff);
        let left = full.expired(cutoff).samples;
        let n = full.samples.len() - left.len();
        assert forall|i: int| 0 <= i < left.len() implies (#[trigger] left[i]).0 >= cutoff by {
            assert(left[i] == full.samples[n + i]);
            assert(left[0] == full.samples[n]);
        }
        assert forall|i: int, j: int| 0 <= i <= j < left.len() implies left[i].0 <= left[j].0 by {
            assert(left[i] == full.samples[n + i]);
            assert(left[j] == full.samples[n + j]);
        }
        let keep = |s: (i64, Double)| s.0 >= cutoff;
        let gone = full.samples.subrange(0, n);
        assert(full.samples =~= gone + left);
        sequences::lemma_filter_none(gone, keep);
        sequences::lemma_filter_all(left, keep);
        Seq::filter_distributes_over_add(gone, left, keep);
        assert(gone.filter(keep) + left.filter(keep) =~= left);
        assert(full.samples == before.samples.push((timestamp_ms, value)));
    }

    /// Where all samples have come in order of time, the window holds exactly those
    /// that are not older than its width, counted from the last.
    pub proof fn law_history_leaves_the_recent(width: int, history: Seq<(i64, Double)>)
        requires
            width >= 0,
            history.len() > 0,
            in_order(history),
        ensures
            pushed(width, history).samples == history.filter(
                |s: (i64, Double)| s.0 >= history.last().0 - width,
            ),
            pushed(width, history).samples.len() > 0,
    {
        lemma_history_parts(width, history);
        let left = pushed(width, history).samples;
        let n = history.len() - left.len();
        let cutoff = history.last().0 - width;
        let keep = |s: (i64, Double)| s.0 >= cutoff;
        let gone = history.subrange(0, n);
        assert(history =~= gone + left);
        sequences::lemma_filter_none(gone, keep);
        sequences::lemma_filter_all(left, keep);
        Seq::filter_distributes_over_add(gone, left, keep);
        assert(gone.filter(keep) + left.filter(keep) =~= left);
        let (at, value) = history.last();
        SpreadStats::law_newest_stays(pushed(width, history.drop_last()), width, at, value);
    }

    /// The running sums are those of the samples in the window, up to what rounding has
    /// lost.
    pub proof fn law_sums_follow_the_window(
        squares: bool,
        width: int,
        history: Seq<(i64, Double)>,
    )
        requires
            pushed(width, history).running(squares).finite(),
        ensures
            ({
                let w = pushed(width, history);
                let lost = lost_so_far(squares, width, history);
                &&& -lost <= w.running(squares).amount() - total(squares, w.samples) <= lost
                &&& w.running(squares).bits != double::SIGN
            }),
        decreases history.len(),
    {
        arithmetic::lemma_zero();
        if history.len() > 0 {
            let (at, value) = history.last();
            let before = pushed(width, history.drop_last());
            let full = before.extended(at, value);
            let (r, v) = (before.running(squares), term(squares, value));
            let cutoff = at - width;
            let lost = lost_so_far(squares, width, history.drop_last()) + Double::lost(
                r.amount() + v.amount(),
                1,
            );
            assert(full.running(squares) == r.sum(v));
            assert(full.samples.drop_last() =~= before.samples);
            full.lemma_expiry_is_finite(squares, cutoff);
            lemma_finite_sum(r, v);
            SpreadStats::law_sums_follow_the_window(squares, width, history.drop_last());
            lemma_step(
                r,
                v,
                total(squares, before.samples),
                lost_so_far(squares, width, history.drop_last()),
            );
            full.lemma_expiry_drift(squares, cutoff, lost);
        }
    }

    /// What rounding has lost in a running sum is at most 2^-53 of all the sizes that the
    /// sum has gone through.
    pub proof fn law_sums_lose_little(squares: bool, width: int, history: Seq<(i64, Double)>)
        requires
            pushed(width, history).running(squares).finite(),
        ensures
            lost_so_far(squares, width, history) * pow2(53) <= sizes_so_far(
                squares,
                width,
                history,
            ),
        decreases history.len(),
    {
        if history.len() > 0 {
            let (at, value) = history.last();
            let before = pushed(width, history.drop_last());
            let full = before.extended(at, value);
            let (r, v) = (before.running(squares), term(squares, value));
            let cutoff = at - width;
            full.lemma_expiry_is_finite(squares, cutoff);
            full.lemma_expiry_loses_little(squares, cutoff);
            assert(full.running(squares) == r.sum(v));
            lemma_finite_sum(r, v);
            SpreadStats::law_sums_lose_little(squares, width, history.drop_last());
            arithmetic::law_rounding_loses_little(r.amount() + v.amount(), 1);
            let (x, y, z) = (
                lost_so_far(squares, width, history.drop_last()),
                Double::lost(r.amount() + v.amount(), 1),
                full.lost_in_expiry(squares, cutoff),
            );
            lemma_mul_is_distributive_add_other_way(pow2(53) as int, x, y);
            lemma_mul_is_distributive_add_other_way(pow2(53) as int, x + y, z);
        } else {
            lemma_mul_basics(pow2(53) as int);
        }
    }

    /// The mean is the double nearest to the running sum over the number of samples, so
    /// that it is their average up to what rounding loses, and the double nearest to
    /// their average where the running sum has lost nothing.
    pub proof fn law_mean_is_the_average(width: int, history: Seq<(i64, Double)>)
        requires
            pushed(width, history).sum.finite(),
            0 < pushed(width, history).samples.len() < 0x20_0000_0000_0000,
        ensures
            ({
                let w = pushed(width, history);
                let n = w.samples.len() as int;
                let exact = total(false, w.samples);
                let lost = lost_so_far(false, width, history) + Double::lost(w.sum.amount(), n);
                &&& w.mean() == Double::nearest(w.sum.amount(), n)
                &&& -lost <= n * w.mean().amount() - exact <= lost
                &&& lost_so_far(false, width, history) == 0 ==> w.mean() == Double::nearest(
                    exact,
                    n,
                )
            }),
    {
        SpreadStats::law_sums_follow_the_window(false, width, history);
        let w = pushed(width, history);
        arithmetic::lemma_quotient_by_whole(w.sum, w.samples.len() as int);
    }

    /// The deviation is that of the running sums: the root of the mean square less the
    /// squared mean, where the mean square is rounded once. Where the running sums have
    /// lost nothing, it depends on the sums of the samples and of their squares alone.
    pub proof fn law_deviation_is_of_the_samples(width: int, history: Seq<(i64, Double)>)
        requires
            pushed(width, history).sum.finite(),
            pushed(width, history).sum_sq.finite(),
            2 <= pushed(width, history).samples.len() < 0x20_0000_0000_0000,
        ensures
            ({
                let w = pushed(width, history);
                let n = w.samples.len() as int;
                let (sum, squares) = (total(false, w.samples), total(true, w.samples));
                &&& w.deviation() == deviation_of(w.sum.amount(), w.sum_sq.amount(), n)
                &&& lost_so_far(false, width, history) == 0 && lost_so_far(true, width, history)
                    == 0 ==> w.deviation() == deviation_of(sum, squares, n)
            }),
    {
        SpreadStats::law_sums_follow_the_window(false, width, history);
        SpreadStats::law_sums_follow_the_window(true, width, history);
        let w = pushed(width, history);
        arithmetic::lemma_quotient_by_whole(w.sum, w.samples.len() as int);
        arithmetic::lemma_quotient_by_whole(w.sum_sq, w.samples.len() as int);
    }

    /// The deviation is a number, and not negative.
    pub proof fn law_deviation_is_not_negative(w: Window)
        ensures
            w.deviation().non_negative(),
    {
        arithmetic::lemma_zero();
        if w.samples.len() >= 2 {
            arithmetic::lemma_root_range(
                w.sum_sq.quotient(w.count()).difference(w.mean().product(w.mean())).larger(
                    Double::whole_number(0),
                ),
            );
        }
    }

    /// Of two histories that leave the same samples in the window, the running sums
    /// differ by no more than what rounding has lost in both. Where it has lost nothing,
    /// the samples that are gone leave no trace: mean, deviation and score are the same.
    pub proof fn law_expired_samples_leave_no_trace(
        width: int,
        a: Seq<(i64, Double)>,
        b: Seq<(i64, Double)>,
        current: Double,
    )
        requires
            pushed(width, a).samples == pushed(width, b).samples,
            pushed(width, a).sum.finite(),
            pushed(width, b).sum.finite(),
            pushed(width, a).sum_sq.finite(),
            pushed(width, b).sum_sq.finite(),
        ensures
            forall|squares: bool|
                ({
                    let lost = lost_so_far(squares, width, a) + lost_so_far(squares, width, b);
                    -lost <= (#[trigger] pushed(width, a).running(squares)).amount() - pushed(
                        width,
                        b,
                    ).running(squares).amount() <= lost
                }),
            (forall|squares: bool|
                #[trigger] lost_so_far(squares, width, a) == 0 && lost_so_far(squares, width, b)
                    == 0) ==> {
                &&& pushed(width, a) == pushed(width, b)
                &&& pushed(width, a).mean() == pushed(width, b).mean()
                &&& pushed(width, a).deviation() == pushed(width, b).deviation()
                &&& pushed(width, a).z_score(current) == pushed(width, b).z_score(current)
            },
    {
        let (v, w) = (pushed(width, a), pushed(width, b));
        assert forall|squares: bool|
            ({
                let lost = lost_so_far(squares, width, a) + lost_so_far(squares, width, b);
                &&& -lost <= (#[trigger] v.running(squares)).amount() - w.running(
                    squares,
                ).amount() <= lost
                &&& lost == 0 ==> v.running(squares) == w.running(squares)
            }) by {
            SpreadStats::law_sums_follow_the_window(squares, width, a);
            SpreadStats::law_sums_follow_the_window(squares, width, b);
            let (x, y) = (v.running(squares), w.running(squares));
            double::lemma_units_order(x.magnitude(), y.magnitude());
            double::lemma_units_order(y.magnitude(), x.magnitude());
        }
        if forall|squares: bool|
            #[trigger] lost_so_far(squares, width, a) == 0 && lost_so_far(squares, width, b) == 0 {
            assert(lost_so_far(false, width, a) == 0 && lost_so_far(true, width, a) == 0);
            assert(v.running(false) == w.running(false) && v.running(true) == w.running(true));
            assert(v == w);
        }
    }

    /// There is a score from 60 samples on, and from a deviation of 0.01 on: the distance to
    /// the mean in deviations. Otherwise it is 0.
    pub proof fn law_when_there_is_a_score(w: Window, current: Double)
        ensures
            w.samples.len() < 60 ==> w.z_score(current).amount() == 0 && !w.z_score(current).nan(),
            w.deviation().below(Double::fraction(1, 100)) ==> w.z_score(current).amount() == 0
                && !w.z_score(current).nan(),
            w.samples.len() >= 60 && Double::fraction(1, 100).at_most(w.deviation()) ==> w.z_score(
                current,
            ) == current.difference(w.mean()).quotient(w.deviation()),
    {
        arithmetic::lemma_zero();
    }

    /// The score at the mean is 0.
    pub proof fn law_score_is_zero_at_the_mean(w: Window)
        ensures
            !w.z_score(w.mean()).nan(),
            w.z_score(w.mean()).amount() == 0,
    {
        arithmetic::lemma_zero();
        if w.samples.len() >= 60 && !w.deviation().below(Double::fraction(1, 100)) {
            w.lemma_scored();
            let d = w.mean().difference(w.mean());
            let s = w.deviation();
            assert(d == Double::whole_number(0));
            double::lemma_units_order(s.magnitude(), 0);
            assert(double::units(0) == 0);
            arithmetic::lemma_nearest_zero(double::units(s.magnitude()));
        }
    }

    /// The score does not decrease in the value that is scored.
    pub proof fn law_score_keeps_the_order(w: Window, low: Double, high: Double)
        requires
            low.finite(),
            high.finite(),
            low.at_most(high),
        ensures
            w.z_score(low).at_most(w.z_score(high)),
    {
        arithmetic::lemma_zero();
        if w.samples.len() >= 60 && !w.deviation().below(Double::fraction(1, 100)) {
            w.lemma_scored();
            arithmetic::lemma_difference_order(low, high, w.mean());
            if w.deviation().infinite() {
                w.lemma_wide();
                arithmetic::lemma_difference_finite(low, w.mean());
                arithmetic::lemma_difference_finite(high, w.mean());
            }
            arithmetic::lemma_quotient_order(
                low.difference(w.mean()),
                high.difference(w.mean()),
                w.deviation(),
            );
        }
    }
}

} // verus!
