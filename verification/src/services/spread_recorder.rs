//! Samples of the spread between the two exchanges, kept for a number of hours.
use crate::clock::UtcTime;
use crate::double;
use crate::double::laws;
use crate::double::Double;
use crate::strategy;
use std::collections::VecDeque;
use vstd::arithmetic::power2::*;
use vstd::prelude::*;
use vstd::string::*;

verus! {

/// The prices of both exchanges at one time, and what they imply.
#[derive(Debug)]
pub struct SpreadSampleRow {
    pub timestamp_ms: i64,
    pub timestamp_iso: String,
    pub symbol: String,
    pub maker_exchange: String,
    pub maker_bid: Double,
    pub maker_ask: Double,
    pub maker_mid: Double,
    pub hl_bid: Double,
    pub hl_ask: Double,
    pub hl_mid: Double,
    pub mid_spread: Double,
    pub mid_spread_bps: Double,
    pub buy_edge_bps: Double,
    pub sell_edge_bps: Double,
}

/// A sample, its texts as sequences of characters.
#[verifier::ext_equal]
pub struct Sample {
    pub timestamp_ms: i64,
    pub timestamp_iso: Seq<char>,
    pub symbol: Seq<char>,
    pub maker_exchange: Seq<char>,
    pub maker_bid: Double,
    pub maker_ask: Double,
    pub maker_mid: Double,
    pub hl_bid: Double,
    pub hl_ask: Double,
    pub hl_mid: Double,
    pub mid_spread: Double,
    pub mid_spread_bps: Double,
    pub buy_edge_bps: Double,
    pub sell_edge_bps: Double,
}

impl View for SpreadSampleRow {
    type V = Sample;

    open spec fn view(&self) -> Sample {
        Sample {
            timestamp_ms: self.timestamp_ms,
            timestamp_iso: self.timestamp_iso@,
            symbol: self.symbol@,
            maker_exchange: self.maker_exchange@,
            maker_bid: self.maker_bid,
            maker_ask: self.maker_ask,
            maker_mid: self.maker_mid,
            hl_bid: self.hl_bid,
            hl_ask: self.hl_ask,
            hl_mid: self.hl_mid,
            mid_spread: self.mid_spread,
            mid_spread_bps: self.mid_spread_bps,
            buy_edge_bps: self.buy_edge_bps,
            sell_edge_bps: self.sell_edge_bps,
        }
    }
}

impl Clone for SpreadSampleRow {
    fn clone(&self) -> (r: SpreadSampleRow)
        ensures
            r@ == self@,
    {
        SpreadSampleRow {
            timestamp_ms: self.timestamp_ms,
            timestamp_iso: self.timestamp_iso.clone(),
            symbol: self.symbol.clone(),
            maker_exchange: self.maker_exchange.clone(),
            maker_bid: self.maker_bid,
            maker_ask: self.maker_ask,
            maker_mid: self.maker_mid,
            hl_bid: self.hl_bid,
            hl_ask: self.hl_ask,
            hl_mid: self.hl_mid,
            mid_spread: self.mid_spread,
            mid_spread_bps: self.mid_spread_bps,
            buy_edge_bps: self.buy_edge_bps,
            sell_edge_bps: self.sell_edge_bps,
        }
    }
}

/// `gain / base` in basis points; 0 without a positive base.
pub open spec fn in_bps(gain: Double, base: Double) -> Double {
    if base.positive() {
        gain.quotient(base).product(Double::whole_number(10000))
    } else {
        Double::whole_number(0)
    }
}

fn bps(gain: Double, base: Double) -> (d: Double)
    ensures
        d == in_bps(gain, base),
{
    if base.is_positive() {
        gain.over(&base).times(&Double::whole(10000))
    } else {
        Double::whole(0)
    }
}

impl Sample {
    /// The sample of the given prices. The edges are what buying at the maker's ask and
    /// selling at Hyperliquid's bid earns, and the other way round.
    pub open spec fn of(
        now: UtcTime,
        symbol: Seq<char>,
        maker_exchange: Seq<char>,
        maker_bid: Double,
        maker_ask: Double,
        hl_bid: Double,
        hl_ask: Double,
    ) -> Sample {
        let maker_mid = strategy::middle(maker_bid, maker_ask);
        let hl_mid = strategy::middle(hl_bid, hl_ask);
        let mid_spread = maker_mid.difference(hl_mid);
        Sample {
            timestamp_ms: now.millis,
            timestamp_iso: now.iso@,
            symbol,
            maker_exchange,
            maker_bid,
            maker_ask,
            maker_mid,
            hl_bid,
            hl_ask,
            hl_mid,
            mid_spread,
            mid_spread_bps: in_bps(mid_spread, hl_mid),
            buy_edge_bps: in_bps(hl_bid.difference(maker_ask), maker_ask),
            sell_edge_bps: in_bps(maker_bid.difference(hl_ask), hl_ask),
        }
    }
}

/// A sample keeps the prices that it was made from. Its edges are above zero exactly where
/// something can be earned at once: by buying at the maker's ask and selling at the hedge
/// exchange's bid, or by buying at the hedge exchange's ask and selling at the maker's bid;
/// and the spread where the maker's middle price is the higher one. Each is the gain in ten
/// thousands of what is paid, up to rounding.
pub proof fn law_samples(
    now: UtcTime,
    symbol: Seq<char>,
    maker_exchange: Seq<char>,
    maker_bid: Double,
    maker_ask: Double,
    hl_bid: Double,
    hl_ask: Double,
)
    requires
        maker_bid.finite() && maker_ask.finite() && hl_bid.finite() && hl_ask.finite(),
        maker_bid.positive() && maker_bid.at_most(maker_ask),
        hl_bid.positive() && hl_bid.at_most(hl_ask),
        maker_bid.sum(maker_ask).finite(),
        hl_bid.sum(hl_ask).finite(),
    ensures
        ({
            let s = Sample::of(
                now,
                symbol,
                maker_exchange,
                maker_bid,
                maker_ask,
                hl_bid,
                hl_ask,
            );
            &&& s.maker_bid == maker_bid && s.maker_ask == maker_ask
            &&& s.hl_bid == hl_bid && s.hl_ask == hl_ask
            &&& s.timestamp_ms == now.millis && s.timestamp_iso == now.iso@
            &&& s.symbol == symbol && s.maker_exchange == maker_exchange
            &&& maker_bid.at_most(s.maker_mid) && s.maker_mid.at_most(maker_ask)
            &&& hl_bid.at_most(s.hl_mid) && s.hl_mid.at_most(hl_ask)
            &&& s.buy_edge_bps.amount() > 0 <==> maker_ask.below(hl_bid)
            &&& s.buy_edge_bps.amount() < 0 <==> hl_bid.below(maker_ask)
            &&& s.sell_edge_bps.amount() > 0 <==> hl_ask.below(maker_bid)
            &&& s.sell_edge_bps.amount() < 0 <==> maker_bid.below(hl_ask)
            &&& s.mid_spread_bps.amount() > 0 <==> s.hl_mid.below(s.maker_mid)
            &&& s.mid_spread_bps.amount() < 0 <==> s.maker_mid.below(s.hl_mid)
            &&& s.mid_spread.amount() > 0 <==> s.hl_mid.below(s.maker_mid)
            &&& s.mid_spread.amount() < 0 <==> s.maker_mid.below(s.hl_mid)
            &&& near_bps(s.buy_edge_bps, hl_bid, maker_ask)
            &&& near_bps(s.sell_edge_bps, maker_bid, hl_ask)
            &&& near_bps(s.mid_spread_bps, s.maker_mid, s.hl_mid)
        }),
{
    strategy::law_middle_lies_between(maker_bid, maker_ask);
    strategy::law_middle_lies_between(hl_bid, hl_ask);
    let (m, h) = (strategy::middle(maker_bid, maker_ask), strategy::middle(hl_bid, hl_ask));
    laws::law_relative_difference(hl_bid, maker_ask);
    laws::law_relative_difference(maker_bid, hl_ask);
    laws::law_relative_difference(m, h);
    laws::law_difference_is_near(m, h);
}

/// The number tells by how much `x` exceeds `y`, in ten thousands of `y`, up to rounding.
pub open spec fn near_bps(r: Double, x: Double, y: Double) -> bool {
    let gap = (x.amount() - y.amount()) * double::one();
    r.finite() && x.difference(y).finite() ==> laws::distance(
        r.amount() * y.amount(),
        10000 * gap,
    ) * pow2(53) <= 70000 * laws::distance(gap, 0) + 20000 * (pow2(53) * y.amount())
}

impl SpreadSampleRow {
    /// The sample of the given prices.
    pub fn from_prices(
        now: &UtcTime,
        symbol: String,
        maker_exchange: String,
        maker_bid: Double,
        maker_ask: Double,
        hl_bid: Double,
        hl_ask: Double,
    ) -> (r: SpreadSampleRow)
        ensures
            r@ == Sample::of(
                *now,
                symbol@,
                maker_exchange@,
                maker_bid,
                maker_ask,
                hl_bid,
                hl_ask,
            ),
    {
        let maker_mid = strategy::mid_price(maker_bid, maker_ask);
        let hl_mid = strategy::mid_price(hl_bid, hl_ask);
        let mid_spread = maker_mid.minus(&hl_mid);
        SpreadSampleRow {
            timestamp_ms: now.millis,
            timestamp_iso: now.iso.clone(),
            symbol,
            maker_exchange,
            maker_bid,
            maker_ask,
            maker_mid,
            hl_bid,
            hl_ask,
            hl_mid,
            mid_spread,
            mid_spread_bps: bps(mid_spread, hl_mid),
            buy_edge_bps: bps(hl_bid.minus(&maker_ask), maker_ask),
            sell_edge_bps: bps(maker_bid.minus(&hl_ask), hl_ask),
        }
    }
}

pub open spec fn views(rows: Seq<SpreadSampleRow>) -> Seq<Sample> {
    Seq::new(rows.len(), |i: int| rows[i]@)
}

/// The samples without those at their start that are older than `cutoff_ms`.
pub open spec fn retained(rows: Seq<Sample>, cutoff_ms: int) -> Seq<Sample>
    decreases rows.len(),
{
    if rows.len() > 0 && rows[0].timestamp_ms < cutoff_ms {
        retained(rows.drop_first(), cutoff_ms)
    } else {
        rows
    }
}

/// The samples that are not older than `cutoff_ms`.
pub open spec fn recent(rows: Seq<Sample>, cutoff_ms: int) -> Seq<Sample>
    decreases rows.len(),
{
    if rows.len() == 0 {
        Seq::empty()
    } else {
        let before = recent(rows.drop_last(), cutoff_ms);
        if rows.last().timestamp_ms >= cutoff_ms {
            before.push(rows.last())
        } else {
            before
        }
    }
}

/// What is kept is the end of the samples.
pub proof fn lemma_retained(rows: Seq<Sample>, cutoff_ms: int)
    ensures
        ({
            let kept = retained(rows, cutoff_ms);
            &&& kept.len() <= rows.len()
            &&& kept == rows.skip(rows.len() - kept.len())
            &&& kept.len() > 0 ==> kept[0].timestamp_ms >= cutoff_ms
        }),
    decreases rows.len(),
{
    if rows.len() > 0 && rows[0].timestamp_ms < cutoff_ms {
        lemma_retained(rows.drop_first(), cutoff_ms);
        let kept = retained(rows, cutoff_ms);
        assert(kept =~= rows.skip(rows.len() - kept.len()));
    } else {
        assert(rows.skip(0) =~= rows);
    }
}

/// What is dropped from the start is older than the cutoff, every sample of it, and what
/// is kept starts with one that is not.
pub proof fn law_retained(rows: Seq<Sample>, cutoff_ms: int)
    ensures
        ({
            let kept = retained(rows, cutoff_ms);
            let n = rows.len() - kept.len();
            &&& 0 <= n
            &&& forall|i: int| 0 <= i < n ==> (#[trigger] rows[i]).timestamp_ms < cutoff_ms
            &&& forall|i: int| 0 <= i < kept.len() ==> (#[trigger] kept[i]) == rows[n + i]
            &&& kept.len() > 0 ==> kept[0].timestamp_ms >= cutoff_ms
        }),
    decreases rows.len(),
{
    lemma_retained(rows, cutoff_ms);
    if rows.len() > 0 && rows[0].timestamp_ms < cutoff_ms {
        let rest = rows.drop_first();
        law_retained(rest, cutoff_ms);
        let n = rows.len() - retained(rows, cutoff_ms).len();
        assert forall|i: int| 0 <= i < n implies (#[trigger] rows[i]).timestamp_ms < cutoff_ms by {
            if i > 0 {
                assert(rest[i - 1] == rows[i]);
            }
        }
    }
}

/// A sample is recent exactly where it is not older than the cutoff; the others are left
/// out, and the order stays.
pub proof fn law_recent(rows: Seq<Sample>, row: Sample, cutoff_ms: int)
    ensures
        recent(Seq::empty(), cutoff_ms).len() == 0,
        row.timestamp_ms >= cutoff_ms ==> recent(rows.push(row), cutoff_ms) == recent(
            rows,
            cutoff_ms,
        ).push(row),
        row.timestamp_ms < cutoff_ms ==> recent(rows.push(row), cutoff_ms) == recent(
            rows,
            cutoff_ms,
        ),
{
    assert(rows.push(row).drop_last() =~= rows);
}

/// The samples of a symbol, and how many have been dropped since they were last written
/// out as a whole.
#[derive(Debug)]
pub struct SpreadCsvRecorder {
    symbol: String,
    maker_exchange: String,
    retention_ms: i64,
    rows: VecDeque<SpreadSampleRow>,
    dropped_since_compaction: usize,
}

pub const MILLIS_PER_HOUR: i64 = 3_600_000;

/// What a recorder holds.
#[verifier::ext_equal]
pub struct History {
    pub symbol: Seq<char>,
    pub maker_exchange: Seq<char>,
    pub retention_ms: int,
    pub rows: Seq<Sample>,
    pub dropped: nat,
}

impl History {
    /// With one more sample, and without those that have become too old.
    pub open spec fn extended(self, row: Sample) -> History {
        let all = self.rows.push(row);
        let kept = retained(all, row.timestamp_ms - self.retention_ms);
        History { rows: kept, dropped: (self.dropped + all.len() - kept.len()) as nat, ..self }
    }

    /// The newest sample is kept, and so is the order of all.
    pub proof fn law_newest_is_kept(self, row: Sample)
        requires
            self.retention_ms >= 0,
        ensures
            self.extended(row).rows.len() > 0,
            self.extended(row).rows.last() == row,
            self.extended(row).rows == self.rows.push(row).skip(
                self.rows.len() + 1 - self.extended(row).rows.len(),
            ),
    {
        let all = self.rows.push(row);
        let cutoff = row.timestamp_ms - self.retention_ms;
        lemma_retained(all, cutoff);
        lemma_last_kept(all, cutoff);
    }

    /// What is not kept has been dropped, and is counted. Nothing else changes.
    pub proof fn law_dropped_samples_are_counted(self, row: Sample)
        ensures
            ({
                let after = self.extended(row);
                &&& after.dropped + after.rows.len() == self.dropped + self.rows.len() + 1
                &&& after.symbol == self.symbol && after.maker_exchange == self.maker_exchange
                &&& after.retention_ms == self.retention_ms
            }),
    {
        lemma_retained(self.rows.push(row), row.timestamp_ms - self.retention_ms);
    }

    /// Where samples come in order of time, none is kept that is older than the retention.
    pub proof fn law_old_samples_go(self, row: Sample)
        requires
            forall|i: int, j: int|
                0 <= i <= j < self.rows.push(row).len() ==> self.rows.push(row)[i].timestamp_ms
                    <= self.rows.push(row)[j].timestamp_ms,
        ensures
            forall|i: int|
                0 <= i < self.extended(row).rows.len() ==> (#[trigger] self.extended(
                    row,
                ).rows[i]).timestamp_ms >= row.timestamp_ms - self.retention_ms,
    {
        let all = self.rows.push(row);
        let cutoff = row.timestamp_ms - self.retention_ms;
        lemma_retained(all, cutoff);
        let kept = retained(all, cutoff);
        let n = all.len() - kept.len();
        assert forall|i: int| 0 <= i < kept.len() implies (#[trigger] kept[i]).timestamp_ms
            >= cutoff by {
            assert(kept[i] == all[n + i]);
            assert(kept[0] == all[n]);
        }
    }
}

proof fn lemma_last_kept(rows: Seq<Sample>, cutoff_ms: int)
    requires
        rows.len() > 0,
        rows.last().timestamp_ms >= cutoff_ms,
    ensures
        retained(rows, cutoff_ms).len() > 0,
        retained(rows, cutoff_ms).last() == rows.last(),
    decreases rows.len(),
{
    if rows[0].timestamp_ms < cutoff_ms {
        assert(rows.len() > 1);
        lemma_last_kept(rows.drop_first(), cutoff_ms);
    }
}

impl View for SpreadCsvRecorder {
    type V = History;

    closed spec fn view(&self) -> History {
        History {
            symbol: self.symbol@,
            maker_exchange: self.maker_exchange@,
            retention_ms: self.retention_ms as int,
            rows: views(self.rows@),
            dropped: self.dropped_since_compaction as nat,
        }
    }
}

impl SpreadCsvRecorder {
    /// A recorder without samples that keeps them for so many hours.
    pub fn new(symbol: String, maker_exchange: String, retention_hours: i64) -> (r:
        SpreadCsvRecorder)
        requires
            -i64::MAX <= retention_hours * MILLIS_PER_HOUR <= i64::MAX,
        ensures
            r@ == (History {
                symbol: symbol@,
                maker_exchange: maker_exchange@,
                retention_ms: retention_hours * MILLIS_PER_HOUR,
                rows: Seq::empty(),
                dropped: 0,
            }),
    {
        let r = SpreadCsvRecorder {
            symbol,
            maker_exchange,
            retention_ms: retention_hours * MILLIS_PER_HOUR,
            rows: VecDeque::new(),
            dropped_since_compaction: 0,
        };
        assert(r@.rows =~= Seq::empty());
        r
    }

    /// The number of samples.
    pub fn row_count(&self) -> (n: usize)
        ensures
            n == self@.rows.len(),
    {
        self.rows.len()
    }

    /// The number of samples dropped since they were last written out as a whole.
    pub fn dropped_count(&self) -> (n: usize)
        ensures
            n == self@.dropped,
    {
        self.dropped_since_compaction
    }

    /// The sample at a place.
    pub fn row(&self, i: usize) -> (r: &SpreadSampleRow)
        requires
            i < self@.rows.len(),
        ensures
            r@ == self@.rows[i as int],
    {
        &self.rows[i]
    }

    /// Takes in the samples that were read from a file at `now_ms`, without those that
    /// have become too old. Says how many were taken.
    pub fn load_rows(&mut self, loaded: &Vec<SpreadSampleRow>, now_ms: i64) -> (n: usize)
        requires
            i64::MIN <= now_ms - old(self)@.retention_ms <= i64::MAX,
        ensures
            ({
                let fresh = recent(views(loaded@), now_ms - old(self)@.retention_ms);
                &&& final(self)@ == (History { rows: old(self)@.rows + fresh, ..old(self)@ })
                &&& n == fresh.len()
            }),
    {
        let cutoff_ms: i64 = now_ms - self.retention_ms;
        let mut n: usize = 0;
        let mut i: usize = 0;
        let ghost all = views(loaded@);
        let ghost before = self@.rows;
        proof {
            assert(all.take(0) =~= Seq::empty());
            assert(before + Seq::<Sample>::empty() =~= before);
        }
        while i < loaded.len()
            invariant
                i <= loaded@.len(),
                n <= i,
                all == views(loaded@),
                before == old(self)@.rows,
                self@ == (History {
                    rows: before + recent(all.take(i as int), cutoff_ms as int),
                    ..old(self)@
                }),
                n == recent(all.take(i as int), cutoff_ms as int).len(),
            decreases loaded@.len() - i,
        {
            let ghost so_far = self@.rows;
            let ghost taken = recent(all.take(i as int), cutoff_ms as int);
            proof {
                assert(all.take(i + 1).drop_last() =~= all.take(i as int));
                assert(all.take(i + 1).last() == loaded@[i as int]@);
            }
            if loaded[i].timestamp_ms >= cutoff_ms {
                self.rows.push_back(loaded[i].clone());
                n = n + 1;
                assert(self@.rows =~= so_far.push(loaded@[i as int]@));
                assert((before + taken).push(loaded@[i as int]@) =~= before + taken.push(
                    loaded@[i as int]@,
                ));
            }
            i = i + 1;
        }
        assert(all.take(i as int) =~= all);
        n
    }

    /// Takes in the sample of the given prices, drops those that have become too old,
    /// and gives the sample back for it to be written out.
    pub fn add_sample(
        &mut self,
        now: &UtcTime,
        maker_bid: Double,
        maker_ask: Double,
        hl_bid: Double,
        hl_ask: Double,
    ) -> (row: SpreadSampleRow)
        requires
            i64::MIN <= now.millis - old(self)@.retention_ms <= i64::MAX,
            old(self)@.dropped + old(self)@.rows.len() < usize::MAX,
        ensures
            row@ == Sample::of(
                *now,
                old(self)@.symbol,
                old(self)@.maker_exchange,
                maker_bid,
                maker_ask,
                hl_bid,
                hl_ask,
            ),
            final(self)@ == old(self)@.extended(row@),
    {
        let row = SpreadSampleRow::from_prices(
            now,
            self.symbol.clone(),
            self.maker_exchange.clone(),
            maker_bid,
            maker_ask,
            hl_bid,
            hl_ask,
        );
        self.rows.push_back(row.clone());
        assert(self@.rows =~= old(self)@.rows.push(row@));
        self.prune_old(row.timestamp_ms);
        row
    }

    fn prune_old(&mut self, now_ms: i64)
        requires
            i64::MIN <= now_ms - old(self)@.retention_ms <= i64::MAX,
            old(self)@.dropped + old(self)@.rows.len() <= usize::MAX,
        ensures
            ({
                let kept = retained(old(self)@.rows, now_ms - old(self)@.retention_ms);
                final(self)@ == (History {
                    rows: kept,
                    dropped: (old(self)@.dropped + old(self)@.rows.len() - kept.len()) as nat,
                    ..old(self)@
                })
            }),
    {
        let cutoff_ms: i64 = now_ms - self.retention_ms;
        while self.rows.len() > 0 && self.rows[0].timestamp_ms < cutoff_ms
            invariant
                retained(self@.rows, cutoff_ms as int) == retained(
                    old(self)@.rows,
                    cutoff_ms as int,
                ),
                self@.dropped + self@.rows.len() == old(self)@.dropped + old(self)@.rows.len(),
                old(self)@.dropped + old(self)@.rows.len() <= usize::MAX,
                self@ == (History { rows: self@.rows, dropped: self@.dropped, ..old(self)@ }),
            decreases self@.rows.len(),
        {
            let ghost before = self@.rows;
            assert(before[0] == self.rows@[0]@);
            self.rows.pop_front();
            self.dropped_since_compaction = self.dropped_since_compaction + 1;
            assert(self@.rows =~= before.drop_first());
        }
        proof {
            if self@.rows.len() > 0 {
                assert(self@.rows[0] == self.rows@[0]@);
            }
        }
    }

    /// Whether the file is to be written anew: if samples have been dropped, or it is asked for.
    pub fn needs_compaction(&self, force: bool) -> (r: bool)
        ensures
            r == (force || self@.dropped > 0),
    {
        force || self.dropped_since_compaction > 0
    }

    /// The file has been written anew.
    pub fn compacted(&mut self)
        ensures
            final(self)@ == (History { dropped: 0, ..old(self)@ }),
    {
        self.dropped_since_compaction = 0;
    }
}

/// The time between two samples: the setting, but at least a second.
pub fn sample_interval(secs: u64) -> (r: u64)
    ensures
        r == if secs >= 1 {
            secs as int
        } else {
            1
        },
{
    if secs >= 1 {
        secs
    } else {
        1
    }
}

/// After how many samples the file is looked at: those of a minute, at least one.
pub fn compact_every_ticks(sample_interval_secs: u64) -> (n: u64)
    requires
        sample_interval_secs > 0,
    ensures
        n == if sample_interval_secs <= 60 {
            60int / sample_interval_secs as int
        } else {
            1
        },
        n >= 1,
{
    let n: u64 = 60 / sample_interval_secs;
    proof {
        if sample_interval_secs <= 60 {
            assert(60int / sample_interval_secs as int >= 1) by (nonlinear_arith)
                requires
                    0 < sample_interval_secs <= 60,
            ;
        } else {
            assert(60int / sample_interval_secs as int == 0) by (nonlinear_arith)
                requires
                    sample_interval_secs > 60,
            ;
        }
    }
    if n >= 1 {
        n
    } else {
        1
    }
}

/// Whether the file is looked at after the sample with the given number.
pub fn is_compaction_tick(tick: u64, every: u64) -> (r: bool)
    requires
        every > 0,
    ensures
        r == (tick as int % every as int == 0),
{
    tick % every == 0
}

/// Whether prices make a sample: none of them is zero or negative.
pub fn are_sampled(maker_bid: Double, maker_ask: Double, hl_bid: Double, hl_ask: Double) -> (r: bool)
    ensures
        ({
            let zero = Double::whole_number(0);
            r == !(maker_bid.at_most(zero) || maker_ask.at_most(zero) || hl_bid.at_most(zero)
                || hl_ask.at_most(zero))
        }),
{
    let zero = Double::whole(0);
    !(maker_bid.le(&zero) || maker_ask.le(&zero) || hl_bid.le(&zero) || hl_ask.le(&zero))
}

} // verus!
