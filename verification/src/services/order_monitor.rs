//! Watches the active order: an order that has become too old is replaced, and one
//! that has lost too much of its profit is cancelled.
use crate::bot::state;
use crate::bot::{BotState, BotStatus};
use crate::clock::{Moment, NANOS_PER_MILLISECOND, NANOS_PER_SECOND};
use crate::connector::maker::MakerOpenOrder;
use crate::double;
use crate::double::arithmetic;
use crate::double::laws;
use crate::double::Double;
use crate::strategy::OrderSide;
use crate::text;
use crate::util::rate_limit;
use crate::util::rate_limit::RateLimitTracker;
use vstd::arithmetic::power2::*;
use vstd::prelude::*;
use vstd::string::*;

verus! {

/// The bot's status without its message.
#[derive(Debug, Clone, Copy, PartialEq, Eq, Structural)]
pub enum AtomicBotStatus {
    Idle,
    OrderPlaced,
    Filled,
    Hedging,
    Complete,
    Error,
}

impl AtomicBotStatus {
    /// The status as a number.
    pub open spec fn number(self) -> int {
        match self {
            AtomicBotStatus::Idle => 0,
            AtomicBotStatus::OrderPlaced => 1,
            AtomicBotStatus::Filled => 2,
            AtomicBotStatus::Hedging => 3,
            AtomicBotStatus::Complete => 4,
            AtomicBotStatus::Error => 5,
        }
    }

    pub fn code(&self) -> (n: u8)
        ensures
            n == self.number(),
    {
        match self {
            AtomicBotStatus::Idle => 0,
            AtomicBotStatus::OrderPlaced => 1,
            AtomicBotStatus::Filled => 2,
            AtomicBotStatus::Hedging => 3,
            AtomicBotStatus::Complete => 4,
            AtomicBotStatus::Error => 5,
        }
    }

    pub open spec fn of(status: BotStatus) -> AtomicBotStatus {
        match status {
            BotStatus::Idle => AtomicBotStatus::Idle,
            BotStatus::OrderPlaced => AtomicBotStatus::OrderPlaced,
            BotStatus::Filled => AtomicBotStatus::Filled,
            BotStatus::Hedging => AtomicBotStatus::Hedging,
            BotStatus::Complete => AtomicBotStatus::Complete,
            BotStatus::Error(_) => AtomicBotStatus::Error,
        }
    }
}

impl From<&BotStatus> for AtomicBotStatus {
    fn from(status: &BotStatus) -> (r: AtomicBotStatus) {
        match status {
            BotStatus::Idle => AtomicBotStatus::Idle,
            BotStatus::OrderPlaced => AtomicBotStatus::OrderPlaced,
            BotStatus::Filled => AtomicBotStatus::Filled,
            BotStatus::Hedging => AtomicBotStatus::Hedging,
            BotStatus::Complete => AtomicBotStatus::Complete,
            BotStatus::Error(_) => AtomicBotStatus::Error,
        }
    }
}

impl vstd::std_specs::convert::FromSpecImpl<&BotStatus> for AtomicBotStatus {
    open spec fn obeys_from_spec() -> bool {
        true
    }

    open spec fn from_spec(status: &BotStatus) -> AtomicBotStatus {
        AtomicBotStatus::of(*status)
    }
}

/// What the monitor needs to know of an order.
#[derive(Debug)]
pub struct OrderSnapshot {
    pub client_order_id: String,
    pub side: OrderSide,
    pub price: Double,
    pub size: Double,
    pub initial_profit_bps: Double,
    pub placed_at: Moment,
    pub profit_cancel_threshold_bps: Double,
    pub order_refresh_interval_secs: u64,
}

#[verifier::ext_equal]
pub struct Snapshot {
    pub client_order_id: Seq<char>,
    pub side: OrderSide,
    pub price: Double,
    pub size: Double,
    pub initial_profit_bps: Double,
    pub placed_at: Moment,
    pub profit_cancel_threshold_bps: Double,
    pub order_refresh_interval_secs: u64,
}

impl View for OrderSnapshot {
    type V = Snapshot;

    open spec fn view(&self) -> Snapshot {
        Snapshot {
            client_order_id: self.client_order_id@,
            side: self.side,
            price: self.price,
            size: self.size,
            initial_profit_bps: self.initial_profit_bps,
            placed_at: self.placed_at,
            profit_cancel_threshold_bps: self.profit_cancel_threshold_bps,
            order_refresh_interval_secs: self.order_refresh_interval_secs,
        }
    }
}

impl Clone for OrderSnapshot {
    fn clone(&self) -> (r: OrderSnapshot)
        ensures
            r@ == self@,
    {
        OrderSnapshot {
            client_order_id: self.client_order_id.clone(),
            side: self.side,
            price: self.price,
            size: self.size,
            initial_profit_bps: self.initial_profit_bps,
            placed_at: self.placed_at,
            profit_cancel_threshold_bps: self.profit_cancel_threshold_bps,
            order_refresh_interval_secs: self.order_refresh_interval_secs,
        }
    }
}

pub open spec fn optional_snapshot(s: Option<OrderSnapshot>) -> Option<Snapshot> {
    match s {
        Some(x) => Some(x@),
        None => None,
    }
}

/// The snapshot of the active order, set by who places it.
#[derive(Debug)]
pub struct SharedOrderSnapshot {
    inner: Option<OrderSnapshot>,
}

impl View for SharedOrderSnapshot {
    type V = Option<Snapshot>;

    closed spec fn view(&self) -> Option<Snapshot> {
        optional_snapshot(self.inner)
    }
}

impl SharedOrderSnapshot {
    pub fn new() -> (s: SharedOrderSnapshot)
        ensures
            s@ is None,
    {
        SharedOrderSnapshot { inner: None }
    }

    /// A copy of the snapshot.
    pub fn get(&self) -> (r: Option<OrderSnapshot>)
        ensures
            optional_snapshot(r) == self@,
    {
        match &self.inner {
            Some(s) => Some(s.clone()),
            None => None,
        }
    }

    pub fn set(&mut self, snapshot: Option<OrderSnapshot>)
        ensures
            final(self)@ == optional_snapshot(snapshot),
    {
        self.inner = snapshot;
    }
}

/// Why an order has become too old.
#[derive(Debug, Clone, Copy, PartialEq, Eq, Structural)]
pub enum AgeReason {
    /// It has reached the age that none may pass, here in seconds.
    HardCap { cap_secs: u128, age_ms: u128, deviation_bps: Double },
    /// It is older than it should be, and its profit has moved too far.
    Threshold { threshold_secs: u64, age_ms: u128, deviation_bps: Double },
}

/// A request to cancel the active order.
#[derive(Debug)]
pub enum CancelRequest {
    AgeExpiry { symbol: String, reason: AgeReason, client_order_id: String, placed_at: Moment },
    ProfitDeviation {
        symbol: String,
        current_profit_bps: Double,
        deviation_bps: Double,
        client_order_id: String,
        placed_at: Moment,
    },
}

#[verifier::ext_equal]
pub enum Cancel {
    AgeExpiry {
        symbol: Seq<char>,
        reason: AgeReason,
        client_order_id: Seq<char>,
        placed_at: Moment,
    },
    ProfitDeviation {
        symbol: Seq<char>,
        current_profit_bps: Double,
        deviation_bps: Double,
        client_order_id: Seq<char>,
        placed_at: Moment,
    },
}

impl View for CancelRequest {
    type V = Cancel;

    open spec fn view(&self) -> Cancel {
        match self {
            CancelRequest::AgeExpiry { symbol, reason, client_order_id, placed_at } => {
                Cancel::AgeExpiry {
                    symbol: symbol@,
                    reason: *reason,
                    client_order_id: client_order_id@,
                    placed_at: *placed_at,
                }
            },
            CancelRequest::ProfitDeviation {
                symbol,
                current_profit_bps,
                deviation_bps,
                client_order_id,
                placed_at,
            } => {
                Cancel::ProfitDeviation {
                    symbol: symbol@,
                    current_profit_bps: *current_profit_bps,
                    deviation_bps: *deviation_bps,
                    client_order_id: client_order_id@,
                    placed_at: *placed_at,
                }
            },
        }
    }
}

impl Cancel {
    pub open spec fn symbol(self) -> Seq<char> {
        match self {
            Cancel::AgeExpiry { symbol, .. } => symbol,
            Cancel::ProfitDeviation { symbol, .. } => symbol,
        }
    }

    pub open spec fn client_order_id(self) -> Seq<char> {
        match self {
            Cancel::AgeExpiry { client_order_id, .. } => client_order_id,
            Cancel::ProfitDeviation { client_order_id, .. } => client_order_id,
        }
    }

    pub open spec fn placed_at(self) -> Moment {
        match self {
            Cancel::AgeExpiry { placed_at, .. } => placed_at,
            Cancel::ProfitDeviation { placed_at, .. } => placed_at,
        }
    }
}

impl CancelRequest {
    pub fn symbol(&self) -> (s: &str)
        ensures
            s@ == self@.symbol(),
    {
        match self {
            CancelRequest::AgeExpiry { symbol, .. } => symbol.as_str(),
            CancelRequest::ProfitDeviation { symbol, .. } => symbol.as_str(),
        }
    }

    pub fn client_order_id(&self) -> (s: &str)
        ensures
            s@ == self@.client_order_id(),
    {
        match self {
            CancelRequest::AgeExpiry { client_order_id, .. } => client_order_id.as_str(),
            CancelRequest::ProfitDeviation { client_order_id, .. } => client_order_id.as_str(),
        }
    }

    pub fn placed_at(&self) -> (m: Moment)
        ensures
            m == self@.placed_at(),
    {
        match self {
            CancelRequest::AgeExpiry { placed_at, .. } => *placed_at,
            CancelRequest::ProfitDeviation { placed_at, .. } => *placed_at,
        }
    }
}

/// How long an order that is too old is given before it is judged.
pub const AGE_DECISION_GRACE_SECS: u64 = 3;

/// How far past its threshold an order may grow old.
pub const AGE_HARD_CAP_EXTRA_SECS: u64 = 120;

/// How far the profit of an order that is too old may have moved, in basis points,
/// for the order to be left alone.
pub const KEEP_WAITING_DEVIATION_BPS: u32 = 10;

impl Snapshot {
    pub open spec fn age(self, now: Moment) -> int {
        now.nanos_since(self.placed_at)
    }

    pub open spec fn too_old(self, now: Moment) -> bool {
        self.age(now) > self.order_refresh_interval_secs * NANOS_PER_SECOND
    }

    pub open spec fn at_hard_cap(self, now: Moment) -> bool {
        self.age(now) >= (self.order_refresh_interval_secs + AGE_HARD_CAP_EXTRA_SECS)
            * NANOS_PER_SECOND
    }

    /// How much profit has been lost; negative where it has grown.
    pub open spec fn profit_drop(self, current_profit: Double) -> Double {
        self.initial_profit_bps.difference(current_profit)
    }

    /// How far the profit has moved in either direction.
    pub open spec fn deviation(self, current_profit: Double) -> Double {
        Double::signed(false, self.profit_drop(current_profit).magnitude())
    }

    pub open spec fn age_reason(self, current_profit: Double, now: Moment) -> AgeReason {
        let age_ms = (self.age(now) / NANOS_PER_MILLISECOND as int) as u128;
        if self.at_hard_cap(now) {
            AgeReason::HardCap {
                cap_secs: (self.order_refresh_interval_secs + AGE_HARD_CAP_EXTRA_SECS) as u128,
                age_ms,
                deviation_bps: self.deviation(current_profit),
            }
        } else {
            AgeReason::Threshold {
                threshold_secs: self.order_refresh_interval_secs,
                age_ms,
                deviation_bps: self.deviation(current_profit),
            }
        }
    }
}

/// What the monitor remembers from one look at the order to the next.
#[verifier::ext_equal]
pub struct Watch {
    /// The order that it looks at.
    pub watched: Option<Seq<char>>,
    /// When that order was first found too old.
    pub reached_at: Option<Moment>,
    /// Whether its cancellation for its age has been requested.
    pub age_cancel_sent: bool,
}

impl Watch {
    /// Looking at an order other than the last one, nothing is remembered of that.
    pub open spec fn tracking(self, id: Seq<char>) -> Watch {
        if self.watched == Some(id) {
            self
        } else {
            Watch { watched: Some(id), reached_at: None, age_cancel_sent: false }
        }
    }

    /// The order is too old, this has been so for the time of grace, no cancellation
    /// has been requested on that account, and its profit has moved or it is at the
    /// age that none may pass.
    pub open spec fn age_cancel_due(self, s: Snapshot, current_profit: Double, now: Moment) -> bool {
        let since = match self.reached_at {
            Some(m) => m,
            None => now,
        };
        &&& s.too_old(now)
        &&& !self.age_cancel_sent
        &&& now.past_secs(since, AGE_DECISION_GRACE_SECS as int)
        &&& (s.at_hard_cap(now) || !s.deviation(current_profit).at_most(
            Double::whole_number(KEEP_WAITING_DEVIATION_BPS as int),
        ))
    }

    /// The order is not too old, and has lost more profit than it may.
    pub open spec fn profit_cancel_due(self, s: Snapshot, current_profit: Double, now: Moment) -> bool {
        !s.too_old(now) && s.profit_cancel_threshold_bps.below(s.profit_drop(current_profit))
    }

    /// What is asked for after a look at the order.
    pub open spec fn request(
        self,
        symbol: Seq<char>,
        s: Snapshot,
        current_profit: Double,
        now: Moment,
    ) -> Option<Cancel> {
        if self.age_cancel_due(s, current_profit, now) {
            Some(
                Cancel::AgeExpiry {
                    symbol,
                    reason: s.age_reason(current_profit, now),
                    client_order_id: s.client_order_id,
                    placed_at: s.placed_at,
                },
            )
        } else if self.profit_cancel_due(s, current_profit, now) {
            Some(
                Cancel::ProfitDeviation {
                    symbol,
                    current_profit_bps: current_profit,
                    deviation_bps: s.profit_drop(current_profit),
                    client_order_id: s.client_order_id,
                    placed_at: s.placed_at,
                },
            )
        } else {
            None
        }
    }

    /// What is remembered after a look at the order.
    pub open spec fn judged(self, s: Snapshot, current_profit: Double, now: Moment) -> Watch {
        if s.too_old(now) {
            Watch {
                reached_at: match self.reached_at {
                    Some(m) => Some(m),
                    None => Some(now),
                },
                age_cancel_sent: self.age_cancel_sent || self.age_cancel_due(
                    s,
                    current_profit,
                    now,
                ),
                ..self
            }
        } else {
            Watch { reached_at: None, ..self }
        }
    }

    /// An order past its refresh interval, which was found so at least 3 seconds ago and for
    /// which no cancellation was requested, is cancelled for its age exactly where it is
    /// 120 seconds past the interval, or its profit differs from the initial one by more
    /// than 10 basis points in either direction. In exact numbers: it is left alone where
    /// the two differ by 10 or less, and cancelled where they differ by more than 10 and
    /// 2^-53 of the difference.
    pub proof fn law_old_orders_are_cancelled(
        self,
        symbol: Seq<char>,
        s: Snapshot,
        current_profit: Double,
        now: Moment,
        since: Moment,
    )
        requires
            s.initial_profit_bps.finite(),
            current_profit.finite(),
            now.nanos > s.placed_at.nanos + s.order_refresh_interval_secs * 1_000_000_000,
            self.reached_at == Some(since),
            now.nanos >= since.nanos + 3_000_000_000,
            !self.age_cancel_sent,
        ensures
            ({
                let (initial, current) = (s.initial_profit_bps, current_profit);
                let at_cap = now.nanos >= s.placed_at.nanos + (s.order_refresh_interval_secs + 120)
                    * 1_000_000_000;
                let off = laws::distance(initial.amount(), current.amount());
                let limit = 10 * double::one();
                let r = self.request(symbol, s, current, now);
                &&& r is Some <==> {
                    ||| at_cap
                    ||| Double::whole_number(10).below(initial.difference(current))
                    ||| Double::whole_number(10).below(current.difference(initial))
                }
                &&& r is Some ==> r->0 is AgeExpiry
                &&& off <= limit && !at_cap ==> r is None
                &&& off * (pow2(53) - 1) > limit * pow2(53) ==> r is Some
            }),
    {
        let (i, c) = (s.initial_profit_bps, current_profit);
        let t = i.amount() - c.amount();
        laws::lemma_two_sided(i, c);
        laws::law_difference_is_near(i, c);
        let d = i.difference(c);
        double::lemma_units_order(d.magnitude(), 0);
        arithmetic::lemma_whole_exact(10);
        let ten = Double::whole_number(10);
        let off = laws::distance(i.amount(), c.amount());
        let limit = 10 * double::one();
        let o = c.opposite();
        assert(o.finite() && o.amount() == -c.amount());
        laws::lemma_sum_rounds_once(i, o);
        laws::lemma_rounds_to_itself(ten);
        laws::lemma_rounds_to_itself(ten.opposite());
        if off <= limit {
            arithmetic::lemma_nearest_order(t, limit, 1);
            arithmetic::lemma_nearest_order(-limit, t, 1);
        }
        let p = pow2(53) as int;
        lemma_pow2_pos(53);
        double::lemma_units_order(double::INFINITY as int, 0);
        double::lemma_units_order(double::INFINITY as int, ten.magnitude());
        double::lemma_units_order(ten.magnitude(), double::INFINITY as int);
        if off * (p - 1) > limit * p {
            if d.finite() {
                let a = laws::distance(d.amount(), 0);
                assert(a > limit) by (nonlinear_arith)
                    requires
                        off * (p - 1) > limit * p,
                        laws::distance(d.amount(), t) * p <= off,
                        off == laws::distance(t, 0),
                        a == laws::distance(d.amount(), 0),
                        p > 0,
                ;
            }
        }
    }

    /// No order is cancelled for its age up to its refresh interval, within 3 seconds of
    /// having been found past it, or twice.
    pub proof fn law_young_orders_stay(
        self,
        symbol: Seq<char>,
        s: Snapshot,
        current_profit: Double,
        now: Moment,
    )
        requires
            ({
                ||| now.nanos <= s.placed_at.nanos + s.order_refresh_interval_secs * 1_000_000_000
                ||| self.reached_at is None
                ||| now.nanos < self.reached_at->0.nanos + 3_000_000_000
                ||| self.age_cancel_sent
            }),
        ensures
            !(self.request(symbol, s, current_profit, now) matches Some(Cancel::AgeExpiry { .. })),
    {
    }

    /// Up to its refresh interval an order is cancelled for its profit exactly where the
    /// initial one exceeds the present one by more than the threshold; past it never.
    pub proof fn law_lost_profit_cancels(
        self,
        symbol: Seq<char>,
        s: Snapshot,
        current_profit: Double,
        now: Moment,
    )
        ensures
            ({
                let young = now.nanos <= s.placed_at.nanos + s.order_refresh_interval_secs
                    * 1_000_000_000;
                let lost = s.initial_profit_bps.difference(current_profit);
                let r = self.request(symbol, s, current_profit, now);
                &&& (r is Some && r->0 is ProfitDeviation) <==> young
                    && s.profit_cancel_threshold_bps.below(lost)
                &&& self.request(symbol, s, current_profit, now) matches Some(
                    Cancel::ProfitDeviation { current_profit_bps, deviation_bps, .. },
                ) ==> current_profit_bps == current_profit && deviation_bps == lost
                &&& s.initial_profit_bps.at_most(current_profit)
                    && s.profit_cancel_threshold_bps.non_negative()
                    && s.initial_profit_bps.finite() && current_profit.finite() ==> !(self.request(
                    symbol,
                    s,
                    current_profit,
                    now,
                ) matches Some(Cancel::ProfitDeviation { .. }))
            }),
    {
        if s.initial_profit_bps.finite() && current_profit.finite() {
            laws::law_difference_is_near(s.initial_profit_bps, current_profit);
        }
    }

    /// The reason of a cancellation for age: the hard cap exactly where it is reached, the
    /// age in whole milliseconds, and how far the two profits lie apart, whichever is the
    /// larger one.
    pub proof fn law_age_reasons(s: Snapshot, current_profit: Double, now: Moment)
        requires
            s.initial_profit_bps.finite(),
            current_profit.finite(),
            s.placed_at.nanos <= now.nanos,
        ensures
            ({
                let (initial, current) = (s.initial_profit_bps, current_profit);
                let apart = if current.at_most(initial) {
                    initial.difference(current).amount()
                } else {
                    current.difference(initial).amount()
                };
                let age = (now.nanos - s.placed_at.nanos) as int;
                match s.age_reason(current_profit, now) {
                    AgeReason::HardCap { cap_secs, age_ms, deviation_bps } => {
                        &&& cap_secs == s.order_refresh_interval_secs + 120
                        &&& age >= cap_secs * 1_000_000_000
                        &&& age_ms * 1_000_000 <= age < (age_ms + 1) * 1_000_000
                        &&& deviation_bps.amount() == apart
                    },
                    AgeReason::Threshold { threshold_secs, age_ms, deviation_bps } => {
                        &&& threshold_secs == s.order_refresh_interval_secs
                        &&& age < (threshold_secs + 120) * 1_000_000_000
                        &&& age_ms * 1_000_000 <= age < (age_ms + 1) * 1_000_000
                        &&& deviation_bps.amount() == apart
                    },
                }
            }),
    {
        let (i, c) = (s.initial_profit_bps, current_profit);
        laws::lemma_two_sided(i, c);
        laws::law_difference_is_near(i, c);
        double::lemma_units_order(i.difference(c).magnitude(), 0);
    }

    /// The monitor remembers when it first found the order past its interval, forgets it
    /// where it is not, and turns to another order without any of that.
    pub proof fn law_monitor_memory(
        self,
        s: Snapshot,
        current_profit: Double,
        now: Moment,
        id: Seq<char>,
    )
        ensures
            ({
                let after = self.judged(s, current_profit, now);
                let old = now.nanos > s.placed_at.nanos + s.order_refresh_interval_secs
                    * 1_000_000_000;
                &&& old && self.reached_at is None ==> after.reached_at == Some(now)
                &&& old && self.reached_at is Some ==> after.reached_at == self.reached_at
                &&& !old ==> after.reached_at is None && after.age_cancel_sent
                    == self.age_cancel_sent
                &&& after.watched == self.watched
                &&& self.tracking(id).watched == Some(id)
                &&& self.watched != Some(id) ==> self.tracking(id).reached_at is None
                    && !self.tracking(id).age_cancel_sent
                &&& self.watched == Some(id) ==> self.tracking(id) == self
            }),
    {
    }

    /// An order is cancelled for its age once at most: after the request the monitor
    /// remembers it, and while it does there is no other.
    pub proof fn law_one_age_cancel(
        self,
        symbol: Seq<char>,
        s: Snapshot,
        current_profit: Double,
        now: Moment,
    )
        ensures
            self.request(symbol, s, current_profit, now) is Some && self.request(
                symbol,
                s,
                current_profit,
                now,
            )->0 is AgeExpiry ==> self.judged(s, current_profit, now).age_cancel_sent,
            self.age_cancel_sent ==> self.judged(s, current_profit, now).age_cancel_sent,
            self.age_cancel_sent ==> !(self.request(symbol, s, current_profit, now) matches Some(
                Cancel::AgeExpiry { .. },
            )),
            self.judged(s, current_profit, now).watched == self.watched,
            self.watched == Some(s.client_order_id) ==> self.tracking(s.client_order_id) == self,
    {
    }

    /// No order is cancelled for its age before the time of grace has passed since it
    /// was found too old, and none whose profit has hardly moved before the last moment.
    pub proof fn law_age_cancel_is_late(
        self,
        symbol: Seq<char>,
        s: Snapshot,
        current_profit: Double,
        now: Moment,
    )
        requires
            self.request(symbol, s, current_profit, now) matches Some(Cancel::AgeExpiry { .. }),
        ensures
            s.too_old(now),
            self.reached_at matches Some(since) && now.past_secs(
                since,
                AGE_DECISION_GRACE_SECS as int,
            ),
            s.deviation(current_profit).at_most(
                Double::whole_number(KEEP_WAITING_DEVIATION_BPS as int),
            ) ==> s.at_hard_cap(now),
    {
    }

    /// An order whose profit has not dropped is never cancelled for its profit.
    pub proof fn law_better_profit_is_kept(
        self,
        symbol: Seq<char>,
        s: Snapshot,
        current_profit: Double,
        now: Moment,
    )
        requires
            s.profit_cancel_threshold_bps.non_negative(),
            !s.profit_drop(current_profit).positive(),
        ensures
            !(self.request(symbol, s, current_profit, now) matches Some(
                Cancel::ProfitDeviation { .. },
            )),
    {
    }

    /// A request is always about the order that was looked at.
    pub proof fn law_request_names_the_order(
        self,
        symbol: Seq<char>,
        s: Snapshot,
        current_profit: Double,
        now: Moment,
    )
        ensures
            self.request(symbol, s, current_profit, now) matches Some(c) ==> c.client_order_id()
                == s.client_order_id && c.placed_at() == s.placed_at && c.symbol() == symbol,
    {
    }
}

/// The monitor of the active order.
#[derive(Debug)]
pub struct OrderMonitor {
    tracked_client_order_id: Option<String>,
    age_threshold_reached_at: Option<Moment>,
    age_cancel_sent_for_current_order: bool,
}

impl View for OrderMonitor {
    type V = Watch;

    closed spec fn view(&self) -> Watch {
        Watch {
            watched: text::optional_text(self.tracked_client_order_id),
            reached_at: self.age_threshold_reached_at,
            age_cancel_sent: self.age_cancel_sent_for_current_order,
        }
    }
}

/// There is something to judge: an order has been placed and is known, and the hedge
/// exchange has prices.
pub open spec fn worth_a_look(
    status: u8,
    snapshot: Option<Snapshot>,
    hl_bid: Double,
    hl_ask: Double,
) -> bool {
    &&& status == AtomicBotStatus::OrderPlaced.number()
    &&& snapshot is Some
    &&& !is_missing(hl_bid)
    &&& !is_missing(hl_ask)
}

/// A price of zero stands for none.
pub open spec fn is_missing(price: Double) -> bool {
    !price.nan() && price.amount() == 0
}

impl OrderMonitor {
    pub fn new() -> (m: OrderMonitor)
        ensures
            m@ == (Watch { watched: None, reached_at: None, age_cancel_sent: false }),
    {
        OrderMonitor {
            tracked_client_order_id: None,
            age_threshold_reached_at: None,
            age_cancel_sent_for_current_order: false,
        }
    }

    /// Turns to the order, and says whether there is something to judge.
    pub fn turn_to(
        &mut self,
        status: u8,
        snapshot: &Option<OrderSnapshot>,
        hl_bid: Double,
        hl_ask: Double,
    ) -> (r: bool)
        ensures
            r == worth_a_look(status, optional_snapshot(*snapshot), hl_bid, hl_ask),
            final(self)@ == (if status == AtomicBotStatus::OrderPlaced.number()
                && snapshot is Some {
                old(self)@.tracking(snapshot->0@.client_order_id)
            } else {
                old(self)@
            }),
    {
        if status != AtomicBotStatus::OrderPlaced.code() {
            return false;
        }
        match snapshot {
            None => false,
            Some(s) => {
                let known = match &self.tracked_client_order_id {
                    Some(id) => text::same(id.as_str(), s.client_order_id.as_str()),
                    None => false,
                };
                if !known {
                    self.tracked_client_order_id = Some(s.client_order_id.clone());
                    self.age_threshold_reached_at = None;
                    self.age_cancel_sent_for_current_order = false;
                }
                !hl_bid.is_zero() && !hl_ask.is_zero()
            },
        }
    }

    /// Judges the order at `now`, when it would earn `current_profit`.
    pub fn judge(
        &mut self,
        symbol: &str,
        snapshot: &OrderSnapshot,
        current_profit: Double,
        now: Moment,
    ) -> (r: Option<CancelRequest>)
        ensures
            final(self)@ == old(self)@.judged(snapshot@, current_profit, now),
            r is Some <==> old(self)@.request(symbol@, snapshot@, current_profit, now) is Some,
            r matches Some(c) ==> old(self)@.request(symbol@, snapshot@, current_profit, now)
                == Some(c@),
    {
        let age = now.since(&snapshot.placed_at);
        let profit_drop = snapshot.initial_profit_bps.minus(&current_profit);
        let threshold: u128 = snapshot.order_refresh_interval_secs as u128 * NANOS_PER_SECOND;
        if age > threshold {
            let since = match self.age_threshold_reached_at {
                Some(m) => m,
                None => now,
            };
            self.age_threshold_reached_at = Some(since);
            let deviation = profit_drop.abs();
            let cap_secs: u128 = snapshot.order_refresh_interval_secs as u128
                + AGE_HARD_CAP_EXTRA_SECS as u128;
            let hit_hard_cap = age >= cap_secs * NANOS_PER_SECOND;
            if self.age_cancel_sent_for_current_order {
                return None;
            }
            if !now.has_passed(&since, AGE_DECISION_GRACE_SECS) {
                return None;
            }
            if deviation.le(&Double::whole(KEEP_WAITING_DEVIATION_BPS)) && !hit_hard_cap {
                return None;
            }
            let age_ms: u128 = now.millis_since(&snapshot.placed_at);
            let reason = if hit_hard_cap {
                AgeReason::HardCap { cap_secs, age_ms, deviation_bps: deviation }
            } else {
                AgeReason::Threshold {
                    threshold_secs: snapshot.order_refresh_interval_secs,
                    age_ms,
                    deviation_bps: deviation,
                }
            };
            self.age_cancel_sent_for_current_order = true;
            return Some(
                CancelRequest::AgeExpiry {
                    symbol: symbol.to_owned(),
                    reason,
                    client_order_id: snapshot.client_order_id.clone(),
                    placed_at: snapshot.placed_at,
                },
            );
        }
        self.age_threshold_reached_at = None;
        if profit_drop.gt(&snapshot.profit_cancel_threshold_bps) {
            return Some(
                CancelRequest::ProfitDeviation {
                    symbol: symbol.to_owned(),
                    current_profit_bps: current_profit,
                    deviation_bps: profit_drop,
                    client_order_id: snapshot.client_order_id.clone(),
                    placed_at: snapshot.placed_at,
                },
            );
        }
        None
    }
}

/// What to do with a request to cancel.
#[derive(Debug, Clone, Copy, PartialEq, Eq, Structural)]
pub enum CancelStep {
    /// Nothing: the exchange has asked for fewer calls.
    BackingOff,
    /// Nothing: no order rests on the exchange any more.
    StatusChanged,
    /// Nothing: no order is known.
    NoOrder,
    /// Nothing: the request is about an earlier order.
    Stale,
    /// Look for fills, then cancel.
    CheckFills,
}

/// What looking for fills has found.
#[derive(Debug)]
pub enum FillCheckResult {
    HasFills(Double),
    NoFills,
    NotFound,
    CheckFailed(String),
}

/// The request is about the order of the snapshot.
pub open spec fn is_about(request: Cancel, s: Snapshot) -> bool {
    request.client_order_id() == s.client_order_id && request.placed_at() == s.placed_at
}

/// The handler of requests to cancel.
#[derive(Debug)]
pub struct CancellationHandler {
    pub rate_limit: RateLimitTracker,
}

impl CancellationHandler {
    pub fn new() -> (h: CancellationHandler)
        ensures
            h.rate_limit.errors() == 0,
            h.rate_limit.last_error() is None,
    {
        CancellationHandler { rate_limit: RateLimitTracker::new() }
    }

    /// What to do with a request that is taken up at `now`.
    pub open spec fn step(
        self,
        now: Moment,
        status: u8,
        current: Option<Snapshot>,
        request: Cancel,
    ) -> CancelStep {
        if self.rate_limit.nanos_left(now) > 0 {
            CancelStep::BackingOff
        } else if status != AtomicBotStatus::OrderPlaced.number() {
            CancelStep::StatusChanged
        } else {
            match current {
                None => CancelStep::NoOrder,
                Some(s) => if is_about(request, s) {
                    CancelStep::CheckFills
                } else {
                    CancelStep::Stale
                },
            }
        }
    }

    /// A request is followed only while the exchange asks for no pause, an order rests on
    /// it, and that order is the one of the request: by its id and by when it was placed.
    pub proof fn law_requests_are_checked(
        self,
        now: Moment,
        status: u8,
        current: Option<Snapshot>,
        request: Cancel,
    )
        ensures
            self.step(now, status, current, request) == CancelStep::CheckFills <==> {
                &&& self.rate_limit.nanos_left(now) == 0
                &&& status == 1
                &&& current is Some
                &&& match request {
                    Cancel::AgeExpiry { client_order_id, placed_at, .. } => client_order_id
                        == current->0.client_order_id && placed_at == current->0.placed_at,
                    Cancel::ProfitDeviation { client_order_id, placed_at, .. } => client_order_id
                        == current->0.client_order_id && placed_at == current->0.placed_at,
                }
            },
    {
    }

    pub fn take_up(
        &self,
        now: Moment,
        status: u8,
        current: &Option<OrderSnapshot>,
        request: &CancelRequest,
    ) -> (r: CancelStep)
        ensures
            r == self.step(now, status, optional_snapshot(*current), request@),
    {
        if self.rate_limit.should_skip_at(now) {
            return CancelStep::BackingOff;
        }
        if status != AtomicBotStatus::OrderPlaced.code() {
            return CancelStep::StatusChanged;
        }
        match current {
            None => CancelStep::NoOrder,
            Some(s) => if text::same(s.client_order_id.as_str(), request.client_order_id())
                && s.placed_at == request.placed_at() {
                CancelStep::CheckFills
            } else {
                CancelStep::Stale
            },
        }
    }

    /// The orders have been cancelled at `now`: if the order of the request is still
    /// the active one, it is dropped and the bot is idle. Says whether that was so.
    pub fn cancelled(
        &mut self,
        bot: &mut BotState,
        status: &mut u8,
        snapshot: &mut SharedOrderSnapshot,
        request: &CancelRequest,
        now: Moment,
    ) -> (r: bool)
        requires
            old(bot).wf(),
        ensures
            final(self).rate_limit.errors() == 0,
            final(self).rate_limit.last_error() is None,
            final(self).rate_limit.clock() == old(self).rate_limit.clock(),
            final(bot).wf(),
            r == holds_order(old(bot)@, request@.client_order_id()),
            r ==> final(bot)@ == released(old(bot)@, request@.symbol(), now) && *final(status)
                == AtomicBotStatus::Idle.number() && final(snapshot)@ is None,
            !r ==> *final(bot) == *old(bot) && *final(status) == *old(status)
                && *final(snapshot) == *old(snapshot),
    {
        self.rate_limit.record_success();
        let active = match &bot.active_order {
            Some(o) => text::same(o.client_order_id.as_str(), request.client_order_id()),
            None => false,
        };
        if matches!(bot.status, BotStatus::OrderPlaced) && active {
            bot.mark_cancel_requested_for_symbol(request.symbol());
            bot.clear_active_order_at(now);
            *status = AtomicBotStatus::Idle.code();
            snapshot.set(None);
            true
        } else {
            false
        }
    }

    /// The cancellation failed at `now` with the given message. Says whether the
    /// exchange asks for fewer calls.
    pub fn failed(&mut self, message: &str, now: Moment) -> (limited: bool)
        requires
            old(self).rate_limit.errors() < u32::MAX,
        ensures
            limited == rate_limit::speaks_of_rate_limit(text::lowercase_of(message@)),
            limited ==> final(self).rate_limit.errors() == old(self).rate_limit.errors() + 1
                && final(self).rate_limit.last_error() == Some(now)
                && final(self).rate_limit.clock() == old(self).rate_limit.clock(),
            !limited ==> *final(self) == *old(self),
    {
        let limited = rate_limit::is_rate_limit_error(message);
        if limited {
            self.rate_limit.record_error_at(now);
        }
        limited
    }
}

/// Nothing is judged unless the status is that of a placed order, the order is known and
/// both prices are there; a price is missing where it is zero.
pub proof fn law_what_is_looked_at(
    status: u8,
    snapshot: Option<Snapshot>,
    hl_bid: Double,
    hl_ask: Double,
)
    requires
        !hl_bid.nan(),
        !hl_ask.nan(),
    ensures
        worth_a_look(status, snapshot, hl_bid, hl_ask) <==> status == 1 && snapshot is Some
            && hl_bid.amount() != 0 && hl_ask.amount() != 0,
{
}

/// The number of a status is the one that the bot knows it by.
pub proof fn law_numbers_are_the_codes(status: BotStatus)
    ensures
        AtomicBotStatus::of(status).number() == status@.code(),
{
}

/// An order is given up only where it is the one that the bot has placed last and waits
/// for, by its id.
pub proof fn law_held_orders(bot: state::Bot, client_order_id: Seq<char>)
    ensures
        holds_order(bot, client_order_id) ==> bot.active_order is Some
            && bot.active_order->0.client_order_id == client_order_id && bot.status is OrderPlaced,
        bot.active_order is Some && bot.status is OrderPlaced ==> holds_order(
            bot,
            bot.active_order->0.client_order_id,
        ),
{
}

/// The bot has placed the order and holds it still.
pub open spec fn holds_order(bot: state::Bot, client_order_id: Seq<char>) -> bool {
    bot.status == state::Status::OrderPlaced && bot.active_order is Some
        && bot.active_order->0.client_order_id == client_order_id
}

/// The bot without its active order, the cancellation of the symbol's orders noted.
pub open spec fn released(bot: state::Bot, symbol: Seq<char>, now: Moment) -> state::Bot {
    state::Bot {
        pending_orders: state::cancel_marked(bot.pending_orders, symbol),
        ..bot.cleared(now)
    }
}

/// A bot that has given up its order is idle, and the order is still pending, with its
/// cancellation noted.
pub proof fn law_released_order_stays_pending(
    bot: state::Bot,
    symbol: Seq<char>,
    now: Moment,
    client: Option<Seq<char>>,
    exchange: Option<Seq<char>>,
)
    ensures
        released(bot, symbol, now).status == state::Status::Idle,
        released(bot, symbol, now).active_order is None,
        bot.find(client, exchange) matches Some(p) ==> {
            &&& released(bot, symbol, now).find(client, exchange) matches Some(q)
            &&& q.order == p.order
            &&& q.cancel_requested == (p.cancel_requested || p.is_for(symbol))
        },
{
    let marked = state::cancel_marked(bot.pending_orders, symbol);
    state::lemma_place_of(bot.pending_orders, client, exchange);
    let k = state::place_of(bot.pending_orders, client, exchange);
    assert forall|i: int| 0 <= i < k implies !(#[trigger] marked[i]).has_id(client, exchange) by {
        assert(!bot.pending_orders[i].has_id(client, exchange));
    }
    if k < marked.len() {
        assert(bot.pending_orders[k].has_id(client, exchange));
    }
    state::lemma_place_unique(marked, client, exchange, k);
}

/// Whether what has been found allows to cancel. A failed look does: an order left
/// behind would be worse.
pub fn may_cancel(found: &FillCheckResult) -> (r: bool)
    ensures
        r == (found is NoFills || found is CheckFailed),
{
    match found {
        FillCheckResult::NoFills => true,
        FillCheckResult::CheckFailed(_) => true,
        _ => false,
    }
}

/// The first of the orders with the given id.
pub open spec fn first_with_id(orders: Seq<MakerOpenOrder>, id: Seq<char>) -> Option<MakerOpenOrder>
    decreases orders.len(),
{
    if orders.len() == 0 {
        None
    } else if orders[0].client_order_id@ == id {
        Some(orders[0])
    } else {
        first_with_id(orders.drop_first(), id)
    }
}

/// What is found has the id and is one of the orders; where nothing is found, none has it.
pub proof fn law_first_with_id(orders: Seq<MakerOpenOrder>, id: Seq<char>)
    ensures
        match first_with_id(orders, id) {
            Some(o) => o.client_order_id@ == id && orders.contains(o),
            None => forall|i: int|
                0 <= i < orders.len() ==> (#[trigger] orders[i]).client_order_id@ != id,
        },
    decreases orders.len(),
{
    if orders.len() > 0 {
        let rest = orders.drop_first();
        assert(orders.contains(orders[0]));
        if orders[0].client_order_id@ != id {
            law_first_with_id(rest, id);
            match first_with_id(rest, id) {
                Some(o) => {
                    let i = choose|i: int| 0 <= i < rest.len() && rest[i] == o;
                    assert(orders[i + 1] == o);
                },
                None => {
                    assert forall|i: int| 0 <= i < orders.len() implies (
                    #[trigger] orders[i]).client_order_id@ != id by {
                        if i > 0 {
                            assert(rest[i - 1] == orders[i]);
                        }
                    }
                },
            }
        }
    }
}

/// Looks for fills of an order among the orders that rest on the exchange, or in
/// the message of the failure to list them.
pub fn check_for_fills(listed: &Result<Vec<MakerOpenOrder>, String>, client_order_id: &str) -> (r:
    FillCheckResult)
    ensures
        match listed {
            Err(e) => r is CheckFailed && r->CheckFailed_0@ == e@,
            Ok(orders) => match first_with_id(orders@, client_order_id@) {
                None => r is NotFound,
                Some(o) => if o.filled_amount.positive() {
                    r is HasFills && r->HasFills_0 == o.filled_amount
                } else {
                    r is NoFills
                },
            },
        },
{
    match listed {
        Err(e) => FillCheckResult::CheckFailed(e.clone()),
        Ok(orders) => {
            let mut i: usize = 0;
            assert(orders@.skip(0) =~= orders@);
            while i < orders.len()
                invariant
                    i <= orders@.len(),
                    first_with_id(orders@, client_order_id@) == first_with_id(
                        orders@.skip(i as int),
                        client_order_id@,
                    ),
                    listed == Ok::<Vec<MakerOpenOrder>, String>(*orders),
                decreases orders@.len() - i,
            {
                assert(orders@.skip(i as int)[0] == orders@[i as int]);
                assert(orders@.skip(i as int).drop_first() =~= orders@.skip(i + 1));
                if text::same(orders[i].client_order_id.as_str(), client_order_id) {
                    let filled = orders[i].filled_amount;
                    return if filled.is_positive() {
                        FillCheckResult::HasFills(filled)
                    } else {
                        FillCheckResult::NoFills
                    };
                }
                i = i + 1;
            }
            FillCheckResult::NotFound
        },
    }
}

/// The price at which a fill on the given side would be hedged.
pub fn hedge_price(side: OrderSide, hl_bid: Double, hl_ask: Double) -> (d: Double)
    ensures
        d == match side {
            OrderSide::Buy => hl_bid,
            OrderSide::Sell => hl_ask,
        },
{
    match side {
        OrderSide::Buy => hl_bid,
        OrderSide::Sell => hl_ask,
    }
}

/// How much the profit has changed since the order was placed.
pub fn profit_change(snapshot: &OrderSnapshot, current_profit: Double) -> (d: Double)
    ensures
        d == current_profit.difference(snapshot.initial_profit_bps),
{
    current_profit.minus(&snapshot.initial_profit_bps)
}

/// Keeps the number in step with the status.
pub fn sync_atomic_status(atomic: &mut u8, status: &BotStatus)
    ensures
        *final(atomic) == AtomicBotStatus::of(*status).number(),
        *final(atomic) == status@.code(),
{
    let s = AtomicBotStatus::from(status);
    *atomic = s.code();
}

/// Sets the snapshot of an order that has just been placed.
pub fn update_order_snapshot(
    snapshot: &mut SharedOrderSnapshot,
    client_order_id: String,
    side: OrderSide,
    price: Double,
    size: Double,
    initial_profit_bps: Double,
    placed_at: Moment,
    profit_cancel_threshold_bps: Double,
    order_refresh_interval_secs: u64,
)
    ensures
        final(snapshot)@ == Some(
            Snapshot {
                client_order_id: client_order_id@,
                side,
                price,
                size,
                initial_profit_bps,
                placed_at,
                profit_cancel_threshold_bps,
                order_refresh_interval_secs,
            },
        ),
{
    snapshot.set(
        Some(
            OrderSnapshot {
                client_order_id,
                side,
                price,
                size,
                initial_profit_bps,
                placed_at,
                profit_cancel_threshold_bps,
                order_refresh_interval_secs,
            },
        ),
    );
}

} // verus!
