//! The decisions of the main loop: when to look for an opportunity, what a quote
//! means, what follows from an order that was placed or refused, and how positions
//! are flattened when an event is over.
use crate::audit_logger;
use crate::audit_logger::OrderRecord;
use crate::bot::state;
use crate::bot::{ActiveOrder, BotState, BotStatus};
use crate::clock::{Clock, Moment, UtcTime, NANOS_PER_SECOND};
use crate::config::{Config, ConfigError, ModeTradingConfig, StrategyMode};
use crate::connector::maker;
use crate::connector::maker::{
    MakerExchangeKind, MakerOrderData, MakerOrderSide, MakerPosition,
};
use crate::double;
use crate::double::laws;
use crate::double::Double;
use crate::services::order_monitor;
use crate::services::order_monitor::{
    sync_atomic_status, update_order_snapshot, AtomicBotStatus, SharedOrderSnapshot,
};
use crate::strategy;
use crate::strategy::regime::Regime;
use crate::strategy::{EntryProfile, OrderSide, RegimeController, RegimeDecision, RegimeSettings};
use crate::text;
use crate::util::rate_limit;
use crate::util::rate_limit::RateLimitTracker;
use vstd::arithmetic::power2::*;
use vstd::prelude::*;
use vstd::string::*;

verus! {

/// A position at some time.
#[derive(Debug)]
pub struct PositionSnapshot {
    pub amount: Double,
    /// "bid" or "ask".
    pub side: String,
    pub last_check: Moment,
}

/// The message, in lower case, tells that an order would not have been a maker order.
pub open spec fn speaks_of_post_only(lowered: Seq<char>) -> bool {
    ||| text::occurs(lowered, "-5022"@)
    ||| text::occurs(lowered, "post only"@)
    ||| text::occurs(lowered, "post-only"@)
    ||| text::occurs(lowered, "executed as maker"@)
}

/// Whether an error message tells that an order would not have been a maker order.
pub fn is_post_only_reject_error(error: &str) -> (r: bool)
    ensures
        r == speaks_of_post_only(text::lower(error@)),
{
    let lowered = text::to_ascii_lowercase(error);
    let s = lowered.as_str();
    text::contains(s, "-5022") || text::contains(s, "post only") || text::contains(s, "post-only")
        || text::contains(s, "executed as maker")
}

pub fn maker_side_to_strategy_side(side: MakerOrderSide) -> (r: OrderSide)
    ensures
        MakerOrderSide::of(r) == side,
{
    match side {
        MakerOrderSide::Buy => OrderSide::Buy,
        MakerOrderSide::Sell => OrderSide::Sell,
    }
}

/// What the bot starts with.
#[derive(Debug)]
pub struct Startup {
    pub maker_symbol: String,
    pub hedge_symbol: String,
    pub maker_kind: MakerExchangeKind,
    pub normal_mode: ModeTradingConfig,
    pub event_mode: ModeTradingConfig,
}

impl Startup {
    /// The settings by which orders of the given profile are placed and watched.
    pub fn mode(&self, profile: EntryProfile) -> (m: ModeTradingConfig)
        ensures
            m == match profile {
                EntryProfile::Normal => self.normal_mode,
                EntryProfile::Event => self.event_mode,
            },
    {
        match profile {
            EntryProfile::Normal => self.normal_mode,
            EntryProfile::Event => self.event_mode,
        }
    }
}

/// Checks the settings and takes out of them what the bot starts with.
pub fn start_up(config: &Config) -> (r: Result<Startup, ConfigError>)
    ensures
        r is Ok <==> config.valid(),
        r matches Err(e) ==> config.violates(e) && forall|f: ConfigError|
            #[trigger] config.violates(f) ==> f.rank() >= e.rank(),
        r matches Ok(s) ==> {
            &&& s.maker_symbol@ == config.maker_symbol_text()
            &&& s.hedge_symbol@ == config.hedge_symbol_text()
            &&& config.maker() == Some(s.maker_kind)
            &&& s.normal_mode == config.normal_profile()
            &&& s.event_mode == config.event_profile()
        },
{
    match config.validate() {
        Err(e) => Err(e),
        Ok(_) => {
            proof {
                config.law_valid_is_complete();
            }
            Ok(
                Startup {
                    maker_symbol: config.maker_symbol_str().to_owned(),
                    hedge_symbol: config.hedge_symbol_str().to_owned(),
                    maker_kind: config.maker_kind().unwrap(),
                    normal_mode: config.normal_mode_config(),
                    event_mode: config.event_mode_config(),
                },
            )
        },
    }
}

/// The two symbols in one name.
pub fn symbol_pair(maker_symbol: &str, hedge_symbol: &str) -> (s: String)
    ensures
        s@ == maker_symbol@ + "|"@ + hedge_symbol@,
{
    let mut s = maker_symbol.to_owned();
    s.append("|");
    s.append(hedge_symbol);
    s
}

/// The name of the file with the history of the spread, from the symbols in lower case.
pub fn spread_file_name(maker_lower: &str, hedge_lower: &str) -> (s: String)
    ensures
        s@ == maker_lower@ + "_"@ + text::replaced(hedge_lower@, ':', '_') + "_spread_history.csv"@,
{
    let mut s = maker_lower.to_owned();
    s.append("_");
    s.append(text::replace(hedge_lower, ':', '_').as_str());
    s.append("_spread_history.csv");
    s
}

/// The name of the file with the history of the spread.
pub fn spread_history_file(maker_symbol: &str, hedge_symbol: &str) -> (s: String)
    ensures
        s@ == text::lowercase_of(maker_symbol@) + "_"@ + text::replaced(
            text::lowercase_of(hedge_symbol@),
            ':',
            '_',
        ) + "_spread_history.csv"@,
{
    let maker_lower = text::to_lowercase(maker_symbol);
    let hedge_lower = text::to_lowercase(hedge_symbol);
    spread_file_name(maker_lower.as_str(), hedge_lower.as_str())
}

/// The best prices of both exchanges.
#[derive(Debug, Clone, Copy, PartialEq, Eq, Structural)]
pub struct Quotes {
    pub maker_bid: Double,
    pub maker_ask: Double,
    pub hl_bid: Double,
    pub hl_ask: Double,
}

impl Quotes {
    /// All four prices are known, and the hedge exchange's are positive.
    pub open spec fn complete(self) -> bool {
        &&& !order_monitor::is_missing(self.maker_bid)
        &&& !order_monitor::is_missing(self.maker_ask)
        &&& !order_monitor::is_missing(self.hl_bid)
        &&& !order_monitor::is_missing(self.hl_ask)
        &&& !strategy::middle(self.hl_bid, self.hl_ask).at_most(Double::whole_number(0))
    }

    /// How far the maker's middle price lies above the hedge exchange's, in basis points.
    pub open spec fn mid_spread_bps(self) -> Double {
        let hl_mid = strategy::middle(self.hl_bid, self.hl_ask);
        strategy::middle(self.maker_bid, self.maker_ask).difference(hl_mid).quotient(hl_mid).product(
            Double::whole_number(10000),
        )
    }

    /// The width of the hedge exchange's book, in basis points, and not below zero.
    pub open spec fn hl_spread_bps(self) -> Double {
        self.hl_ask.difference(self.hl_bid).quotient(strategy::middle(self.hl_bid, self.hl_ask)).product(
            Double::whole_number(10000),
        ).larger(Double::whole_number(0))
    }

    /// The spread is as wide as it takes for positions to be flattened later.
    pub open spec fn wide(self, config: &Config) -> bool {
        config.exit_rebalance_entry_spread_bps.at_most(
            Double::signed(false, self.mid_spread_bps().magnitude()),
        )
    }

    /// The spread is back within the limit at which an event is over.
    pub open spec fn reverted(self, config: &Config) -> bool {
        Double::signed(false, self.mid_spread_bps().magnitude()).at_most(
            config.exit_rebalance_exit_spread_bps,
        )
    }

    /// The prices of both books are finite and not negative, each bid at most its ask,
    /// and neither too large to be added to the other.
    pub open spec fn plain(self) -> bool {
        &&& self.maker_bid.finite() && self.maker_ask.finite()
        &&& self.hl_bid.finite() && self.hl_ask.finite()
        &&& self.maker_bid.non_negative() && self.maker_bid.at_most(self.maker_ask)
        &&& self.hl_bid.non_negative() && self.hl_bid.at_most(self.hl_ask)
        &&& self.maker_bid.sum(self.maker_ask).finite()
        &&& self.hl_bid.sum(self.hl_ask).finite()
    }

    /// The mid spread is above zero exactly where the maker's middle price is the higher
    /// one, and below zero exactly where it is the lower one. It is the gap between the
    /// two in ten thousands of the hedge exchange's, up to rounding.
    pub proof fn law_mid_spread_is_the_gap(self)
        requires
            strategy::middle(self.maker_bid, self.maker_ask).finite(),
            strategy::middle(self.hl_bid, self.hl_ask).finite(),
            strategy::middle(self.hl_bid, self.hl_ask).positive(),
        ensures
            ({
                let m = strategy::middle(self.maker_bid, self.maker_ask);
                let h = strategy::middle(self.hl_bid, self.hl_ask);
                let gap = (m.amount() - h.amount()) * double::one();
                let r = self.mid_spread_bps();
                &&& !r.nan()
                &&& r.amount() > 0 <==> h.below(m)
                &&& r.amount() < 0 <==> m.below(h)
                &&& r.finite() && m.difference(h).finite() ==> laws::distance(
                    r.amount() * h.amount(),
                    10000 * gap,
                ) * pow2(53) <= 70000 * laws::distance(gap, 0) + 20000 * (pow2(53) * h.amount())
            }),
    {
        laws::law_relative_difference(
            strategy::middle(self.maker_bid, self.maker_ask),
            strategy::middle(self.hl_bid, self.hl_ask),
        );
    }

    /// Where the whole book of the maker lies below that of the hedge exchange, the mid
    /// spread is negative, and where it lies above, positive.
    pub proof fn law_mid_spread_follows_the_books(self)
        requires
            self.plain(),
            self.hl_bid.positive(),
        ensures
            self.maker_ask.below(self.hl_bid) ==> self.mid_spread_bps().amount() < 0,
            self.hl_ask.below(self.maker_bid) ==> self.mid_spread_bps().amount() > 0,
            !self.mid_spread_bps().nan(),
    {
        strategy::law_middle_lies_between(self.maker_bid, self.maker_ask);
        strategy::law_middle_lies_between(self.hl_bid, self.hl_ask);
        self.law_mid_spread_is_the_gap();
    }

    /// The width of the hedge exchange's book is a number that is not negative, 0 where
    /// the ask is not above the bid, and otherwise what the ask is above the bid in ten
    /// thousands of the middle price, up to rounding.
    pub proof fn law_book_width(self)
        requires
            self.hl_bid.finite(),
            self.hl_ask.finite(),
            strategy::middle(self.hl_bid, self.hl_ask).finite(),
            strategy::middle(self.hl_bid, self.hl_ask).positive(),
        ensures
            ({
                let h = strategy::middle(self.hl_bid, self.hl_ask);
                let gap = (self.hl_ask.amount() - self.hl_bid.amount()) * double::one();
                let r = self.hl_spread_bps();
                &&& r.non_negative()
                &&& self.hl_ask.at_most(self.hl_bid) ==> r.amount() == 0
                &&& self.hl_bid.at_most(self.hl_ask) && r.finite() && self.hl_ask.difference(
                    self.hl_bid,
                ).finite() ==> laws::distance(r.amount() * h.amount(), 10000 * gap) * pow2(53)
                    <= 70000 * laws::distance(gap, 0) + 20000 * (pow2(53) * h.amount())
            }),
    {
        let h = strategy::middle(self.hl_bid, self.hl_ask);
        let n = self.hl_ask.difference(self.hl_bid);
        laws::law_difference_is_near(self.hl_ask, self.hl_bid);
        crate::double::arithmetic::lemma_zero();
        double::lemma_units_order(double::INFINITY as int, 0);
        double::lemma_units_order(h.magnitude(), 0);
        crate::double::arithmetic::lemma_whole_exact(10000);
        double::lemma_units_order(Double::whole_number(10000).magnitude(), 0);
        if n.finite() {
            laws::law_basis_points_are_near(n, h);
            let raw = n.quotient(h).product(Double::whole_number(10000));
            if raw.finite() {
                lemma_pow2_pos(1074);
                lemma2_to64_rest();
                laws::lemma_gap_error(
                    raw.amount(),
                    n.amount(),
                    self.hl_ask.amount() - self.hl_bid.amount(),
                    h.amount(),
                    double::one(),
                    pow2(53) as int,
                );
            }
        }
    }

    /// A price of zero leaves the quote incomplete; four positive prices, small enough to
    /// be added up, complete it.
    pub proof fn law_missing_prices(self)
        ensures
            (self.maker_bid.bits == 0 || self.maker_ask.bits == 0 || self.hl_bid.bits == 0
                || self.hl_ask.bits == 0) ==> !self.complete(),
            self.plain() && self.maker_bid.positive() && self.hl_bid.positive() ==> self.complete(),
    {
        assert(double::units(0) == 0);
        crate::double::arithmetic::lemma_zero();
        if self.plain() && self.maker_bid.positive() && self.hl_bid.positive() {
            strategy::law_middle_lies_between(self.hl_bid, self.hl_ask);
        }
    }

    /// The spread is back where it lies within the limit in either direction, and wide
    /// where it has reached the other limit in either direction.
    pub proof fn law_limits_hold_in_both_directions(self, config: &Config)
        requires
            !self.mid_spread_bps().nan(),
            !config.exit_rebalance_exit_spread_bps.nan(),
            !config.exit_rebalance_entry_spread_bps.nan(),
        ensures
            ({
                let spread = self.mid_spread_bps().amount();
                let exit = config.exit_rebalance_exit_spread_bps.amount();
                let entry = config.exit_rebalance_entry_spread_bps.amount();
                &&& self.reverted(config) <==> -exit <= spread <= exit
                &&& self.wide(config) <==> spread >= entry || spread <= -entry
            }),
    {
        double::lemma_units_order(self.mid_spread_bps().magnitude(), 0);
    }
}

/// Whether the loop goes on.
#[derive(Debug, Clone, Copy, PartialEq, Eq, Structural)]
pub enum Gate {
    /// The bot has come to its end.
    Stop,
    /// Not now.
    Wait,
    Go,
}

/// What a quote asks for.
#[derive(Debug, Clone, Copy, PartialEq, Eq, Structural)]
pub enum Step {
    /// A price is missing.
    NoPrices,
    /// No order is to be placed now.
    Hold,
    /// Flatten both positions, then report how that went.
    Flatten,
    /// Look for an opportunity.
    Enter(Entry),
}

/// The terms on which an order may be placed.
#[derive(Debug, Clone, Copy, PartialEq, Eq, Structural)]
pub struct Entry {
    pub profile: EntryProfile,
    /// The only direction that is open, if there is such a limit.
    pub direction_filter: Option<OrderSide>,
    /// The maker's middle price.
    pub maker_mid: Double,
}

/// What a quote asks for, and what it has changed.
#[derive(Debug, Clone, Copy, PartialEq, Eq, Structural)]
pub struct Observation {
    pub step: Step,
    pub mid_spread_bps: Double,
    pub hl_spread_bps: Double,
    pub event_started: bool,
    pub event_ended: bool,
    /// The event was given up because the spread is back, without flattening.
    pub event_released: bool,
}

/// What the main loop remembers from one round to the next.
pub struct Memory {
    pub regime: Regime,
    pub errors: nat,
    pub last_error: Option<Moment>,
    pub next_order_attempt_allowed_at: Moment,
    /// Whether the spread has been wide enough in the present event for its positions to
    /// be flattened when it is back.
    pub exit_armed: bool,
    /// Since when the spread has been back.
    pub reverted_since: Option<Moment>,
    pub next_exit_allowed_at: Moment,
    pub last_event_active: bool,
}

/// The value in dollars from which a partial fill is hedged.
pub const MIN_HEDGE_NOTIONAL_USD: u32 = 10;

/// How often Hyperliquid is asked for its prices, in seconds.
pub const HEDGE_POLL_SECS: u64 = 2;

/// How often the spread is sampled, in seconds.
pub const SPREAD_SAMPLE_SECS: u64 = 1;

/// For how many hours samples of the spread are kept.
pub const SPREAD_RETENTION_HOURS: i64 = 24;

/// How long after a cancellation no order is placed, in seconds.
pub const GRACE_PERIOD_SECS: u64 = 3;

/// How long after both positions have been flattened no order is placed, in seconds.
pub const AFTER_EXIT_SECS: u64 = 2;

pub open spec fn at_least_one(secs: u64) -> int {
    if secs >= 1 {
        secs as int
    } else {
        1
    }
}

fn one_or_more(secs: u64) -> (r: u64)
    ensures
        r == at_least_one(secs),
{
    if secs >= 1 {
        secs
    } else {
        1
    }
}

impl Memory {
    /// What is left of the backoff at `now`, in nanoseconds.
    pub open spec fn backoff_left(self, now: Moment) -> int {
        match self.last_error {
            Some(at) => {
                let left = rate_limit::backoff_secs(self.errors) * NANOS_PER_SECOND
                    - now.nanos_since(at);
                if left > 0 {
                    left
                } else {
                    0
                }
            },
            None => 0,
        }
    }

    /// Whether the loop goes on at `now`: it places orders only while the bot is idle,
    /// its grace period and its backoff are over, and no cooldown runs.
    pub open spec fn gate(self, bot: state::Bot, now: Moment) -> Gate {
        if bot.status.terminal() {
            Gate::Stop
        } else if bot.status == state::Status::Idle && bot.grace_over(now, GRACE_PERIOD_SECS as int)
            && self.backoff_left(now) == 0 && now.nanos >= self.next_order_attempt_allowed_at.nanos {
            Gate::Go
        } else {
            Gate::Wait
        }
    }

    pub open spec fn regime_after(self, q: Quotes, now: Moment) -> Regime {
        self.regime.observed(now, now, q.mid_spread_bps(), q.hl_spread_bps())
    }

    pub open spec fn decision(self, q: Quotes, now: Moment) -> RegimeDecision {
        self.regime_after(q, now).decision(q.mid_spread_bps())
    }

    /// An event goes on, the spread is back, and positions are to be flattened then.
    pub open spec fn reverting(self, config: &Config, q: Quotes, now: Moment) -> bool {
        self.decision(q, now).event_active && config.enable_exit_rebalance && q.reverted(config)
    }

    /// An event goes on in which the spread is or was wide enough.
    pub open spec fn armed_after(self, config: &Config, q: Quotes, now: Moment) -> bool {
        self.decision(q, now).event_active && (self.exit_armed || q.wide(config))
    }

    /// Since when the spread has been back, if it is back at `now`.
    pub open spec fn back_since(self, now: Moment) -> Moment {
        match self.reverted_since {
            Some(m) => m,
            None => now,
        }
    }

    /// An event goes on, and the spread has been back for the time of confirmation.
    pub open spec fn confirmed_back(self, config: &Config, q: Quotes, now: Moment) -> bool {
        &&& self.decision(q, now).event_active
        &&& q.reverted(config)
        &&& now.past_secs(self.back_since(now), config.exit_rebalance_confirm_secs as int)
    }

    /// The spread was wide enough and has been back for the time of confirmation,
    /// positions are to be flattened then, and the last attempt is long enough ago.
    pub open spec fn exit_due(self, config: &Config, q: Quotes, now: Moment) -> bool {
        &&& config.enable_exit_rebalance
        &&& self.confirmed_back(config, q, now)
        &&& self.armed_after(config, q, now)
        &&& now.nanos >= self.next_exit_allowed_at.nanos
    }

    /// An event is given up without flattening: the spread has been back for the time of
    /// confirmation, and positions are not to be flattened or the spread was never wide
    /// enough for that.
    pub open spec fn releases(self, config: &Config, q: Quotes, now: Moment) -> bool {
        &&& self.confirmed_back(config, q, now)
        &&& !(config.enable_exit_rebalance && self.armed_after(config, q, now))
    }

    pub open spec fn step(self, config: &Config, q: Quotes, now: Moment) -> Step {
        let d = self.decision(q, now);
        if !q.complete() {
            Step::NoPrices
        } else if self.exit_due(config, q, now) {
            Step::Flatten
        } else if self.reverting(config, q, now) || d.suppress_entries {
            Step::Hold
        } else {
            Step::Enter(
                Entry {
                    profile: d.profile,
                    direction_filter: d.direction_filter,
                    maker_mid: strategy::middle(q.maker_bid, q.maker_ask),
                },
            )
        }
    }

    /// What is remembered after a quote.
    pub open spec fn observed(self, config: &Config, q: Quotes, now: Moment) -> Memory {
        let d = self.decision(q, now);
        if !q.complete() {
            self
        } else {
            Memory {
                regime: if self.releases(config, q, now) {
                    self.regime_after(q, now).cleared(now, config.event_rearm_cooldown_secs as int)
                } else {
                    self.regime_after(q, now)
                },
                reverted_since: if d.event_active && q.reverted(config) && !self.releases(
                    config,
                    q,
                    now,
                ) {
                    Some(self.back_since(now))
                } else {
                    None
                },
                exit_armed: self.armed_after(config, q, now) && !self.releases(config, q, now),
                last_event_active: d.event_active,
                ..self
            }
        }
    }

    /// What is remembered after an attempt to flatten.
    pub open spec fn exited(self, config: &Config, flattened: bool, now: Moment) -> Memory {
        Memory {
            regime: if flattened {
                self.regime.cleared(now, config.event_rearm_cooldown_secs as int)
            } else {
                self.regime
            },
            exit_armed: self.exit_armed && !flattened,
            reverted_since: None,
            next_exit_allowed_at: now.later_secs(
                at_least_one(config.exit_rebalance_cooldown_secs),
            ),
            next_order_attempt_allowed_at: if flattened {
                now.later_secs(AFTER_EXIT_SECS as int)
            } else {
                self.next_order_attempt_allowed_at
            },
            ..self
        }
    }

    /// No order before `millis` milliseconds have passed, if there are any.
    pub open spec fn cooled(self, now: Moment, millis: u64) -> Memory {
        if millis > 0 {
            Memory { next_order_attempt_allowed_at: now.later_millis(millis as int), ..self }
        } else {
            self
        }
    }

    /// What is remembered after an order was refused with a message.
    pub open spec fn refused(
        self,
        config: &Config,
        limited: bool,
        post_only: bool,
        now: Moment,
    ) -> Memory {
        let errors = self.errors + 1;
        let target = now.later_secs(at_least_one(rate_limit::backoff_secs(errors) as u64));
        if limited {
            Memory {
                errors,
                last_error: Some(now),
                next_order_attempt_allowed_at: if target.nanos
                    > self.next_order_attempt_allowed_at.nanos {
                    target
                } else {
                    self.next_order_attempt_allowed_at
                },
                ..self
            }
        } else if post_only {
            self.cooled(now, config.post_only_reject_cooldown_ms)
        } else {
            self.cooled(now, config.order_failure_cooldown_ms)
        }
    }

    /// The loop stops exactly where the bot has come to its end. It goes on exactly where
    /// the bot is idle, 3 seconds have passed since the last cancellation, no cooldown
    /// runs, and the backoff after the last error has passed.
    pub proof fn law_gate(self, bot: state::Bot, now: Moment)
        ensures
            self.gate(bot, now) == Gate::Stop <==> bot.status is Complete || bot.status is Error,
            self.gate(bot, now) == Gate::Go <==> {
                &&& bot.status is Idle
                &&& match bot.last_cancellation_time {
                    Some(at) => now.nanos >= at.nanos + 3_000_000_000,
                    None => true,
                }
                &&& now.nanos >= self.next_order_attempt_allowed_at.nanos
                &&& match self.last_error {
                    Some(at) => self.errors == 0 || now.nanos >= at.nanos + (if self.errors >= 6 {
                        32
                    } else {
                        pow2((self.errors - 1) as nat) as int
                    }) * 1_000_000_000,
                    None => true,
                }
            },
    {
        if self.errors > 0 {
            lemma2_to64();
            lemma_pow2_pos((self.errors - 1) as nat);
        }
    }

    /// A quote without all of its prices changes nothing and asks for nothing.
    pub proof fn law_nothing_without_prices(self, config: &Config, q: Quotes, now: Moment)
        requires
            q.maker_bid.bits == 0 || q.maker_ask.bits == 0 || q.hl_bid.bits == 0 || q.hl_ask.bits
                == 0,
        ensures
            self.step(config, q, now) == Step::NoPrices,
            self.observed(config, q, now) == self,
    {
        q.law_missing_prices();
    }

    /// An order that is open in one direction only buys on the maker exchange where the
    /// middle price there is below that of the hedge exchange, and sells where it is not.
    pub proof fn law_events_buy_where_it_is_cheap(self, config: &Config, q: Quotes, now: Moment)
        requires
            strategy::middle(q.maker_bid, q.maker_ask).finite(),
            strategy::middle(q.hl_bid, q.hl_ask).finite(),
        ensures
            self.step(config, q, now) matches Step::Enter(e) ==> e.direction_filter matches Some(
                side,
            ) ==> {
                let m = strategy::middle(q.maker_bid, q.maker_ask);
                let h = strategy::middle(q.hl_bid, q.hl_ask);
                &&& e.profile == EntryProfile::Event
                &&& m.below(h) <==> side == OrderSide::Buy
                &&& h.at_most(m) <==> side == OrderSide::Sell
            },
    {
        crate::double::arithmetic::lemma_zero();
        if q.complete() {
            q.law_mid_spread_is_the_gap();
        }
    }

    /// The same over the books: one that lies below the other is bought from, one that
    /// lies above it is sold to.
    pub proof fn law_events_trade_towards_the_other_book(
        self,
        config: &Config,
        q: Quotes,
        now: Moment,
    )
        requires
            q.plain(),
            q.hl_bid.positive(),
        ensures
            self.step(config, q, now) matches Step::Enter(e) ==> e.direction_filter matches Some(
                side,
            ) ==> {
                &&& q.maker_ask.below(q.hl_bid) ==> side == OrderSide::Buy
                &&& q.hl_ask.below(q.maker_bid) ==> side == OrderSide::Sell
            },
    {
        q.law_mid_spread_follows_the_books();
    }

    /// While an event goes on, an order is open in one direction only. Without one it is
    /// open in both, on the profile of events only where nothing but events is traded,
    /// and then not at all.
    pub proof fn law_direction_belongs_to_events(self, config: &Config, q: Quotes, now: Moment)
        ensures
            self.step(config, q, now) matches Step::Enter(e) ==> {
                let mode = self.regime.settings.strategy_mode;
                &&& mode == StrategyMode::Normal ==> e.direction_filter is None && e.profile
                    == EntryProfile::Normal
                &&& mode != StrategyMode::Normal && self.regime.event_active ==> e.direction_filter
                    is Some && e.profile == EntryProfile::Event
                &&& mode == StrategyMode::EventOnly ==> e.direction_filter is Some
                &&& e.direction_filter is Some <==> e.profile == EntryProfile::Event
            },
    {
    }

    /// The middle price that an entry is judged by lies within the maker's book.
    pub proof fn law_entry_price_lies_in_the_book(self, config: &Config, q: Quotes, now: Moment)
        requires
            q.plain(),
        ensures
            self.step(config, q, now) matches Step::Enter(e) ==> q.maker_bid.at_most(e.maker_mid)
                && e.maker_mid.at_most(q.maker_ask),
    {
        strategy::law_middle_lies_between(q.maker_bid, q.maker_ask);
    }

    /// Positions are flattened only where that is asked for, the spread lies within the
    /// limit in both directions and has done so for the time of confirmation, it had
    /// reached the other limit in some direction, and the last attempt is long enough ago.
    pub proof fn law_flattening(self, config: &Config, q: Quotes, now: Moment)
        requires
            self.step(config, q, now) == Step::Flatten,
        ensures
            ({
                let spread = q.mid_spread_bps().amount();
                let exit = config.exit_rebalance_exit_spread_bps.amount();
                let entry = config.exit_rebalance_entry_spread_bps.amount();
                &&& config.enable_exit_rebalance
                &&& -exit <= spread <= exit
                &&& self.exit_armed || spread >= entry || spread <= -entry
                &&& match self.reverted_since {
                    Some(m) => now.nanos >= m.nanos + config.exit_rebalance_confirm_secs
                        * 1_000_000_000 || config.exit_rebalance_confirm_secs == 0,
                    None => config.exit_rebalance_confirm_secs == 0,
                }
                &&& now.nanos >= self.next_exit_allowed_at.nanos
            }),
    {
        double::lemma_units_order(q.mid_spread_bps().magnitude(), 0);
    }

    /// An event that goes on, whose spread lies within the limit in both directions: no
    /// order is placed where positions are to be flattened.
    pub proof fn law_reverted_events_place_no_orders(self, config: &Config, q: Quotes, now: Moment)
        requires
            config.enable_exit_rebalance,
            self.regime.event_active,
            self.regime.settings.strategy_mode != StrategyMode::Normal,
            !q.mid_spread_bps().nan(),
            !config.exit_rebalance_exit_spread_bps.nan(),
            -config.exit_rebalance_exit_spread_bps.amount() <= q.mid_spread_bps().amount()
                <= config.exit_rebalance_exit_spread_bps.amount(),
        ensures
            !(self.step(config, q, now) is Enter),
    {
        double::lemma_units_order(q.mid_spread_bps().magnitude(), 0);
    }

    /// After an attempt to flatten, the next one has to wait for the cooldown, of at
    /// least a second; after one that has succeeded no order is placed for 2 seconds, and
    /// no event goes on. One that has failed leaves the event and the orders alone.
    pub proof fn law_exit_attempts(self, config: &Config, flattened: bool, now: Moment)
        requires
            now.is_reading(),
        ensures
            ({
                let after = self.exited(config, flattened, now);
                let wait = if config.exit_rebalance_cooldown_secs == 0 {
                    1
                } else {
                    config.exit_rebalance_cooldown_secs as int
                };
                &&& after.next_exit_allowed_at.nanos == now.nanos + wait * 1_000_000_000
                &&& after.reverted_since is None
                &&& flattened ==> after.next_order_attempt_allowed_at.nanos == now.nanos
                    + 2_000_000_000 && !after.regime.event_active && !after.exit_armed
                &&& !flattened ==> after.next_order_attempt_allowed_at
                    == self.next_order_attempt_allowed_at && after.regime == self.regime
                    && after.exit_armed == self.exit_armed
                &&& after.errors == self.errors && after.last_error == self.last_error
                    && after.last_event_active == self.last_event_active
            }),
    {
    }

    /// A refusal by which the exchange asks for fewer calls counts, and the next order has
    /// to wait for the backoff, or longer where it had to before. Any other one does not
    /// count, and the next order has to wait for the cooldown of its kind, if it has one.
    pub proof fn law_refusals(
        self,
        config: &Config,
        limited: bool,
        post_only: bool,
        now: Moment,
    )
        requires
            now.is_reading(),
        ensures
            ({
                let after = self.refused(config, limited, post_only, now);
                let cooldown = if post_only {
                    config.post_only_reject_cooldown_ms
                } else {
                    config.order_failure_cooldown_ms
                };
                let backoff: int = if self.errors >= 5 {
                    32
                } else {
                    pow2(self.errors) as int
                };
                &&& limited ==> after.errors == self.errors + 1 && after.last_error == Some(now)
                    && after.next_order_attempt_allowed_at.nanos >= now.nanos + backoff
                    * 1_000_000_000 && after.next_order_attempt_allowed_at.nanos
                    >= self.next_order_attempt_allowed_at.nanos && (
                after.next_order_attempt_allowed_at.nanos == now.nanos + backoff * 1_000_000_000
                    || after.next_order_attempt_allowed_at == self.next_order_attempt_allowed_at)
                &&& !limited ==> after.errors == self.errors && after.last_error == self.last_error
                &&& !limited && cooldown > 0 ==> after.next_order_attempt_allowed_at.nanos
                    == now.nanos + cooldown * 1_000_000
                &&& !limited && cooldown == 0 ==> after.next_order_attempt_allowed_at
                    == self.next_order_attempt_allowed_at
                &&& after.regime == self.regime && after.exit_armed == self.exit_armed
                    && after.reverted_since == self.reverted_since
                    && after.next_exit_allowed_at == self.next_exit_allowed_at
            }),
    {
        lemma2_to64();
        if self.errors < 5 {
            lemma_pow2_pos(self.errors);
        }
    }

    /// An order is placed only where the bot is idle.
    pub proof fn law_one_order_at_a_time(self, bot: state::Bot, now: Moment)
        requires
            self.gate(bot, now) == Gate::Go,
        ensures
            bot.status == state::Status::Idle,
            !(bot.status == state::Status::OrderPlaced),
            forall|order: state::Order, later: Moment|
                #[trigger] self.gate(bot.with_active_order(order), later) == Gate::Wait,
    {
    }

    /// After a fill no order is placed until the bot is idle again.
    pub proof fn law_no_order_after_a_fill(
        self,
        bot: state::Bot,
        size: Double,
        side: OrderSide,
        now: Moment,
    )
        ensures
            self.gate(bot.filled(size, side), now) == Gate::Wait,
    {
    }

    /// After a cancellation no order is placed before the grace period is over.
    pub proof fn law_no_order_in_the_grace_period(
        self,
        bot: state::Bot,
        cancelled_at: Moment,
        now: Moment,
    )
        requires
            !now.past_secs(cancelled_at, GRACE_PERIOD_SECS as int),
        ensures
            self.gate(bot.cleared(cancelled_at), now) == Gate::Wait,
    {
        bot.law_grace_period(cancelled_at, now, GRACE_PERIOD_SECS);
    }

    /// After the exchange has asked for fewer calls, no order is placed before the
    /// backoff is over.
    pub proof fn law_backoff_is_kept(
        self,
        config: &Config,
        post_only: bool,
        refused_at: Moment,
        bot: state::Bot,
        now: Moment,
    )
        requires
            refused_at.nanos <= now.nanos,
            !now.past_secs(refused_at, rate_limit::backoff_secs(self.errors + 1) as int),
        ensures
            self.refused(config, true, post_only, refused_at).gate(bot, now) != Gate::Go,
    {
    }

    /// After any other refusal, no order is placed before the cooldown is over.
    pub proof fn law_cooldown_is_kept(
        self,
        config: &Config,
        post_only: bool,
        refused_at: Moment,
        bot: state::Bot,
        now: Moment,
    )
        requires
            now.nanos < refused_at.later_millis(
                (if post_only {
                    config.post_only_reject_cooldown_ms
                } else {
                    config.order_failure_cooldown_ms
                }) as int,
            ).nanos,
            refused_at.nanos <= now.nanos,
        ensures
            self.refused(config, false, post_only, refused_at).gate(bot, now) != Gate::Go,
    {
    }

    /// Positions are flattened only in an event in which the spread has been wide enough.
    pub proof fn law_flattening_needs_a_wide_spread(self, config: &Config, q: Quotes, now: Moment)
        requires
            self.step(config, q, now) == Step::Flatten,
        ensures
            config.enable_exit_rebalance,
            self.decision(q, now).event_active,
            self.exit_armed || q.wide(config),
            q.reverted(config),
    {
    }

    /// A quote arms the flattening of positions only if its spread is wide enough, and
    /// only for the time of the event. One that is wide enough arms it, unless the event
    /// is given up.
    pub proof fn law_wide_spread_arms(self, config: &Config, q: Quotes, now: Moment)
        requires
            q.complete(),
        ensures
            self.observed(config, q, now).exit_armed ==> self.exit_armed || q.wide(config),
            self.observed(config, q, now).exit_armed ==> self.decision(q, now).event_active,
            self.decision(q, now).event_active && q.wide(config) && !self.releases(config, q, now)
                ==> self.observed(config, q, now).exit_armed,
    {
    }

    /// An event whose spread has been back for the time of confirmation comes to its end:
    /// positions are flattened, as soon as the last attempt is long enough ago, or the
    /// event is given up at once.
    pub proof fn law_reverted_events_end(self, config: &Config, q: Quotes, now: Moment)
        requires
            q.complete(),
            self.confirmed_back(config, q, now),
            now.nanos >= self.next_exit_allowed_at.nanos,
        ensures
            self.step(config, q, now) == Step::Flatten || !self.observed(
                config,
                q,
                now,
            ).regime.event_active,
    {
    }

    /// The time for which the spread has been back runs on from quote to quote.
    pub proof fn law_time_back_runs_on(self, config: &Config, q: Quotes, now: Moment)
        requires
            q.complete(),
            self.decision(q, now).event_active,
            q.reverted(config),
            !self.releases(config, q, now),
        ensures
            self.observed(config, q, now).reverted_since == Some(self.back_since(now)),
    {
    }

    /// While an event reverts, no order is placed.
    pub proof fn law_no_entry_while_reverting(self, config: &Config, q: Quotes, now: Moment)
        requires
            self.reverting(config, q, now),
        ensures
            !(self.step(config, q, now) is Enter),
    {
    }

    /// During an event orders are placed only in the direction that closes the gap.
    pub proof fn law_event_entries_close_the_gap(self, config: &Config, q: Quotes, now: Moment)
        requires
            self.step(config, q, now) is Enter,
            self.decision(q, now).event_active,
        ensures
            self.step(config, q, now)->Enter_0.profile == EntryProfile::Event,
            self.step(config, q, now)->Enter_0.direction_filter == Some(
                if q.mid_spread_bps().non_negative() {
                    OrderSide::Sell
                } else {
                    OrderSide::Buy
                },
            ),
    {
    }

    /// Positions are flattened again only after the cooldown, however the last attempt went.
    pub proof fn law_exits_are_spaced(
        self,
        config: &Config,
        flattened: bool,
        exited_at: Moment,
        q: Quotes,
        now: Moment,
    )
        requires
            now.nanos < exited_at.later_secs(
                at_least_one(config.exit_rebalance_cooldown_secs),
            ).nanos,
        ensures
            self.exited(config, flattened, exited_at).step(config, q, now) != Step::Flatten,
    {
    }

    /// Where positions have been flattened, the event is over, and no other starts
    /// before its cooldown, of at least a second.
    pub proof fn law_exit_ends_the_event(
        self,
        config: &Config,
        exited_at: Moment,
        q: Quotes,
        now: Moment,
    )
        requires
            now.nanos < exited_at.later_secs(at_least_one(config.event_rearm_cooldown_secs)).nanos,
        ensures
            !self.exited(config, true, exited_at).decision(q, now).event_active,
    {
    }

    /// Outside an event nothing is given up or flattened, and nothing is remembered of the
    /// way back; the regime is what the quote makes of it. During one it is given up exactly
    /// where the spread has lain within the limit for the time of confirmation and no
    /// positions are to be flattened, or the spread has never reached the other limit.
    pub proof fn law_only_events_are_given_up(self, config: &Config, q: Quotes, now: Moment)
        requires
            q.complete(),
            !q.mid_spread_bps().nan(),
            !config.exit_rebalance_exit_spread_bps.nan(),
            !config.exit_rebalance_entry_spread_bps.nan(),
            self.reverted_since is Some ==> self.reverted_since->0.nanos <= now.nanos,
        ensures
            ({
                let after = self.observed(config, q, now);
                let next = self.regime_after(q, now);
                let spread = q.mid_spread_bps().amount();
                let exit = config.exit_rebalance_exit_spread_bps.amount();
                let entry = config.exit_rebalance_entry_spread_bps.amount();
                let back = -exit <= spread <= exit && match self.reverted_since {
                    Some(m) => now.nanos >= m.nanos + config.exit_rebalance_confirm_secs
                        * 1_000_000_000,
                    None => config.exit_rebalance_confirm_secs == 0,
                };
                let armed = self.exit_armed || spread >= entry || spread <= -entry;
                let active = self.decision(q, now).event_active;
                &&& !active ==> after.regime == next && after.reverted_since is None
                    && !after.exit_armed && self.step(config, q, now) != Step::Flatten
                &&& active && back && !(config.enable_exit_rebalance && armed)
                    ==> !after.regime.event_active && after.reverted_since is None
                    && !after.exit_armed
                &&& active && !(back && !(config.enable_exit_rebalance && armed)) ==> after.regime
                    == next && after.exit_armed == armed
            }),
    {
        double::lemma_units_order(q.mid_spread_bps().magnitude(), 0);
    }

    /// Where an event has been given up, it is over, and no other starts before its
    /// cooldown, of at least a second.
    pub proof fn law_release_ends_the_event(
        self,
        config: &Config,
        last: Quotes,
        released_at: Moment,
        q: Quotes,
        now: Moment,
    )
        requires
            last.complete(),
            self.releases(config, last, released_at),
            now.nanos < released_at.later_secs(
                at_least_one(config.event_rearm_cooldown_secs),
            ).nanos,
        ensures
            !self.observed(config, last, released_at).decision(q, now).event_active,
    {
    }
}

/// The main loop.
#[derive(Debug)]
pub struct TradingLoop {
    regime: RegimeController,
    order_placement_rate_limit: RateLimitTracker,
    next_order_attempt_allowed_at: Moment,
    exit_rebalance_armed: bool,
    exit_rebalance_below_threshold_since: Option<Moment>,
    next_exit_rebalance_allowed_at: Moment,
    last_event_active: bool,
}

impl View for TradingLoop {
    type V = Memory;

    closed spec fn view(&self) -> Memory {
        Memory {
            regime: self.regime@,
            errors: self.order_placement_rate_limit.errors(),
            last_error: self.order_placement_rate_limit.last_error(),
            next_order_attempt_allowed_at: self.next_order_attempt_allowed_at,
            exit_armed: self.exit_rebalance_armed,
            reverted_since: self.exit_rebalance_below_threshold_since,
            next_exit_allowed_at: self.next_exit_rebalance_allowed_at,
            last_event_active: self.last_event_active,
        }
    }
}

impl TradingLoop {
    /// The clocks that the regime and the limit on order placement keep.
    pub closed spec fn clocks(&self) -> (Clock, Clock) {
        (self.regime.clock(), self.order_placement_rate_limit.clock())
    }

    /// A loop that starts at `now`, outside any event.
    pub fn new(config: &Config, now: Moment) -> (l: TradingLoop)
        ensures
            l@.errors == 0,
            l@.last_error is None,
            l@.next_order_attempt_allowed_at == now,
            l@.next_exit_allowed_at == now,
            !l@.exit_armed,
            l@.reverted_since is None,
            !l@.last_event_active,
            !l@.regime.event_active,
            l@.regime.event_candidate_since is None,
            l@.regime.next_event_allowed_at == now,
            l@.regime.settings == (RegimeSettings {
                strategy_mode: config.strategy_mode,
                event_trigger_mid_spread_bps: config.event_trigger_mid_spread_bps,
                event_trigger_hl_spread_bps: config.event_trigger_hl_spread_bps,
                event_trigger_confirm_secs: config.event_trigger_confirm_secs,
            }),
    {
        let settings = RegimeSettings {
            strategy_mode: config.strategy_mode,
            event_trigger_mid_spread_bps: config.event_trigger_mid_spread_bps,
            event_trigger_hl_spread_bps: config.event_trigger_hl_spread_bps,
            event_trigger_confirm_secs: config.event_trigger_confirm_secs,
        };
        TradingLoop {
            regime: RegimeController::starting_at(settings, now),
            order_placement_rate_limit: RateLimitTracker::new(),
            next_order_attempt_allowed_at: now,
            exit_rebalance_armed: false,
            exit_rebalance_below_threshold_since: None,
            next_exit_rebalance_allowed_at: now,
            last_event_active: false,
        }
    }

    /// Whether the loop goes on at `now`.
    pub fn gate(&self, bot: &BotState, now: Moment) -> (g: Gate)
        ensures
            g == self@.gate(bot@, now),
    {
        if bot.is_terminal() {
            return Gate::Stop;
        }
        if !bot.is_idle() {
            return Gate::Wait;
        }
        if !bot.grace_period_elapsed_at(now, GRACE_PERIOD_SECS) {
            return Gate::Wait;
        }
        if self.order_placement_rate_limit.should_skip_at(now) {
            return Gate::Wait;
        }
        if !now.reached(&self.next_order_attempt_allowed_at) {
            return Gate::Wait;
        }
        Gate::Go
    }

    /// The refusals in a row by which the exchange has asked for fewer calls.
    pub fn consecutive_errors(&self) -> (n: u32)
        ensures
            n == self@.errors,
    {
        self.order_placement_rate_limit.consecutive_errors()
    }

    /// What is left of the backoff at `now`, in nanoseconds.
    pub fn remaining_backoff_nanos(&self, now: Moment) -> (n: u64)
        ensures
            n == self@.backoff_left(now),
    {
        self.order_placement_rate_limit.remaining_backoff_nanos_at(now)
    }

    /// Takes in a quote that was read at `now`.
    pub fn observe(&mut self, config: &Config, q: Quotes, now: Moment) -> (o: Observation)
        ensures
            final(self)@ == old(self)@.observed(config, q, now),
            final(self).clocks() == old(self).clocks(),
            o.step == old(self)@.step(config, q, now),
            !q.complete() ==> o.mid_spread_bps == Double::whole_number(0) && o.hl_spread_bps
                == Double::whole_number(0) && !o.event_started && !o.event_ended
                && !o.event_released,
            q.complete() ==> {
                let active = old(self)@.decision(q, now).event_active;
                &&& o.mid_spread_bps == q.mid_spread_bps()
                &&& o.hl_spread_bps == q.hl_spread_bps()
                &&& o.event_started == (active && !old(self)@.last_event_active)
                &&& o.event_ended == (!active && old(self)@.last_event_active)
                &&& o.event_released == old(self)@.releases(config, q, now)
            },
    {
        let zero = Double::whole(0);
        let hl_mid = strategy::mid_price(q.hl_bid, q.hl_ask);
        if q.maker_bid.is_zero() || q.maker_ask.is_zero() || q.hl_bid.is_zero() || q.hl_ask.is_zero()
            || hl_mid.le(&zero) {
            return Observation {
                step: Step::NoPrices,
                mid_spread_bps: zero,
                hl_spread_bps: zero,
                event_started: false,
                event_ended: false,
                event_released: false,
            };
        }
        let maker_mid = strategy::mid_price(q.maker_bid, q.maker_ask);
        let bps = Double::whole(10000);
        let mid_spread_bps = maker_mid.minus(&hl_mid).over(&hl_mid).times(&bps);
        let hl_spread_bps = q.hl_ask.minus(&q.hl_bid).over(&hl_mid).times(&bps).max(&zero);
        let decision = self.regime.update_at(now, now, mid_spread_bps, hl_spread_bps);
        let event_started = decision.event_active && !self.last_event_active;
        let event_ended = !decision.event_active && self.last_event_active;
        self.last_event_active = decision.event_active;
        let wide = config.exit_rebalance_entry_spread_bps.le(&mid_spread_bps.abs());
        self.exit_rebalance_armed = decision.event_active && (self.exit_rebalance_armed || wide);
        let reverted = mid_spread_bps.abs().le(&config.exit_rebalance_exit_spread_bps);
        let mut step = Step::Hold;
        let mut held = decision.suppress_entries;
        let mut event_released = false;
        if decision.event_active && reverted {
            let since = match self.exit_rebalance_below_threshold_since {
                Some(m) => m,
                None => now,
            };
            self.exit_rebalance_below_threshold_since = Some(since);
            held = held || config.enable_exit_rebalance;
            if now.has_passed(&since, config.exit_rebalance_confirm_secs) {
                if config.enable_exit_rebalance && self.exit_rebalance_armed {
                    if now.reached(&self.next_exit_rebalance_allowed_at) {
                        step = Step::Flatten;
                    }
                } else {
                    self.regime.clear_event_with_cooldown_at(
                        now,
                        config.event_rearm_cooldown_secs,
                    );
                    self.exit_rebalance_below_threshold_since = None;
                    self.exit_rebalance_armed = false;
                    event_released = true;
                }
            }
        } else {
            self.exit_rebalance_below_threshold_since = None;
        }
        if !held {
            step = Step::Enter(
                Entry {
                    profile: decision.profile,
                    direction_filter: decision.direction_filter,
                    maker_mid,
                },
            );
        }
        Observation {
            step,
            mid_spread_bps,
            hl_spread_bps,
            event_started,
            event_ended,
            event_released,
        }
    }

    /// An attempt to flatten has come to its end at `now`, with success or without.
    pub fn exit_finished(&mut self, config: &Config, flattened: bool, now: Moment)
        ensures
            final(self)@ == old(self)@.exited(config, flattened, now),
            final(self).clocks() == old(self).clocks(),
    {
        self.exit_rebalance_below_threshold_since = None;
        self.next_exit_rebalance_allowed_at = now.plus_secs(
            one_or_more(config.exit_rebalance_cooldown_secs),
        );
        if flattened {
            self.exit_rebalance_armed = false;
            self.regime.clear_event_with_cooldown_at(now, config.event_rearm_cooldown_secs);
            self.next_order_attempt_allowed_at = now.plus_secs(AFTER_EXIT_SECS);
        }
    }

    /// The exchange has accepted an order at `now`. If it has given an id, the order is
    /// the active one, and the monitor watches it; otherwise there is a cooldown. Says
    /// whether there is an id.
    pub fn order_accepted(
        &mut self,
        config: &Config,
        bot: &mut BotState,
        status: &mut u8,
        snapshot: &mut SharedOrderSnapshot,
        symbol: &str,
        data: &MakerOrderData,
        terms: OrderTerms,
        profile: &ModeTradingConfig,
        now: Moment,
    ) -> (r: bool)
        requires
            old(bot).wf(),
        ensures
            final(bot).wf(),
            final(self).clocks() == old(self).clocks(),
            r == data.tracking_id() is Some,
            r ==> {
                let order = terms.order(data.tracking_id()->0, *data, symbol@, now);
                &&& final(bot)@ == old(bot)@.with_active_order(order)
                &&& *final(status) == AtomicBotStatus::OrderPlaced.number()
                &&& final(snapshot)@ == Some(watched(order, *profile))
                &&& final(self)@ == (Memory { errors: 0, last_error: None, ..old(self)@ })
            },
            !r ==> {
                &&& *final(bot) == *old(bot)
                &&& *final(status) == *old(status)
                &&& *final(snapshot) == *old(snapshot)
                &&& final(self)@ == (Memory { errors: 0, last_error: None, ..old(self)@ }).cooled(
                    now,
                    config.order_failure_cooldown_ms,
                )
            },
    {
        self.order_placement_rate_limit.record_success();
        match data.id() {
            Some(id) => {
                let order = ActiveOrder {
                    client_order_id: id.clone(),
                    exchange_order_id: text::copy_optional(&data.order_id),
                    symbol: symbol.to_owned(),
                    side: terms.side,
                    price: terms.price,
                    size: terms.size,
                    initial_profit_bps: terms.initial_profit_bps,
                    placed_at: now,
                };
                bot.set_active_order(order);
                sync_atomic_status(status, &bot.status);
                update_order_snapshot(
                    snapshot,
                    id,
                    terms.side,
                    terms.price,
                    terms.size,
                    terms.initial_profit_bps,
                    now,
                    profile.profit_cancel_threshold_bps,
                    profile.order_refresh_interval_secs,
                );
                true
            },
            None => {
                if config.order_failure_cooldown_ms > 0 {
                    self.next_order_attempt_allowed_at = now.plus_millis(
                        config.order_failure_cooldown_ms,
                    );
                }
                false
            },
        }
    }

    /// The exchange has refused an order at `now` with a message.
    pub fn order_refused(&mut self, config: &Config, message: &str, now: Moment) -> (r: Refusal)
        requires
            old(self)@.errors < u32::MAX,
        ensures
            ({
                let limited = rate_limit::speaks_of_rate_limit(text::lowercase_of(message@));
                let post_only = speaks_of_post_only(text::lower(message@));
                &&& final(self)@ == old(self)@.refused(config, limited, post_only, now)
                &&& final(self).clocks() == old(self).clocks()
                &&& r == if limited {
                    Refusal::RateLimit {
                        backoff_secs: rate_limit::backoff_secs(old(self)@.errors + 1) as u64,
                    }
                } else if post_only {
                    Refusal::PostOnly { cooldown_ms: config.post_only_reject_cooldown_ms }
                } else {
                    Refusal::Other { cooldown_ms: config.order_failure_cooldown_ms }
                }
            }),
    {
        if rate_limit::is_rate_limit_error(message) {
            self.order_placement_rate_limit.record_error_at(now);
            let backoff_secs: u64 = self.order_placement_rate_limit.get_backoff_secs();
            let target = now.plus_secs(one_or_more(backoff_secs));
            if target.nanos > self.next_order_attempt_allowed_at.nanos {
                self.next_order_attempt_allowed_at = target;
            }
            return Refusal::RateLimit { backoff_secs };
        }
        let post_only = is_post_only_reject_error(message);
        let cooldown_ms: u64 = if post_only {
            config.post_only_reject_cooldown_ms
        } else {
            config.order_failure_cooldown_ms
        };
        if cooldown_ms > 0 {
            self.next_order_attempt_allowed_at = now.plus_millis(cooldown_ms);
        }
        if post_only {
            Refusal::PostOnly { cooldown_ms }
        } else {
            Refusal::Other { cooldown_ms }
        }
    }
}

/// What the bot asked for when it placed an order.
#[derive(Debug, Clone, Copy, PartialEq, Eq, Structural)]
pub struct OrderTerms {
    pub side: OrderSide,
    pub price: Double,
    pub size: Double,
    pub initial_profit_bps: Double,
}

impl OrderTerms {
    pub open spec fn order(
        self,
        id: Seq<char>,
        data: MakerOrderData,
        symbol: Seq<char>,
        now: Moment,
    ) -> state::Order {
        state::Order {
            client_order_id: id,
            exchange_order_id: text::optional_text(data.order_id),
            symbol,
            side: self.side,
            price: self.price,
            size: self.size,
            initial_profit_bps: self.initial_profit_bps,
            placed_at: now,
        }
    }
}

/// What the monitor watches of an order that was placed under a profile.
pub open spec fn watched(order: state::Order, profile: ModeTradingConfig) -> order_monitor::Snapshot {
    order_monitor::Snapshot {
        client_order_id: order.client_order_id,
        side: order.side,
        price: order.price,
        size: order.size,
        initial_profit_bps: order.initial_profit_bps,
        placed_at: order.placed_at,
        profit_cancel_threshold_bps: profile.profit_cancel_threshold_bps,
        order_refresh_interval_secs: profile.order_refresh_interval_secs,
    }
}

/// An order that was accepted has the side, price, size and profit that were asked for,
/// and the monitor watches just that, with the limits of the profile it was placed under.
pub proof fn law_accepted_orders_keep_their_terms(
    terms: OrderTerms,
    id: Seq<char>,
    data: MakerOrderData,
    symbol: Seq<char>,
    now: Moment,
    profile: ModeTradingConfig,
)
    ensures
        ({
            let o = terms.order(id, data, symbol, now);
            let w = watched(o, profile);
            &&& o.side == terms.side && o.price == terms.price && o.size == terms.size
            &&& o.initial_profit_bps == terms.initial_profit_bps
            &&& o.client_order_id == id && o.symbol == symbol && o.placed_at == now
            &&& o.exchange_order_id == text::optional_text(data.order_id)
            &&& w.side == terms.side && w.price == terms.price && w.size == terms.size
            &&& w.initial_profit_bps == terms.initial_profit_bps
            &&& w.client_order_id == id && w.placed_at == now
            &&& w.profit_cancel_threshold_bps == profile.profit_cancel_threshold_bps
            &&& w.order_refresh_interval_secs == profile.order_refresh_interval_secs
        }),
{
}

/// Why an order was refused.
#[derive(Debug, Clone, Copy, PartialEq, Eq, Structural)]
pub enum Refusal {
    RateLimit { backoff_secs: u64 },
    PostOnly { cooldown_ms: u64 },
    Other { cooldown_ms: u64 },
}

/// The name of a profile.
pub open spec fn profile_name(profile: EntryProfile) -> Seq<char> {
    match profile {
        EntryProfile::Normal => "normal"@,
        EntryProfile::Event => "event"@,
    }
}

pub fn profile_label(profile: EntryProfile) -> (s: &'static str)
    ensures
        s@ == profile_name(profile),
{
    match profile {
        EntryProfile::Normal => "normal",
        EntryProfile::Event => "event",
    }
}

/// The record of an order that the main loop has placed.
pub fn entry_record(
    placed_at: &UtcTime,
    symbol: &str,
    exchange: MakerExchangeKind,
    terms: OrderTerms,
    data: &MakerOrderData,
    profile: EntryProfile,
) -> (r: OrderRecord)
    ensures
        r.timestamp@ == placed_at.iso@,
        r.symbol@ == symbol@,
        r.maker_exchange@ == exchange.title(),
        r.side@ == audit_logger::side_word(terms.side),
        r.size == terms.size,
        r.price == terms.price,
        r.notional_usd == terms.size.product(terms.price),
        text::optional_text(r.order_id) == text::optional_text(data.order_id),
        text::optional_text(r.client_order_id) == data.tracking_id(),
        r.source@ == "main_loop_limit_order_"@ + profile_name(profile),
{
    OrderRecord::new(
        placed_at,
        symbol.to_owned(),
        exchange.name().to_owned(),
        terms.side,
        terms.size,
        terms.price,
        text::copy_optional(&data.order_id),
        data.id(),
        "main_loop_limit_order_".to_owned().concat(profile_label(profile)),
    )
}

/// The record of an order that closes a position.
pub fn exit_record(
    placed_at: &UtcTime,
    symbol: &str,
    exchange: &str,
    leg: &ExitLeg,
    order_id: Option<String>,
    client_order_id: Option<String>,
) -> (r: OrderRecord)
    ensures
        r.timestamp@ == placed_at.iso@,
        r.symbol@ == symbol@,
        r.maker_exchange@ == exchange@,
        r.side@ == audit_logger::side_word(leg.side),
        r.size == leg.size,
        r.price == leg.price_hint,
        r.notional_usd == leg.size.product(leg.price_hint),
        r.order_id == order_id,
        r.client_order_id == client_order_id,
        r.source@ == "exit_rebalance_market_flatten"@,
{
    OrderRecord::new(
        placed_at,
        symbol.to_owned(),
        exchange.to_owned(),
        leg.side,
        leg.size,
        leg.price_hint,
        order_id,
        client_order_id,
        "exit_rebalance_market_flatten".to_owned(),
    )
}

/// Whether a direction is open.
pub fn is_open(filter: Option<OrderSide>, side: OrderSide) -> (r: bool)
    ensures
        r == (filter is None || filter == Some(side)),
{
    match filter {
        None => true,
        Some(s) => s == side,
    }
}

/// The price of a limit order that takes nothing from the book: a buy is no higher
/// than the bid, a sell no lower than the ask.
pub open spec fn passive_price(side: OrderSide, price: Double, bid: Double, ask: Double) -> Double {
    match side {
        OrderSide::Buy => price.smaller(bid),
        OrderSide::Sell => price.larger(ask),
    }
}

pub fn maker_limit_price(side: OrderSide, price: Double, bid: Double, ask: Double) -> (d: Double)
    ensures
        d == passive_price(side, price, bid, ask),
{
    match side {
        OrderSide::Buy => price.min(&bid),
        OrderSide::Sell => price.max(&ask),
    }
}

/// An order at such a price does not cross the book.
pub proof fn law_orders_stay_passive(side: OrderSide, price: Double, bid: Double, ask: Double)
    requires
        !bid.nan(),
        !ask.nan(),
    ensures
        side == OrderSide::Buy ==> passive_price(side, price, bid, ask).at_most(bid),
        side == OrderSide::Sell ==> ask.at_most(passive_price(side, price, bid, ask)),
        bid.below(ask) ==> match side {
            OrderSide::Buy => passive_price(side, price, bid, ask).below(ask),
            OrderSide::Sell => bid.below(passive_price(side, price, bid, ask)),
        },
{
}

/// The price of such an order is the one that was asked for where that takes nothing from
/// the book, and otherwise the best price on the order's own side.
pub proof fn law_passive_price_is_the_one_asked_for(
    side: OrderSide,
    price: Double,
    bid: Double,
    ask: Double,
)
    requires
        !price.nan(),
        !bid.nan(),
        !ask.nan(),
    ensures
        side == OrderSide::Buy && price.at_most(bid) ==> passive_price(side, price, bid, ask)
            == price,
        side == OrderSide::Buy && bid.below(price) ==> passive_price(side, price, bid, ask) == bid,
        side == OrderSide::Sell && ask.at_most(price) ==> passive_price(side, price, bid, ask)
            == price,
        side == OrderSide::Sell && price.below(ask) ==> passive_price(side, price, bid, ask) == ask,
{
}

/// A market order that closes a position.
#[derive(Debug, Clone, Copy, PartialEq, Eq, Structural)]
pub struct ExitLeg {
    pub side: OrderSide,
    pub size: Double,
    /// The price at which it is expected to be filled, 0 if there is none.
    pub price_hint: Double,
}

impl ExitLeg {
    /// What the order adds to a position.
    pub open spec fn signed(self) -> Double {
        match self.side {
            OrderSide::Buy => self.size,
            OrderSide::Sell => self.size.opposite(),
        }
    }
}

/// The market orders that close both positions.
#[derive(Debug, Clone, Copy, PartialEq, Eq, Structural)]
pub struct ExitPlan {
    pub maker: Option<ExitLeg>,
    pub hedge: Option<ExitLeg>,
}

pub open spec fn size_of(position: Double) -> Double {
    Double::signed(false, position.magnitude())
}

/// The order that closes a position of at least `floor`. On the maker exchange a
/// position that is not long counts as short, on the hedge exchange one that is not
/// short counts as long.
pub open spec fn leg(position: Double, floor: Double, buys: bool, bid: Double, ask: Double) -> Option<
    ExitLeg,
> {
    if floor.at_most(size_of(position)) {
        Some(
            ExitLeg {
                side: if buys {
                    OrderSide::Buy
                } else {
                    OrderSide::Sell
                },
                size: size_of(position),
                price_hint: (if buys {
                    ask
                } else {
                    bid
                }).larger(Double::whole_number(0)),
            },
        )
    } else {
        None
    }
}

fn exit_leg(position: Double, floor: Double, buys: bool, bid: Double, ask: Double) -> (r: Option<
    ExitLeg,
>)
    ensures
        r == leg(position, floor, buys, bid, ask),
{
    let size = position.abs();
    if size.ge(&floor) {
        let side = if buys {
            OrderSide::Buy
        } else {
            OrderSide::Sell
        };
        let hint = if buys {
            ask
        } else {
            bid
        };
        Some(ExitLeg { side, size, price_hint: hint.max(&Double::whole(0)) })
    } else {
        None
    }
}

/// The orders that close both positions, or none if both are below the floor.
pub open spec fn exit_orders(min_abs: Double, maker_pos: Double, hedge_pos: Double, q: Quotes) -> Option<
    ExitPlan,
> {
    let floor = min_abs.larger(Double::whole_number(0));
    if size_of(maker_pos).below(floor) && size_of(hedge_pos).below(floor) {
        None
    } else {
        Some(
            ExitPlan {
                maker: leg(maker_pos, floor, !maker_pos.positive(), q.maker_bid, q.maker_ask),
                hedge: leg(
                    hedge_pos,
                    floor,
                    hedge_pos.below(Double::whole_number(0)),
                    q.hl_bid,
                    q.hl_ask,
                ),
            },
        )
    }
}

/// How both positions are closed.
pub fn plan_exit(config: &Config, maker_pos: Double, hedge_pos: Double, q: Quotes) -> (r: Option<
    ExitPlan,
>)
    ensures
        r == exit_orders(config.exit_rebalance_min_abs_position, maker_pos, hedge_pos, q),
{
    let zero = Double::whole(0);
    let floor = config.exit_rebalance_min_abs_position.max(&zero);
    if maker_pos.abs().lt(&floor) && hedge_pos.abs().lt(&floor) {
        return None;
    }
    Some(
        ExitPlan {
            maker: exit_leg(maker_pos, floor, !maker_pos.is_positive(), q.maker_bid, q.maker_ask),
            hedge: exit_leg(hedge_pos, floor, hedge_pos.lt(&zero), q.hl_bid, q.hl_ask),
        },
    )
}

/// An order that closes a position brings it to zero, and both positions are either
/// closed or below the floor.
pub proof fn law_exit_flattens(min_abs: Double, maker_pos: Double, hedge_pos: Double, q: Quotes)
    requires
        !maker_pos.nan(),
        !maker_pos.infinite(),
        !hedge_pos.nan(),
        !hedge_pos.infinite(),
    ensures
        ({
            let floor = min_abs.larger(Double::whole_number(0));
            match exit_orders(min_abs, maker_pos, hedge_pos, q) {
                None => size_of(maker_pos).below(floor) && size_of(hedge_pos).below(floor),
                Some(plan) => {
                    &&& match plan.maker {
                        Some(l) => maker_pos.sum(l.signed()).amount() == 0,
                        None => !floor.at_most(size_of(maker_pos)),
                    }
                    &&& match plan.hedge {
                        Some(l) => hedge_pos.sum(l.signed()).amount() == 0,
                        None => !floor.at_most(size_of(hedge_pos)),
                    }
                },
            }
        }),
{
    lemma_closes(maker_pos, !maker_pos.positive());
    crate::double::arithmetic::lemma_zero();
    lemma_closes(hedge_pos, hedge_pos.below(Double::whole_number(0)));
}

/// Both positions are left alone exactly where they are below the floor in either
/// direction. A long position is sold at the bid, a short one is bought back at the ask,
/// each with the whole of its size.
pub proof fn law_exit_orders(min_abs: Double, maker_pos: Double, hedge_pos: Double, q: Quotes)
    requires
        maker_pos.finite(),
        hedge_pos.finite(),
        min_abs.non_negative(),
    ensures
        ({
            let (m, h) = (maker_pos.amount(), hedge_pos.amount());
            let floor = min_abs.amount();
            match exit_orders(min_abs, maker_pos, hedge_pos, q) {
                None => -floor < m < floor && -floor < h < floor,
                Some(plan) => {
                    &&& !(-floor < m < floor && -floor < h < floor)
                    &&& plan.maker is Some <==> m >= floor || m <= -floor
                    &&& plan.hedge is Some <==> h >= floor || h <= -floor
                    &&& plan.maker matches Some(l) ==> {
                        &&& m > 0 ==> l.side == OrderSide::Sell && l.size.amount() == m
                        &&& m < 0 ==> l.side == OrderSide::Buy && l.size.amount() == -m
                        &&& m > 0 && q.maker_bid.positive() ==> l.price_hint == q.maker_bid
                        &&& m < 0 && q.maker_ask.positive() ==> l.price_hint == q.maker_ask
                        &&& l.price_hint.non_negative()
                    }
                    &&& plan.hedge matches Some(l) ==> {
                        &&& h > 0 ==> l.side == OrderSide::Sell && l.size.amount() == h
                        &&& h < 0 ==> l.side == OrderSide::Buy && l.size.amount() == -h
                        &&& h > 0 && q.hl_bid.positive() ==> l.price_hint == q.hl_bid
                        &&& h < 0 && q.hl_ask.positive() ==> l.price_hint == q.hl_ask
                        &&& l.price_hint.non_negative()
                    }
                },
            }
        }),
{
    crate::double::arithmetic::lemma_zero();
    double::lemma_units_order(maker_pos.magnitude(), 0);
    double::lemma_units_order(hedge_pos.magnitude(), 0);
}

/// The position of a coin on the hedge exchange is the one that is listed first under
/// exactly that name, and 0 where none is.
pub proof fn law_hedge_amount(positions: Seq<(String, Option<Double>)>, coin: Seq<char>, k: int)
    ensures
        (0 <= k < positions.len() && positions[k].0@ == coin && forall|i: int|
            0 <= i < k ==> (#[trigger] positions[i]).0@ != coin) ==> hedge_amount(positions, coin)
            == match positions[k].1 {
            Some(d) => d,
            None => Double::whole_number(0),
        },
        (forall|i: int| 0 <= i < positions.len() ==> (#[trigger] positions[i]).0@ != coin)
            ==> hedge_amount(positions, coin).amount() == 0,
    decreases positions.len(),
{
    crate::double::arithmetic::lemma_zero();
    if positions.len() > 0 {
        let rest = positions.drop_first();
        law_hedge_amount(rest, coin, k - 1);
        assert forall|i: int| 0 <= i < rest.len() implies #[trigger] rest[i] == positions[i + 1] by {
        }
        if 0 < k < positions.len() && (forall|i: int|
            0 <= i < k ==> (#[trigger] positions[i]).0@ != coin) {
            assert(positions[0].0@ != coin);
            assert forall|i: int| 0 <= i < k - 1 implies (#[trigger] rest[i]).0@ != coin by {
                assert(rest[i] == positions[i + 1]);
            }
            assert(rest[k - 1] == positions[k]);
        }
        if forall|i: int| 0 <= i < positions.len() ==> (#[trigger] positions[i]).0@ != coin {
            assert(positions[0].0@ != coin);
            assert forall|i: int| 0 <= i < rest.len() implies (#[trigger] rest[i]).0@ != coin by {
                assert(rest[i] == positions[i + 1]);
            }
        }
    }
}

/// Adding the opposite of a position to it leaves nothing.
proof fn lemma_closes(position: Double, buys: bool)
    requires
        !position.nan(),
        !position.infinite(),
        buys ==> position.amount() <= 0,
        !buys ==> position.amount() >= 0,
    ensures
        ({
            let order = if buys {
                size_of(position)
            } else {
                size_of(position).opposite()
            };
            position.sum(order).amount() == 0
        }),
{
    crate::double::lemma_units_order(position.magnitude(), 0);
    let order = if buys {
        size_of(position)
    } else {
        size_of(position).opposite()
    };
    assert(crate::double::units(0) == 0);
    assert(position.amount() + order.amount() == 0);
}

/// The signed positions of both exchanges: the maker's added up, and the hedge
/// exchange's for the symbol, 0 if it has none.
pub fn signed_positions(
    maker_positions: &Vec<MakerPosition>,
    hedge_positions: &Vec<(String, Option<Double>)>,
    hedge_symbol: &str,
) -> (r: (Double, Double))
    ensures
        r.0 == maker::total_signed(maker::position_views(maker_positions@)),
        r.1 == hedge_amount(hedge_positions@, hedge_symbol@),
{
    let total = maker::total_signed_amount(maker_positions);
    let mut i: usize = 0;
    assert(hedge_positions@.skip(0) =~= hedge_positions@);
    while i < hedge_positions.len()
        invariant
            i <= hedge_positions@.len(),
            total == maker::total_signed(maker::position_views(maker_positions@)),
            hedge_amount(hedge_positions@, hedge_symbol@) == hedge_amount(
                hedge_positions@.skip(i as int),
                hedge_symbol@,
            ),
        decreases hedge_positions@.len() - i,
    {
        assert(hedge_positions@.skip(i as int)[0] == hedge_positions@[i as int]);
        assert(hedge_positions@.skip(i as int).drop_first() =~= hedge_positions@.skip(i + 1));
        if text::same(hedge_positions[i].0.as_str(), hedge_symbol) {
            return match hedge_positions[i].1 {
                Some(d) => (total, d),
                None => (total, Double::whole(0)),
            };
        }
        i = i + 1;
    }
    (total, Double::whole(0))
}

/// The amount of the first position in the coin; 0 without one, or where its amount
/// is not a number.
pub open spec fn hedge_amount(positions: Seq<(String, Option<Double>)>, coin: Seq<char>) -> Double
    decreases positions.len(),
{
    if positions.len() == 0 {
        Double::whole_number(0)
    } else if positions[0].0@ == coin {
        match positions[0].1 {
            Some(d) => d,
            None => Double::whole_number(0),
        }
    } else {
        hedge_amount(positions.drop_first(), coin)
    }
}

/// How the bot ends: with the message of the error in its state, if there is one.
pub fn shutdown_result(status: &BotStatus) -> (r: Result<(), String>)
    ensures
        r is Err <==> status@ is Error,
        r matches Err(m) ==> m@ == "Bot failed: "@ + status@->Error_0,
{
    match status {
        BotStatus::Error(e) => {
            let mut m = "Bot failed: ".to_owned();
            m.append(e.as_str());
            Err(m)
        },
        _ => Ok(()),
    }
}

} // verus!
