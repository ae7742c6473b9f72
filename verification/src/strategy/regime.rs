//! Normal trading and events: while the two markets are far apart, the bot
//! trades another profile, and only in the direction that closes the gap.
use super::OrderSide;
use crate::clock::{Clock, Moment};
use crate::config::StrategyMode;
use crate::double;
use crate::double::Double;
use vstd::prelude::*;

verus! {

/// Which profile an entry uses.
#[derive(Debug, Clone, Copy, PartialEq, Eq, Structural)]
pub enum EntryProfile {
    Normal,
    Event,
}

/// What the present regime allows.
#[derive(Debug, Clone, Copy, PartialEq, Eq, Structural)]
pub struct RegimeDecision {
    pub profile: EntryProfile,
    /// The only direction that is open, if there is such a limit.
    pub direction_filter: Option<OrderSide>,
    pub suppress_entries: bool,
    pub event_active: bool,
}

#[derive(Debug, Clone, Copy, PartialEq, Eq, Structural)]
pub struct RegimeSettings {
    pub strategy_mode: StrategyMode,
    pub event_trigger_mid_spread_bps: Double,
    pub event_trigger_hl_spread_bps: Double,
    pub event_trigger_confirm_secs: u64,
}

/// What a controller knows.
#[derive(Debug, Clone, Copy, PartialEq, Eq, Structural)]
pub struct Regime {
    pub settings: RegimeSettings,
    pub event_active: bool,
    /// Since when the trigger has held without a break.
    pub event_candidate_since: Option<Moment>,
    pub next_event_allowed_at: Moment,
}

impl Regime {
    /// Both spreads are at their thresholds, and the cooldown is over.
    pub open spec fn triggered(self, now: Moment, mid_spread_bps: Double, hl_spread_bps: Double) -> bool {
        &&& now.nanos >= self.next_event_allowed_at.nanos
        &&& self.settings.event_trigger_mid_spread_bps.at_most(
            Double::signed(false, mid_spread_bps.magnitude()),
        )
        &&& self.settings.event_trigger_hl_spread_bps.at_most(hl_spread_bps)
    }

    /// How long the trigger has to hold: the setting, but at least one second.
    pub open spec fn confirm_secs(self) -> int {
        if self.settings.event_trigger_confirm_secs >= 1 {
            self.settings.event_trigger_confirm_secs as int
        } else {
            1
        }
    }

    /// The regime after an observation at `now`, where `reading` is what the clock
    /// shows when the confirmation is judged.
    pub open spec fn observed(
        self,
        now: Moment,
        reading: Moment,
        mid_spread_bps: Double,
        hl_spread_bps: Double,
    ) -> Regime {
        let since = match self.event_candidate_since {
            Some(m) => m,
            None => now,
        };
        if self.settings.strategy_mode == StrategyMode::Normal {
            Regime { event_active: false, event_candidate_since: None, ..self }
        } else if !self.triggered(now, mid_spread_bps, hl_spread_bps) {
            Regime { event_candidate_since: None, ..self }
        } else if self.event_active {
            self
        } else if reading.past_secs(since, self.confirm_secs()) {
            Regime { event_active: true, event_candidate_since: None, ..self }
        } else {
            Regime { event_candidate_since: Some(since), ..self }
        }
    }

    /// What the regime allows at the given mid spread. During an event only the
    /// side that sells where it is dear is open.
    pub open spec fn decision(self, mid_spread_bps: Double) -> RegimeDecision {
        let mode = self.settings.strategy_mode;
        let event = self.event_active && mode != StrategyMode::Normal;
        RegimeDecision {
            profile: if event || mode == StrategyMode::EventOnly {
                EntryProfile::Event
            } else {
                EntryProfile::Normal
            },
            direction_filter: if !event {
                None
            } else if mid_spread_bps.non_negative() {
                Some(OrderSide::Sell)
            } else {
                Some(OrderSide::Buy)
            },
            suppress_entries: mode == StrategyMode::EventOnly && !event,
            event_active: event,
        }
    }

    /// No event, and none before the cooldown is over.
    pub open spec fn cleared(self, now: Moment, cooldown_secs: int) -> Regime {
        Regime {
            event_active: false,
            event_candidate_since: None,
            next_event_allowed_at: now.later_secs(
                if cooldown_secs >= 1 {
                    cooldown_secs
                } else {
                    1
                },
            ),
            ..self
        }
    }

    /// Outside any event, and ready for one from `now` on.
    pub open spec fn ready(settings: RegimeSettings, now: Moment) -> Regime {
        Regime {
            settings,
            event_active: false,
            event_candidate_since: None,
            next_event_allowed_at: now,
        }
    }

    fn ready_at(settings: RegimeSettings, now: Moment) -> (r: Regime)
        ensures
            r == Regime::ready(settings, now),
    {
        Regime {
            settings,
            event_active: false,
            event_candidate_since: None,
            next_event_allowed_at: now,
        }
    }

    /// In normal mode there are no events, whatever is observed.
    pub proof fn law_normal_mode_has_no_events(
        self,
        now: Moment,
        reading: Moment,
        mid_spread_bps: Double,
        hl_spread_bps: Double,
    )
        requires
            self.settings.strategy_mode == StrategyMode::Normal,
        ensures
            !self.observed(now, reading, mid_spread_bps, hl_spread_bps).event_active,
            self.observed(now, reading, mid_spread_bps, hl_spread_bps).decision(mid_spread_bps) == (
            RegimeDecision {
                profile: EntryProfile::Normal,
                direction_filter: None,
                suppress_entries: false,
                event_active: false,
            }),
    {
    }

    /// An event starts only where the trigger holds, and has held for the time of
    /// confirmation.
    pub proof fn law_event_needs_confirmation(
        self,
        now: Moment,
        reading: Moment,
        mid_spread_bps: Double,
        hl_spread_bps: Double,
    )
        requires
            !self.event_active,
            self.observed(now, reading, mid_spread_bps, hl_spread_bps).event_active,
        ensures
            self.settings.strategy_mode != StrategyMode::Normal,
            self.triggered(now, mid_spread_bps, hl_spread_bps),
            self.event_candidate_since matches Some(since) ==> reading.past_secs(
                since,
                self.confirm_secs(),
            ),
            self.event_candidate_since is None ==> reading.past_secs(now, self.confirm_secs()),
    {
    }

    /// An observation outside an event starts one exactly where not only normal trading is
    /// allowed, the cooldown is over, the mid spread has reached its threshold in either
    /// direction and the hedge exchange's spread has reached its own, and both have done so
    /// without a break for the time of confirmation, of at least a second.
    pub proof fn law_when_events_start(
        self,
        now: Moment,
        reading: Moment,
        mid_spread_bps: Double,
        hl_spread_bps: Double,
    )
        requires
            !self.event_active,
            !mid_spread_bps.nan(),
            !hl_spread_bps.nan(),
            !self.settings.event_trigger_mid_spread_bps.nan(),
            !self.settings.event_trigger_hl_spread_bps.nan(),
        ensures
            self.observed(now, reading, mid_spread_bps, hl_spread_bps).event_active <==> {
                let secs = if self.settings.event_trigger_confirm_secs == 0 {
                    1
                } else {
                    self.settings.event_trigger_confirm_secs as int
                };
                let since = match self.event_candidate_since {
                    Some(m) => m,
                    None => now,
                };
                let threshold = self.settings.event_trigger_mid_spread_bps.amount();
                &&& self.settings.strategy_mode != StrategyMode::Normal
                &&& now.nanos >= self.next_event_allowed_at.nanos
                &&& mid_spread_bps.amount() >= threshold || mid_spread_bps.amount() <= -threshold
                &&& hl_spread_bps.amount() >= self.settings.event_trigger_hl_spread_bps.amount()
                &&& reading.nanos >= since.nanos + secs * 1_000_000_000
            },
    {
        double::lemma_units_order(mid_spread_bps.magnitude(), 0);
    }

    /// A spread that is not a number, or lies within its threshold, starts no event, and
    /// breaks off the confirmation.
    pub proof fn law_small_spreads_break_the_confirmation(
        self,
        now: Moment,
        reading: Moment,
        mid_spread_bps: Double,
        hl_spread_bps: Double,
    )
        requires
            mid_spread_bps.nan() || hl_spread_bps.nan() || hl_spread_bps.amount()
                < self.settings.event_trigger_hl_spread_bps.amount() || (mid_spread_bps.amount()
                < self.settings.event_trigger_mid_spread_bps.amount() && -mid_spread_bps.amount()
                < self.settings.event_trigger_mid_spread_bps.amount()) || now.nanos
                < self.next_event_allowed_at.nanos,
        ensures
            self.observed(now, reading, mid_spread_bps, hl_spread_bps).event_candidate_since is None,
            self.observed(now, reading, mid_spread_bps, hl_spread_bps).event_active
                ==> self.event_active,
    {
        double::lemma_units_order(mid_spread_bps.magnitude(), 0);
    }

    /// The confirmation is counted from the first of the observations without a break.
    pub proof fn law_confirmation_counts_from_the_first(
        self,
        now: Moment,
        reading: Moment,
        mid_spread_bps: Double,
        hl_spread_bps: Double,
    )
        ensures
            ({
                let after = self.observed(now, reading, mid_spread_bps, hl_spread_bps);
                &&& !self.event_active && after.event_candidate_since is Some
                    ==> after.event_candidate_since->0 == match self.event_candidate_since {
                    Some(first) => first,
                    None => now,
                }
                &&& after.settings == self.settings
                &&& after.next_event_allowed_at == self.next_event_allowed_at
            }),
    {
    }

    /// During an event orders are sold on the maker exchange where its prices are not below
    /// those of the hedge exchange, and bought where they are; outside one both are open.
    /// Entries are held back exactly between events where nothing but events is traded.
    pub proof fn law_what_a_regime_allows(self, mid_spread_bps: Double)
        requires
            !mid_spread_bps.nan(),
        ensures
            ({
                let d = self.decision(mid_spread_bps);
                let mode = self.settings.strategy_mode;
                let event = self.event_active && mode != StrategyMode::Normal;
                &&& d.event_active == event
                &&& event && mid_spread_bps.amount() >= 0 ==> d.direction_filter == Some(
                    OrderSide::Sell,
                )
                &&& event && mid_spread_bps.amount() < 0 ==> d.direction_filter == Some(
                    OrderSide::Buy,
                )
                &&& !event ==> d.direction_filter is None
                &&& event ==> d.profile == EntryProfile::Event && !d.suppress_entries
                &&& !event && mode == StrategyMode::EventOnly ==> d.suppress_entries
                &&& !event && mode != StrategyMode::EventOnly ==> !d.suppress_entries && d.profile
                    == EntryProfile::Normal
            }),
    {
    }

    /// Clearing ends the event, and lets the next one start after the cooldown, of at least
    /// a second, and no sooner.
    pub proof fn law_clearing(self, now: Moment, cooldown_secs: u64)
        requires
            now.is_reading(),
        ensures
            ({
                let after = self.cleared(now, cooldown_secs as int);
                let wait = if cooldown_secs == 0 {
                    1
                } else {
                    cooldown_secs as int
                };
                &&& !after.event_active
                &&& after.event_candidate_since is None
                &&& after.next_event_allowed_at.nanos == now.nanos + wait * 1_000_000_000
                &&& after.settings == self.settings
            }),
    {
    }

    /// A trigger that holds at two observations, the second of them judged after the
    /// time of confirmation, starts an event.
    pub proof fn law_confirmed_trigger_starts_event(
        self,
        first: Moment,
        first_reading: Moment,
        second: Moment,
        second_reading: Moment,
        mid_spread_bps: Double,
        hl_spread_bps: Double,
    )
        requires
            self.settings.strategy_mode != StrategyMode::Normal,
            self.event_candidate_since is None,
            self.triggered(first, mid_spread_bps, hl_spread_bps),
            first.nanos <= second.nanos,
            second_reading.past_secs(first, self.confirm_secs()),
        ensures
            self.observed(first, first_reading, mid_spread_bps, hl_spread_bps).observed(
                second,
                second_reading,
                mid_spread_bps,
                hl_spread_bps,
            ).event_active,
    {
    }

    /// Outside normal mode an event goes on until it is cleared.
    pub proof fn law_event_persists(
        self,
        now: Moment,
        reading: Moment,
        mid_spread_bps: Double,
        hl_spread_bps: Double,
    )
        requires
            self.event_active,
            self.settings.strategy_mode != StrategyMode::Normal,
        ensures
            self.observed(now, reading, mid_spread_bps, hl_spread_bps).event_active,
    {
    }

    /// After an event has been cleared, none starts before the cooldown, of at least a
    /// second, is over.
    pub proof fn law_cooldown_blocks_events(
        self,
        cleared_at: Moment,
        cooldown_secs: u64,
        now: Moment,
        reading: Moment,
        mid_spread_bps: Double,
        hl_spread_bps: Double,
    )
        requires
            now.nanos < cleared_at.later_secs(
                if cooldown_secs >= 1 {
                    cooldown_secs as int
                } else {
                    1
                },
            ).nanos,
        ensures
            !self.cleared(cleared_at, cooldown_secs as int).observed(
                now,
                reading,
                mid_spread_bps,
                hl_spread_bps,
            ).event_active,
    {
    }

    /// A direction is closed only during an event, and entries are suppressed only
    /// between events, where nothing but events is traded.
    pub proof fn law_limits_belong_to_events(self, mid_spread_bps: Double)
        ensures
            ({
                let d = self.decision(mid_spread_bps);
                &&& d.direction_filter is Some <==> d.event_active
                &&& d.suppress_entries ==> !d.event_active && self.settings.strategy_mode
                    == StrategyMode::EventOnly
                &&& d.event_active ==> d.profile == EntryProfile::Event
            }),
    {
    }
}

/// Follows the spread and decides between normal trading and events.
#[derive(Debug, Clone)]
pub struct RegimeController {
    clock: Clock,
    regime: Regime,
}

impl View for RegimeController {
    type V = Regime;

    closed spec fn view(&self) -> Regime {
        self.regime
    }
}

impl RegimeController {
    /// The clock by which the controller goes.
    pub closed spec fn clock(&self) -> Clock {
        self.clock
    }

    /// A controller with a clock of its own, outside any event and ready for one.
    pub fn new(settings: RegimeSettings) -> (c: RegimeController)
        ensures
            exists|now: Moment| now.is_reading() && c@ == #[trigger] Regime::ready(settings, now),
    {
        RegimeController::with_clock(settings, Clock::start())
    }

    /// A controller that goes by the given clock.
    pub fn with_clock(settings: RegimeSettings, clock: Clock) -> (c: RegimeController)
        ensures
            c.clock() == clock,
            exists|now: Moment| now.is_reading() && c@ == #[trigger] Regime::ready(settings, now),
    {
        let now = clock.now();
        let c = RegimeController { clock, regime: Regime::ready_at(settings, now) };
        assert(c@ == Regime::ready(settings, now));
        c
    }

    /// A controller that is ready for an event from `now` on.
    pub fn starting_at(settings: RegimeSettings, now: Moment) -> (c: RegimeController)
        ensures
            c@ == Regime::ready(settings, now),
    {
        RegimeController { clock: Clock::start(), regime: Regime::ready_at(settings, now) }
    }

    /// The present reading of the controller's clock.
    pub fn now(&self) -> (m: Moment)
        ensures
            m.is_reading(),
    {
        self.clock.now()
    }

    pub fn event_active(&self) -> (r: bool)
        ensures
            r == self@.event_active,
    {
        self.regime.event_active
    }

    /// Ends the event at `now`.
    pub fn clear_event_with_cooldown_at(&mut self, now: Moment, cooldown_secs: u64)
        ensures
            final(self)@ == old(self)@.cleared(now, cooldown_secs as int),
            final(self).clock() == old(self).clock(),
    {
        let secs: u64 = if cooldown_secs >= 1 {
            cooldown_secs
        } else {
            1
        };
        self.regime.event_active = false;
        self.regime.event_candidate_since = None;
        self.regime.next_event_allowed_at = now.plus_secs(secs);
    }

    /// Ends the event, and allows none before the cooldown is over.
    pub fn clear_event_with_cooldown(&mut self, cooldown_secs: u64)
        ensures
            exists|now: Moment|
                now.is_reading() && final(self)@ == old(self)@.cleared(now, cooldown_secs as int),
            final(self).clock() == old(self).clock(),
    {
        let now = self.clock.now();
        self.clear_event_with_cooldown_at(now, cooldown_secs);
        assert(self@ == old(self)@.cleared(now, cooldown_secs as int));
    }

    /// Takes in the spreads observed at `now`; the confirmation is judged at `reading`.
    pub fn update_at(
        &mut self,
        now: Moment,
        reading: Moment,
        mid_spread_bps: Double,
        hl_spread_bps: Double,
    ) -> (d: RegimeDecision)
        ensures
            final(self)@ == old(self)@.observed(now, reading, mid_spread_bps, hl_spread_bps),
            d == final(self)@.decision(mid_spread_bps),
            final(self).clock() == old(self).clock(),
    {
        let mode = self.regime.settings.strategy_mode;
        if mode == StrategyMode::Normal {
            self.regime.event_active = false;
            self.regime.event_candidate_since = None;
            return RegimeDecision {
                profile: EntryProfile::Normal,
                direction_filter: None,
                suppress_entries: false,
                event_active: false,
            };
        }
        let ready = now.reached(&self.regime.next_event_allowed_at)
            && self.regime.settings.event_trigger_mid_spread_bps.le(&mid_spread_bps.abs())
            && self.regime.settings.event_trigger_hl_spread_bps.le(&hl_spread_bps);
        if !ready {
            self.regime.event_candidate_since = None;
        } else if !self.regime.event_active {
            let since = match self.regime.event_candidate_since {
                Some(m) => m,
                None => now,
            };
            let confirm: u64 = if self.regime.settings.event_trigger_confirm_secs >= 1 {
                self.regime.settings.event_trigger_confirm_secs
            } else {
                1
            };
            if reading.has_passed(&since, confirm) {
                self.regime.event_active = true;
                self.regime.event_candidate_since = None;
            } else {
                self.regime.event_candidate_since = Some(since);
            }
        }
        let event = self.regime.event_active;
        let direction_filter = if !event {
            None
        } else if mid_spread_bps.is_non_negative() {
            Some(OrderSide::Sell)
        } else {
            Some(OrderSide::Buy)
        };
        RegimeDecision {
            profile: if event || mode == StrategyMode::EventOnly {
                EntryProfile::Event
            } else {
                EntryProfile::Normal
            },
            direction_filter,
            suppress_entries: mode == StrategyMode::EventOnly && !event,
            event_active: event,
        }
    }

    /// Takes in the spreads observed at `now`.
    pub fn update(&mut self, now: Moment, mid_spread_bps: Double, hl_spread_bps: Double) -> (d:
        RegimeDecision)
        ensures
            exists|reading: Moment|
                reading.is_reading() && final(self)@ == old(self)@.observed(
                    now,
                    reading,
                    mid_spread_bps,
                    hl_spread_bps,
                ),
            d == final(self)@.decision(mid_spread_bps),
            final(self).clock() == old(self).clock(),
    {
        let reading = self.clock.now();
        let d = self.update_at(now, reading, mid_spread_bps, hl_spread_bps);
        assert(self@ == old(self)@.observed(now, reading, mid_spread_bps, hl_spread_bps));
        d
    }
}

} // verus!
