//! Detects fills by the events that Pacifica streams: the primary way.
use super::ledger::ProcessedFills;
use super::order_monitor::{sync_atomic_status, AtomicBotStatus, SharedOrderSnapshot};
use super::rest_fill_detection;
use super::HedgeEvent;
use crate::bot::state;
use crate::bot::{BotState, BotStatus};
use crate::clock::Moment;
use crate::connector::maker::{MakerOpenOrder, MakerTradeHistoryItem};
use crate::double::Double;
use crate::strategy::OrderSide;
use crate::text;
use vstd::prelude::*;
use vstd::string::*;

verus! {

/// What happened to an order, its amounts read as numbers.
#[derive(Debug)]
pub enum FillEvent {
    FullFill {
        symbol: String,
        side: String,
        filled_amount: Double,
        avg_price: Double,
        client_order_id: Option<String>,
    },
    PartialFill {
        symbol: String,
        side: String,
        filled_amount: Double,
        original_amount: Double,
        avg_price: Double,
        client_order_id: Option<String>,
    },
    Cancelled { client_order_id: Option<String>, reason: String },
    /// A change of the position, which is dealt with elsewhere.
    PositionFill,
}

/// What an event asks for.
#[derive(Debug)]
pub enum FillAction {
    /// The event is not about the active order, or is dealt with elsewhere.
    Ignore,
    /// A partial fill that is worth too little to be hedged on its own.
    TooSmall,
    /// The fill has been dealt with before.
    Duplicate,
    /// The side is neither a buy nor a sell.
    UnknownSide,
    /// Cancel what is left of the symbol's orders, move the baseline of the position,
    /// and hedge.
    Hedge(HedgeEvent),
    /// The active order is gone, and the bot is idle.
    Released,
}

/// The value in dollars that a partial fill has to exceed to be hedged.
pub const MIN_PARTIAL_NOTIONAL: u32 = 10;

/// What Pacifica's words for a side mean.
pub open spec fn side_of(word: Seq<char>) -> Option<OrderSide> {
    if word == "buy"@ || word == "bid"@ {
        Some(OrderSide::Buy)
    } else if word == "sell"@ || word == "ask"@ {
        Some(OrderSide::Sell)
    } else {
        None
    }
}

pub fn read_side(word: &str) -> (r: Option<OrderSide>)
    ensures
        r == side_of(word@),
{
    if text::same(word, "buy") || text::same(word, "bid") {
        Some(OrderSide::Buy)
    } else if text::same(word, "sell") || text::same(word, "ask") {
        Some(OrderSide::Sell)
    } else {
        None
    }
}

/// The id is that of the active order.
pub open spec fn is_active(bot: state::Bot, id: Option<Seq<char>>) -> bool {
    id is Some && bot.active_order is Some && bot.active_order->0.client_order_id == id->0
}

/// Whether the id is that of the active order.
pub fn is_our_order(bot: &BotState, client_order_id: &Option<String>) -> (r: bool)
    ensures
        r == is_active(bot@, text::optional_text(*client_order_id)),
{
    match (&bot.active_order, client_order_id) {
        (Some(o), Some(id)) => text::same(o.client_order_id.as_str(), id.as_str()),
        _ => false,
    }
}

/// A fill as it is judged.
pub struct Report {
    pub is_full: bool,
    pub side: Seq<char>,
    pub size: Double,
    pub price: Double,
    pub id: Option<Seq<char>>,
}

impl Report {
    /// It is about the active order, and worth enough if it is partial.
    pub open spec fn concerns(self, bot: state::Bot) -> bool {
        is_active(bot, self.id) && !self.too_small()
    }

    /// The name under which it is remembered.
    pub open spec fn name(self) -> Seq<char> {
        rest_fill_detection::fill_name(self.is_full, self.id->0)
    }

    /// It is hedged: it concerns the bot, is new, and is a buy or a sell.
    pub open spec fn hedged(self, bot: state::Bot, processed: Set<Seq<char>>) -> bool {
        self.concerns(bot) && !processed.contains(self.name()) && side_of(self.side) is Some
    }

    /// What is remembered afterwards.
    pub open spec fn remembered(self, bot: state::Bot, processed: Set<Seq<char>>) -> Set<Seq<char>> {
        if self.concerns(bot) {
            processed.insert(self.name())
        } else {
            processed
        }
    }

    /// It is partial and worth too little to be hedged on its own.
    pub open spec fn too_small(self) -> bool {
        !self.is_full && !Double::whole_number(MIN_PARTIAL_NOTIONAL as int).below(
            self.size.product(self.price),
        )
    }

    /// What it asks for.
    pub open spec fn answered(
        self,
        bot: state::Bot,
        processed: Set<Seq<char>>,
        now: Moment,
        r: FillAction,
    ) -> bool {
        let known = processed.contains(self.name());
        if self.too_small() {
            r is TooSmall
        } else if !is_active(bot, self.id) {
            r is Ignore
        } else if known {
            r is Duplicate
        } else {
            match side_of(self.side) {
                None => r is UnknownSide,
                Some(side) => r == FillAction::Hedge((side, self.size, self.price, now)),
            }
        }
    }

    /// The bot afterwards.
    pub open spec fn applied(self, bot: state::Bot, processed: Set<Seq<char>>) -> state::Bot {
        if self.hedged(bot, processed) {
            bot.filled(self.size, side_of(self.side)->0)
        } else {
            bot
        }
    }

    /// A fill is hedged once: what has been judged is not hedged when it comes again,
    /// whatever else has been remembered by then and whatever the bot does.
    pub proof fn law_hedged_once(
        self,
        bot: state::Bot,
        processed: Set<Seq<char>>,
        later_bot: state::Bot,
        later: Set<Seq<char>>,
    )
        requires
            self.concerns(bot),
            self.remembered(bot, processed).subset_of(later),
        ensures
            !self.hedged(later_bot, later),
            self.applied(later_bot, later) == later_bot,
    {
        assert(self.remembered(bot, processed).contains(self.name()));
    }

    /// A fill that is to be hedged is a buy exactly where the exchange calls it one, a sell
    /// exactly where it calls it that, and has the size, the price and the time that were
    /// told. It is of the active order and has not been dealt with before, and where it is
    /// partial it is worth more than 10 dollars.
    pub proof fn law_hedges_are_what_was_told(
        self,
        bot: state::Bot,
        processed: Set<Seq<char>>,
        now: Moment,
        r: FillAction,
    )
        requires
            self.answered(bot, processed, now, r),
            r is Hedge,
        ensures
            ({
                let (side, size, price, at) = r->Hedge_0;
                &&& side == OrderSide::Buy <==> self.side == "buy"@ || self.side == "bid"@
                &&& side == OrderSide::Sell ==> self.side == "sell"@ || self.side == "ask"@
                &&& size == self.size && price == self.price && at == now
                &&& self.id is Some && bot.active_order is Some
                    && bot.active_order->0.client_order_id == self.id->0
                &&& self.is_full ==> !processed.contains("full"@ + "_"@ + self.id->0)
                &&& !self.is_full ==> !processed.contains("partial"@ + "_"@ + self.id->0)
                &&& !self.is_full ==> Double::whole_number(10).below(
                    self.size.product(self.price),
                )
            }),
    {
    }

    /// The bot changes exactly where the fill is hedged. It waits for the hedge then, and
    /// its position has gone up by the size of a buy or down by that of a sell.
    pub proof fn law_fills_move_the_bot(
        self,
        bot: state::Bot,
        processed: Set<Seq<char>>,
        now: Moment,
        r: FillAction,
    )
        requires
            self.answered(bot, processed, now, r),
        ensures
            match r {
                FillAction::Hedge((side, size, price, at)) => {
                    let after = self.applied(bot, processed);
                    &&& after.status is Filled
                    &&& side == OrderSide::Buy ==> after.position == bot.position.sum(size)
                    &&& side == OrderSide::Sell ==> after.position == bot.position.difference(size)
                    &&& after.active_order == bot.active_order
                    &&& after.pending_orders == bot.pending_orders
                },
                _ => self.applied(bot, processed) == bot,
            },
    {
    }

    /// A full fill of the active order on a known side that comes for the first time is
    /// hedged, whatever it is worth.
    pub proof fn law_full_fills_are_hedged(
        self,
        bot: state::Bot,
        processed: Set<Seq<char>>,
        now: Moment,
        r: FillAction,
    )
        requires
            self.answered(bot, processed, now, r),
            self.is_full,
            self.id is Some,
            bot.active_order is Some,
            bot.active_order->0.client_order_id == self.id->0,
            !processed.contains("full"@ + "_"@ + self.id->0),
            self.side == "buy"@ || self.side == "bid"@ || self.side == "sell"@ || self.side
                == "ask"@,
        ensures
            r is Hedge,
    {
    }

    /// The number of the status afterwards.
    pub open spec fn numbered(self, bot: state::Bot, processed: Set<Seq<char>>, status: u8) -> int {
        if self.hedged(bot, processed) {
            AtomicBotStatus::Filled.number()
        } else {
            status as int
        }
    }

    /// A fill that is hedged takes the bot to the status that waits for a hedge, and the
    /// number of the status with it. So it is neither idle, where it places orders, nor
    /// does an order rest that it would cancel.
    pub proof fn law_fill_stops_trading(
        self,
        bot: state::Bot,
        processed: Set<Seq<char>>,
        status: u8,
    )
        requires
            self.hedged(bot, processed),
        ensures
            self.applied(bot, processed).status == state::Status::Filled,
            self.numbered(bot, processed, status) == self.applied(bot, processed).status.code(),
            self.numbered(bot, processed, status) != AtomicBotStatus::Idle.number(),
            self.numbered(bot, processed, status) != AtomicBotStatus::OrderPlaced.number(),
    {
    }

    /// The number stays in step with the status, whatever becomes of the fill.
    pub proof fn law_number_stays_in_step(
        self,
        bot: state::Bot,
        processed: Set<Seq<char>>,
        status: u8,
    )
        requires
            status == bot.status.code(),
        ensures
            self.numbered(bot, processed, status) == self.applied(bot, processed).status.code(),
    {
    }
}

/// A full fill that the stream has told of is not hedged again by polling, neither where
/// the order still counts as open nor by its trades.
pub proof fn law_polling_does_not_repeat_the_stream(
    report: Report,
    bot: state::Bot,
    processed: Set<Seq<char>>,
    later: Set<Seq<char>>,
    accounts: rest_fill_detection::Accounts,
    min_notional: Double,
    o: state::Order,
    open: MakerOpenOrder,
    trades: Seq<MakerTradeHistoryItem>,
    order_id: Seq<char>,
)
    requires
        report.is_full,
        report.hedged(bot, processed),
        report.remembered(bot, processed).subset_of(later),
    ensures
        report.id == Some(open.client_order_id@) ==> !accounts.hedges(min_notional, later, o, open),
        !rest_fill_detection::is_recovered(min_notional, later, trades, order_id, report.id->0),
{
    assert(report.remembered(bot, processed).contains(report.name()));
}

/// A full fill that polling has found is not hedged again when the stream tells of it.
pub proof fn law_stream_does_not_repeat_polling(
    report: Report,
    bot: state::Bot,
    accounts: rest_fill_detection::Accounts,
    min_notional: Double,
    processed: Set<Seq<char>>,
    later: Set<Seq<char>>,
    o: state::Order,
    open: MakerOpenOrder,
)
    requires
        report.is_full,
        report.id == Some(open.client_order_id@),
        accounts.hedges(min_notional, processed, o, open),
        rest_fill_detection::is_full(o, open),
        processed.union(
            rest_fill_detection::fill_names(
                text::optional_text(open.order_id),
                Some(open.client_order_id@),
                true,
                "rest"@,
            ),
        ).subset_of(later),
    ensures
        !report.hedged(bot, later),
{
    let marked = processed.union(
        rest_fill_detection::fill_names(
            text::optional_text(open.order_id),
            Some(open.client_order_id@),
            true,
            "rest"@,
        ),
    );
    assert(marked.contains(report.name()));
}

/// Judges a fill that was detected at `now`. The number of the bot's status follows it.
pub fn handle_fill(
    bot: &mut BotState,
    processed: &mut ProcessedFills,
    status: &mut u8,
    is_full: bool,
    side: &str,
    size: Double,
    price: Double,
    client_order_id: &Option<String>,
    now: Moment,
) -> (r: FillAction)
    requires
        old(bot).wf(),
    ensures
        final(bot).wf(),
        ({
            let report = Report {
                is_full,
                side: side@,
                size,
                price,
                id: text::optional_text(*client_order_id),
            };
            &&& final(processed)@ == report.remembered(old(bot)@, old(processed)@)
            &&& final(bot)@ == report.applied(old(bot)@, old(processed)@)
            &&& *final(status) == report.numbered(old(bot)@, old(processed)@, *old(status))
            &&& report.answered(old(bot)@, old(processed)@, now, r)
        }),
{
    let ghost report = Report {
        is_full,
        side: side@,
        size,
        price,
        id: text::optional_text(*client_order_id),
    };
    if !is_full && !size.times(&price).gt(&Double::whole(MIN_PARTIAL_NOTIONAL)) {
        return FillAction::TooSmall;
    }
    if !is_our_order(bot, client_order_id) {
        return FillAction::Ignore;
    }
    let name = match client_order_id {
        Some(id) => rest_fill_detection::name_of_fill(is_full, id.as_str()),
        None => {
            return FillAction::Ignore;
        },
    };
    if processed.contains(name.as_str()) {
        assert(processed@.insert(report.name()) =~= processed@);
        return FillAction::Duplicate;
    }
    processed.insert(name);
    match read_side(side) {
        None => FillAction::UnknownSide,
        Some(order_side) => {
            bot.mark_filled(size, order_side);
            sync_atomic_status(status, &bot.status);
            FillAction::Hedge((order_side, size, price, now))
        },
    }
}

/// Judges the cancellation, at `now`, of an order: only one that rests on the exchange
/// is given up. Once it has been filled, the cancellation of its rest changes nothing.
pub fn handle_cancelled(
    bot: &mut BotState,
    status: &mut u8,
    snapshot: &mut SharedOrderSnapshot,
    client_order_id: &Option<String>,
    now: Moment,
) -> (r: FillAction)
    requires
        old(bot).wf(),
    ensures
        final(bot).wf(),
        ({
            let given_up = is_active(old(bot)@, text::optional_text(*client_order_id)) && old(
                bot,
            )@.status == state::Status::OrderPlaced;
            if given_up {
                &&& r is Released
                &&& final(bot)@ == old(bot)@.cleared(now)
                &&& *final(status) == AtomicBotStatus::Idle.number()
                &&& final(snapshot)@ is None
            } else {
                &&& r is Ignore
                &&& *final(bot) == *old(bot)
                &&& *final(status) == *old(status)
                &&& *final(snapshot) == *old(snapshot)
            }
        }),
{
    if is_our_order(bot, client_order_id) && matches!(bot.status, BotStatus::OrderPlaced) {
        bot.clear_active_order_at(now);
        sync_atomic_status(status, &bot.status);
        snapshot.set(None);
        return FillAction::Released;
    }
    FillAction::Ignore
}

/// Judges an event that came at `now`. The number of the bot's status follows it.
pub fn handle_event(
    bot: &mut BotState,
    processed: &mut ProcessedFills,
    status: &mut u8,
    snapshot: &mut SharedOrderSnapshot,
    event: &FillEvent,
    now: Moment,
) -> (r: FillAction)
    requires
        old(bot).wf(),
    ensures
        final(bot).wf(),
        match event {
            FillEvent::FullFill { side, filled_amount, avg_price, client_order_id, .. } => {
                let report = Report {
                    is_full: true,
                    side: side@,
                    size: *filled_amount,
                    price: *avg_price,
                    id: text::optional_text(*client_order_id),
                };
                &&& final(processed)@ == report.remembered(old(bot)@, old(processed)@)
                &&& final(bot)@ == report.applied(old(bot)@, old(processed)@)
                &&& report.answered(old(bot)@, old(processed)@, now, r)
                &&& *final(status) == report.numbered(old(bot)@, old(processed)@, *old(status))
                &&& *final(snapshot) == *old(snapshot)
            },
            FillEvent::PartialFill { side, filled_amount, avg_price, client_order_id, .. } => {
                let report = Report {
                    is_full: false,
                    side: side@,
                    size: *filled_amount,
                    price: *avg_price,
                    id: text::optional_text(*client_order_id),
                };
                &&& final(processed)@ == report.remembered(old(bot)@, old(processed)@)
                &&& final(bot)@ == report.applied(old(bot)@, old(processed)@)
                &&& report.answered(old(bot)@, old(processed)@, now, r)
                &&& *final(status) == report.numbered(old(bot)@, old(processed)@, *old(status))
                &&& *final(snapshot) == *old(snapshot)
            },
            FillEvent::Cancelled { client_order_id, .. } => {
                &&& final(processed)@ == old(processed)@
                &&& if is_active(old(bot)@, text::optional_text(*client_order_id)) && old(
                    bot,
                )@.status == state::Status::OrderPlaced {
                    &&& r is Released
                    &&& final(bot)@ == old(bot)@.cleared(now)
                    &&& *final(status) == AtomicBotStatus::Idle.number()
                    &&& final(snapshot)@ is None
                } else {
                    &&& r is Ignore
                    &&& *final(bot) == *old(bot)
                    &&& *final(status) == *old(status)
                    &&& *final(snapshot) == *old(snapshot)
                }
            },
            FillEvent::PositionFill => {
                &&& r is Ignore
                &&& *final(bot) == *old(bot)
                &&& final(processed)@ == old(processed)@
                &&& *final(status) == *old(status)
                &&& *final(snapshot) == *old(snapshot)
            },
        },
{
    match event {
        FillEvent::FullFill { side, filled_amount, avg_price, client_order_id, .. } => {
            handle_fill(
                bot,
                processed,
                status,
                true,
                side.as_str(),
                *filled_amount,
                *avg_price,
                client_order_id,
                now,
            )
        },
        FillEvent::PartialFill { side, filled_amount, avg_price, client_order_id, .. } => {
            handle_fill(
                bot,
                processed,
                status,
                false,
                side.as_str(),
                *filled_amount,
                *avg_price,
                client_order_id,
                now,
            )
        },
        FillEvent::Cancelled { client_order_id, .. } => handle_cancelled(
            bot,
            status,
            snapshot,
            client_order_id,
            now,
        ),
        FillEvent::PositionFill => FillAction::Ignore,
    }
}

} // verus!
