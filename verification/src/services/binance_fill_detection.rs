//! Detects fills by the events of Binance's user stream.
use super::ledger;
use super::ledger::{Amounts, ProcessedFills};
use super::order_monitor::{sync_atomic_status, AtomicBotStatus};
use super::rest_fill_detection;
use super::DetectedFill;
use super::Fill;
use crate::bot::state;
use crate::bot::{BotState, BotStatus};
use crate::clock::Moment;
use crate::connector::maker::{MakerOpenOrder, MakerOrderSide};
use crate::double;
use crate::double::arithmetic;
use crate::double::laws;
use crate::double::rounding;
use crate::double::Double;
use crate::strategy::OrderSide;
use crate::text;
use crate::util::api_health::BinanceApiHealth;
use vstd::arithmetic::mul::*;
use vstd::arithmetic::power2::*;
use vstd::prelude::*;
use vstd::string::*;

verus! {

/// The symbol is the target, or the target quoted in one of the stable coins.
pub open spec fn names_symbol(event_symbol: Seq<char>, target: Seq<char>) -> bool {
    ||| text::same_letters(event_symbol, target)
    ||| text::same_letters(event_symbol, text::upper(target) + "USDT"@)
    ||| text::same_letters(event_symbol, text::upper(target) + "USDC"@)
    ||| text::same_letters(event_symbol, text::upper(target) + "BUSD"@)
    ||| text::same_letters(event_symbol, text::upper(target) + "FDUSD"@)
}

fn is_quoted_in(event_symbol: &str, upper: &String, quote: &str) -> (r: bool)
    ensures
        r == text::same_letters(event_symbol@, upper@ + quote@),
{
    let candidate = upper.clone().concat(quote);
    text::eq_ignore_ascii_case(event_symbol, candidate.as_str())
}

/// Whether an event's symbol is the target.
pub fn symbol_matches(event_symbol: &str, target_symbol: &str) -> (r: bool)
    ensures
        r == names_symbol(event_symbol@, target_symbol@),
{
    if text::eq_ignore_ascii_case(event_symbol, target_symbol) {
        return true;
    }
    let upper = text::to_ascii_uppercase(target_symbol);
    is_quoted_in(event_symbol, &upper, "USDT") || is_quoted_in(event_symbol, &upper, "USDC")
        || is_quoted_in(event_symbol, &upper, "BUSD") || is_quoted_in(event_symbol, &upper, "FDUSD")
}

/// A trade of one of the account's orders.
#[derive(Debug)]
pub struct StreamTrade {
    pub symbol: String,
    pub side: MakerOrderSide,
    pub client_order_id: Option<String>,
    pub order_id: Option<String>,
    /// What has been filled of the order so far.
    pub cumulative_fill_qty: Double,
    /// That amount in decimal digits.
    pub cumulative_fill_text: String,
    pub fill_price: Double,
    pub order_status: String,
}

impl StreamTrade {
    /// The name of the order in the accounts: its own id, or else the exchange's.
    pub open spec fn key(self) -> Seq<char> {
        match (self.client_order_id, self.order_id) {
            (Some(id), _) => id@,
            (None, Some(id)) => id@,
            (None, None) => "unknown"@,
        }
    }

    pub open spec fn strategy_side(self) -> OrderSide {
        match self.side {
            MakerOrderSide::Buy => OrderSide::Buy,
            MakerOrderSide::Sell => OrderSide::Sell,
        }
    }

    /// The pending order that the trade is about.
    pub open spec fn order_in(self, bot: state::Bot) -> Option<state::Pending> {
        bot.find(text::optional_text(self.client_order_id), text::optional_text(self.order_id))
    }

    /// The name under which the trade is remembered.
    pub open spec fn name(self) -> Seq<char> {
        "binance_stream_"@ + self.key() + "_"@ + self.cumulative_fill_text@
    }

    /// What the trade adds to what was filled before.
    pub open spec fn increment(self, filled: Map<Seq<char>, Double>) -> Double {
        self.cumulative_fill_qty.difference(ledger::amount_of(filled, self.key())).larger(
            Double::whole_number(0),
        )
    }

    /// The trade is of the symbol, and of an order that is pending.
    pub open spec fn concerns(self, symbol: Seq<char>, bot: state::Bot) -> bool {
        names_symbol(self.symbol@, symbol) && self.order_in(bot) is Some
    }

    /// The amounts filled, after the trade.
    pub open spec fn counted(
        self,
        symbol: Seq<char>,
        bot: state::Bot,
        filled: Map<Seq<char>, Double>,
    ) -> Map<Seq<char>, Double> {
        if self.concerns(symbol, bot) && ledger::amount_of(filled, self.key()).below(
            self.cumulative_fill_qty,
        ) {
            filled.insert(self.key(), self.cumulative_fill_qty)
        } else {
            filled
        }
    }

    /// An order is full where the exchange says so, or all of its size is filled, or all
    /// but 10^-9 of it.
    pub proof fn law_full_trades(self, order: state::Order)
        ensures
            self.order_status@ == "FILLED"@ ==> self.is_full(order),
            self.order_status@ != "FILLED"@ ==> (self.is_full(order) <==> order.size.at_most(
                self.cumulative_fill_qty.sum(Double::fraction(1, 1_000_000_000)),
            )),
            self.cumulative_fill_qty.finite() && self.cumulative_fill_qty.non_negative()
                && order.size.at_most(self.cumulative_fill_qty) ==> self.is_full(order),
            self.strategy_side() == OrderSide::Buy <==> self.side == MakerOrderSide::Buy,
    {
        laws::lemma_small_fraction(1_000_000_000);
        if self.cumulative_fill_qty.finite() && self.cumulative_fill_qty.non_negative() {
            arithmetic::lemma_sum_no_smaller(
                self.cumulative_fill_qty,
                Double::fraction(1, 1_000_000_000),
            );
        }
    }

    /// Nothing of the order is left.
    pub open spec fn is_full(self, order: state::Order) -> bool {
        self.order_status@ == "FILLED"@ || order.size.at_most(
            self.cumulative_fill_qty.sum(rest_fill_detection::tolerance()),
        )
    }

    /// The trade is to be dealt with: it adds something to a pending order, is on that
    /// order's side, completes it or is worth at least `min_notional`, and is new.
    pub open spec fn accepted(
        self,
        symbol: Seq<char>,
        min_notional: Double,
        bot: state::Bot,
        filled: Map<Seq<char>, Double>,
        processed: Set<Seq<char>>,
    ) -> bool {
        let order = self.order_in(bot)->0.order;
        &&& self.concerns(symbol, bot)
        &&& !self.increment(filled).at_most(Double::whole_number(0))
        &&& self.strategy_side() == order.side
        &&& self.is_full(order) || !self.increment(filled).product(self.fill_price).below(
            min_notional,
        )
        &&& !processed.contains(self.name())
    }

    pub open spec fn fill(self, bot: state::Bot, filled: Map<Seq<char>, Double>) -> Fill {
        Fill {
            side: self.strategy_side(),
            size: self.increment(filled),
            price: self.fill_price,
            exchange_order_id: text::optional_text(self.order_id),
            client_order_id: text::optional_text(self.client_order_id),
            is_full_fill: self.is_full(self.order_in(bot)->0.order),
            source: "binance_user_stream"@,
        }
    }

    /// The bot after a trade that is dealt with: the order is the active one, and no
    /// longer pending if nothing of it is left.
    pub open spec fn applied(self, bot: state::Bot, filled: Map<Seq<char>, Double>) -> state::Bot {
        let order = self.order_in(bot)->0.order;
        rest_fill_detection::with_fill(
            if self.is_full(order) {
                rest_fill_detection::without_pending(
                    bot,
                    text::optional_text(self.client_order_id),
                    text::optional_text(self.order_id),
                )
            } else {
                bot
            },
            Some(order),
            self.increment(filled),
            self.strategy_side(),
        )
    }

    /// A fill that is handed over is on the side of the pending order that the trade
    /// belongs to, which is also the trade's. It has the trade's price and ids, and its size
    /// is what the trade adds to what was filled before, up to rounding. It is full exactly
    /// where the exchange says so, or what has been filled reaches the order's size up to 10^-9.
    pub proof fn law_fills_are_on_the_orders_side(
        self,
        symbol: Seq<char>,
        min_notional: Double,
        bot: state::Bot,
        filled: Map<Seq<char>, Double>,
        processed: Set<Seq<char>>,
    )
        requires
            self.accepted(symbol, min_notional, bot, filled, processed),
        ensures
            ({
                let order = bot.find(
                    text::optional_text(self.client_order_id),
                    text::optional_text(self.order_id),
                )->0.order;
                let fill = self.fill(bot, filled);
                let part = self.cumulative_fill_qty.amount() - ledger::amount_of(
                    filled,
                    self.key(),
                ).amount();
                &&& bot.pending_orders.contains(
                    bot.find(
                        text::optional_text(self.client_order_id),
                        text::optional_text(self.order_id),
                    )->0,
                )
                &&& fill.side == order.side
                &&& fill.side == OrderSide::Buy <==> self.side == MakerOrderSide::Buy
                &&& fill.price == self.fill_price
                &&& fill.client_order_id == text::optional_text(self.client_order_id)
                &&& fill.exchange_order_id == text::optional_text(self.order_id)
                &&& fill.is_full_fill == (self.order_status@ == "FILLED"@ || order.size.at_most(
                    self.cumulative_fill_qty.sum(Double::fraction(1, 1_000_000_000)),
                ))
                &&& fill.size.positive()
                &&& self.cumulative_fill_qty.finite() && ledger::amount_of(
                    filled,
                    self.key(),
                ).finite() && ledger::amount_of(filled, self.key()).non_negative()
                    ==> laws::distance(fill.size.amount(), part) * pow2(53) <= part
            }),
    {
        let counted = ledger::amount_of(filled, self.key());
        arithmetic::lemma_zero();
        bot.law_found_orders_have_the_id(
            text::optional_text(self.client_order_id),
            text::optional_text(self.order_id),
        );
        if self.cumulative_fill_qty.finite() && counted.finite() && counted.non_negative() {
            rest_fill_detection::lemma_sent_part(self.cumulative_fill_qty, counted);
            laws::law_difference_is_near(self.cumulative_fill_qty, counted);
            laws::lemma_smaller_is_finite(self.cumulative_fill_qty, counted);
        }
    }

    /// After a trade that is dealt with, the order is the active one and the bot waits for
    /// the hedge. The position has gone up by the fill of a buy, and down by that of a
    /// sell. A full fill takes the order out of the pending ones, a partial one does not.
    pub proof fn law_accepted_trades_move_the_bot(
        self,
        symbol: Seq<char>,
        min_notional: Double,
        bot: state::Bot,
        filled: Map<Seq<char>, Double>,
        processed: Set<Seq<char>>,
    )
        requires
            self.accepted(symbol, min_notional, bot, filled, processed),
        ensures
            ({
                let order = bot.find(
                    text::optional_text(self.client_order_id),
                    text::optional_text(self.order_id),
                )->0.order;
                let fill = self.fill(bot, filled);
                let after = self.applied(bot, filled);
                &&& after.status is Filled
                &&& after.active_order == Some(order)
                &&& order.side == OrderSide::Buy ==> after.position == bot.position.sum(fill.size)
                &&& order.side == OrderSide::Sell ==> after.position == bot.position.difference(
                    fill.size,
                )
                &&& fill.is_full_fill ==> after.pending_orders.len() + 1
                    == bot.pending_orders.len()
                &&& !fill.is_full_fill ==> after.pending_orders == bot.pending_orders
            }),
    {
        state::lemma_place_of(
            bot.pending_orders,
            text::optional_text(self.client_order_id),
            text::optional_text(self.order_id),
        );
    }

    /// A trade is dealt with once.
    pub proof fn law_accepted_once(
        self,
        symbol: Seq<char>,
        min_notional: Double,
        later_bot: state::Bot,
        later_filled: Map<Seq<char>, Double>,
        processed: Set<Seq<char>>,
    )
        requires
            processed.contains(self.name()),
        ensures
            !self.accepted(symbol, min_notional, later_bot, later_filled, processed),
    {
    }

    /// The names of an order's trades tell the amounts that have been filled apart, as
    /// they are written.
    pub proof fn law_names_tell_amounts_apart(self, other: StreamTrade)
        requires
            self.key() == other.key(),
            self.name() == other.name(),
        ensures
            self.cumulative_fill_text@ == other.cumulative_fill_text@,
    {
        let head = "binance_stream_"@ + self.key() + "_"@;
        assert(self.name().skip(head.len() as int) =~= self.cumulative_fill_text@);
        assert(other.name().skip(head.len() as int) =~= other.cumulative_fill_text@);
    }

    /// A trade that completes an order keeps polling from hedging it again.
    pub proof fn law_polling_does_not_repeat_the_stream(
        self,
        processed: Set<Seq<char>>,
        accounts: rest_fill_detection::Accounts,
        min_notional: Double,
        o: state::Order,
        open: MakerOpenOrder,
    )
        requires
            processed.contains(rest_fill_detection::fill_name(true, self.key())),
            self.client_order_id is Some,
            open.client_order_id@ == self.client_order_id->0@,
        ensures
            !accounts.hedges(min_notional, processed, o, open),
    {
    }

    /// More has been filled exactly where the trade adds something. So a trade of a
    /// pending order, on that order's side and not met before, is dealt with exactly where
    /// it tells of more than was counted before, and completes the order or is worth
    /// enough.
    pub proof fn law_accepted_where_more_is_filled(
        self,
        symbol: Seq<char>,
        min_notional: Double,
        bot: state::Bot,
        filled: Map<Seq<char>, Double>,
        processed: Set<Seq<char>>,
    )
        requires
            self.concerns(symbol, bot),
            self.strategy_side() == self.order_in(bot)->0.order.side,
            !processed.contains(self.name()),
        ensures
            ({
                let before = ledger::amount_of(filled, self.key());
                let worth = self.increment(filled).product(self.fill_price);
                &&& !self.increment(filled).at_most(Double::whole_number(0)) == before.below(
                    self.cumulative_fill_qty,
                )
                &&& self.accepted(symbol, min_notional, bot, filled, processed) == (before.below(
                    self.cumulative_fill_qty,
                ) && (self.is_full(self.order_in(bot)->0.order) || !worth.below(min_notional)))
            }),
    {
        lemma_increment(self.cumulative_fill_qty, ledger::amount_of(filled, self.key()));
    }

    /// After a trade has been counted, an event that tells of no larger amount adds nothing.
    pub proof fn law_amounts_only_grow(
        self,
        later: StreamTrade,
        symbol: Seq<char>,
        bot: state::Bot,
        later_bot: state::Bot,
        filled: Map<Seq<char>, Double>,
    )
        requires
            self.concerns(symbol, bot),
            later.key() == self.key(),
            later.cumulative_fill_qty.at_most(self.cumulative_fill_qty),
        ensures
            later.counted(symbol, later_bot, self.counted(symbol, bot, filled)) == self.counted(
                symbol,
                bot,
                filled,
            ),
    {
    }
}

/// A difference is above zero exactly where the one number is above the other.
proof fn lemma_increment(after: Double, before: Double)
    ensures
        !after.difference(before).larger(Double::whole_number(0)).at_most(Double::whole_number(0))
            == before.below(after),
{
    arithmetic::lemma_zero();
    double::lemma_units_order(after.magnitude(), 0);
    double::lemma_units_order(before.magnitude(), 0);
    double::lemma_units_order(after.magnitude(), double::INFINITY as int);
    double::lemma_units_order(before.magnitude(), double::INFINITY as int);
    double::lemma_units_order(double::INFINITY as int, 0);
    if after.finite() && before.finite() {
        let part = after.amount() - before.amount();
        arithmetic::lemma_difference_order(after, after, before);
        if part > 0 {
            arithmetic::lemma_nearest_positive(part);
            double::lemma_units_order(rounding::nearest_magnitude(part, 1), 0);
        } else {
            arithmetic::lemma_nearest_order(part, 0, 1);
            arithmetic::lemma_nearest_zero(1);
        }
    }
}

/// A trade, with the bot and the fills that have been dealt with when it came.
pub struct Arrival {
    pub trade: StreamTrade,
    pub bot: state::Bot,
    pub processed: Set<Seq<char>>,
}

impl Arrival {
    /// The trade is of the order with the given name, and is sent to be hedged.
    pub open spec fn sends(
        self,
        key: Seq<char>,
        symbol: Seq<char>,
        min_notional: Double,
        filled: Map<Seq<char>, Double>,
    ) -> bool {
        &&& self.trade.key() == key
        &&& self.trade.accepted(symbol, min_notional, self.bot, filled, self.processed)
        &&& !self.bot.status.terminal()
    }
}

/// The amounts filled, after some trades of any orders.
pub open spec fn filled_after(
    symbol: Seq<char>,
    filled: Map<Seq<char>, Double>,
    arrivals: Seq<Arrival>,
) -> Map<Seq<char>, Double>
    decreases arrivals.len(),
{
    if arrivals.len() == 0 {
        filled
    } else {
        let last = arrivals.last();
        last.trade.counted(symbol, last.bot, filled_after(symbol, filled, arrivals.drop_last()))
    }
}

/// The sizes that the trades of one order send to be hedged, added up.
pub open spec fn sent(
    key: Seq<char>,
    symbol: Seq<char>,
    min_notional: Double,
    filled: Map<Seq<char>, Double>,
    arrivals: Seq<Arrival>,
) -> int
    decreases arrivals.len(),
{
    if arrivals.len() == 0 {
        0
    } else {
        let before = filled_after(symbol, filled, arrivals.drop_last());
        sent(key, symbol, min_notional, filled, arrivals.drop_last())
            + if arrivals.last().sends(key, symbol, min_notional, before) {
            arrivals.last().trade.increment(before).amount()
        } else {
            0
        }
    }
}

/// What the amounts filled grow by in the trades that are sent, added up exactly.
pub open spec fn covered(
    key: Seq<char>,
    symbol: Seq<char>,
    min_notional: Double,
    filled: Map<Seq<char>, Double>,
    arrivals: Seq<Arrival>,
) -> int
    decreases arrivals.len(),
{
    if arrivals.len() == 0 {
        0
    } else {
        let before = filled_after(symbol, filled, arrivals.drop_last());
        covered(key, symbol, min_notional, filled, arrivals.drop_last())
            + if arrivals.last().sends(key, symbol, min_notional, before) {
            arrivals.last().trade.cumulative_fill_qty.amount() - ledger::amount_of(
                before,
                key,
            ).amount()
        } else {
            0
        }
    }
}

/// What rounding loses in what is sent.
pub open spec fn lost_in_sending(
    key: Seq<char>,
    symbol: Seq<char>,
    min_notional: Double,
    filled: Map<Seq<char>, Double>,
    arrivals: Seq<Arrival>,
) -> int
    decreases arrivals.len(),
{
    if arrivals.len() == 0 {
        0
    } else {
        let before = filled_after(symbol, filled, arrivals.drop_last());
        lost_in_sending(key, symbol, min_notional, filled, arrivals.drop_last())
            + if arrivals.last().sends(key, symbol, min_notional, before) {
            Double::lost(
                arrivals.last().trade.cumulative_fill_qty.amount() - ledger::amount_of(
                    before,
                    key,
                ).amount(),
                1,
            )
        } else {
            0
        }
    }
}

/// The largest amount that the trades of a pending order have told of, or the one that
/// was counted before them.
pub open spec fn largest(
    key: Seq<char>,
    symbol: Seq<char>,
    filled: Map<Seq<char>, Double>,
    arrivals: Seq<Arrival>,
) -> int
    decreases arrivals.len(),
{
    if arrivals.len() == 0 {
        ledger::amount_of(filled, key).amount()
    } else {
        let before = largest(key, symbol, filled, arrivals.drop_last());
        let last = arrivals.last();
        let told = last.trade.cumulative_fill_qty;
        if last.trade.key() == key && last.trade.concerns(symbol, last.bot) && !told.nan()
            && before < told.amount() {
            told.amount()
        } else {
            before
        }
    }
}

/// Over any trades, in whatever order and mixed with those of other orders, the sizes
/// that are sent for one order add up to at most the largest amount that its trades have
/// told of, beyond what was counted before them: up to what rounding loses in the
/// differences, which is at most 2^-53 of it. The amount counted is always that largest one.
pub proof fn law_hedges_stay_within_the_fills(
    key: Seq<char>,
    symbol: Seq<char>,
    min_notional: Double,
    filled: Map<Seq<char>, Double>,
    arrivals: Seq<Arrival>,
)
    requires
        ledger::amount_of(filled, key).finite(),
        ledger::amount_of(filled, key).non_negative(),
        forall|i: int|
            0 <= i < arrivals.len() ==> (#[trigger] arrivals[i]).trade.cumulative_fill_qty.bits
                != double::INFINITY,
    ensures
        ({
            let start = ledger::amount_of(filled, key).amount();
            let counted = ledger::amount_of(filled_after(symbol, filled, arrivals), key);
            let sent = sent(key, symbol, min_notional, filled, arrivals);
            let covered = covered(key, symbol, min_notional, filled, arrivals);
            let lost = lost_in_sending(key, symbol, min_notional, filled, arrivals);
            &&& sent - lost <= covered <= sent + lost
            &&& 0 <= covered <= largest(key, symbol, filled, arrivals) - start
            &&& lost * pow2(53) <= covered
            &&& counted.amount() == largest(key, symbol, filled, arrivals)
            &&& counted.finite() && counted.non_negative()
        }),
    decreases arrivals.len(),
{
    if arrivals.len() == 0 {
        lemma_mul_basics(pow2(53) as int);
    } else {
        let earlier = arrivals.drop_last();
        let last = arrivals.last();
        assert forall|i: int| 0 <= i < earlier.len() implies (
        #[trigger] earlier[i]).trade.cumulative_fill_qty.bits != double::INFINITY by {
            assert(earlier[i] == arrivals[i]);
        }
        assert(arrivals[arrivals.len() - 1] == last);
        law_hedges_stay_within_the_fills(key, symbol, min_notional, filled, earlier);
        let before = filled_after(symbol, filled, earlier);
        let counted = ledger::amount_of(before, key);
        let told = last.trade.cumulative_fill_qty;
        double::lemma_units_order(told.magnitude(), 0);
        if last.sends(key, symbol, min_notional, before) {
            lemma_increment(told, counted);
            rest_fill_detection::lemma_sent_part(told, counted);
            lemma_mul_is_distributive_add_other_way(
                pow2(53) as int,
                lost_in_sending(key, symbol, min_notional, filled, earlier),
                Double::lost(told.amount() - counted.amount(), 1),
            );
        }
    }
}

/// What a trade asks for.
#[derive(Debug)]
pub enum StreamAction {
    /// Nothing.
    Ignore,
    /// The trade is on the other side than the order: nothing, but a warning.
    SideMismatch,
    /// Record the fill; the bot has come to its end and does not hedge it.
    RecordOnly(DetectedFill),
    /// Record the fill, cancel the symbol's orders, and hedge.
    Hedge(DetectedFill),
}

/// Detects fills of a symbol's orders by the events of the stream.
#[derive(Debug)]
pub struct BinanceFillDetector {
    pub symbol: String,
    /// The value in dollars below which a partial fill is not hedged.
    pub min_hedge_notional: Double,
    cumulative_fill_state: Amounts,
}

impl View for BinanceFillDetector {
    type V = Map<Seq<char>, Double>;

    /// The amounts filled so far.
    closed spec fn view(&self) -> Map<Seq<char>, Double> {
        self.cumulative_fill_state@
    }
}

impl BinanceFillDetector {
    pub closed spec fn watched_symbol(&self) -> Seq<char> {
        self.symbol@
    }

    pub closed spec fn min_notional(&self) -> Double {
        self.min_hedge_notional
    }

    pub closed spec fn wf(&self) -> bool {
        self.cumulative_fill_state.wf()
    }

    pub fn new(symbol: String, min_hedge_notional: Double) -> (d: BinanceFillDetector)
        ensures
            d.wf(),
            d@ == Map::<Seq<char>, Double>::empty(),
            d.watched_symbol() == symbol@,
            d.min_notional() == min_hedge_notional,
    {
        BinanceFillDetector { symbol, min_hedge_notional, cumulative_fill_state: Amounts::new() }
    }

    /// Judges a trade. A fill that is dealt with is remembered, and the bot's state and
    /// the number of its status tell of it unless the bot has come to its end.
    pub fn handle_trade(
        &mut self,
        bot: &mut BotState,
        processed: &mut ProcessedFills,
        status: &mut u8,
        trade: &StreamTrade,
    ) -> (r: StreamAction)
        requires
            old(self).wf(),
            old(bot).wf(),
        ensures
            final(self).wf(),
            final(bot).wf(),
            final(self).watched_symbol() == old(self).watched_symbol(),
            final(self).min_notional() == old(self).min_notional(),
            ({
                let symbol = old(self).watched_symbol();
                let min = old(self).min_notional();
                let (b, filled, known) = (old(bot)@, old(self)@, old(processed)@);
                &&& final(self)@ == trade.counted(symbol, b, filled)
                &&& if trade.accepted(symbol, min, b, filled, known) {
                    &&& final(processed)@ == known.insert(trade.name()).insert(
                        rest_fill_detection::fill_name(
                            trade.is_full(trade.order_in(b)->0.order),
                            trade.key(),
                        ),
                    )
                    &&& if b.status.terminal() {
                        &&& r matches StreamAction::RecordOnly(f) && f@ == trade.fill(b, filled)
                        &&& final(bot)@ == b
                        &&& *final(status) == *old(status)
                    } else {
                        &&& r matches StreamAction::Hedge(f) && f@ == trade.fill(b, filled)
                        &&& final(bot)@ == trade.applied(b, filled)
                        &&& *final(status) == AtomicBotStatus::Filled.number()
                    }
                } else {
                    &&& r is Ignore || r is SideMismatch
                    &&& r is SideMismatch <==> trade.concerns(symbol, b) && !trade.increment(
                        filled,
                    ).at_most(Double::whole_number(0)) && trade.strategy_side()
                        != trade.order_in(b)->0.order.side
                    &&& final(processed)@ == known
                    &&& final(bot)@ == b
                    &&& *final(status) == *old(status)
                }
            }),
    {
        if !symbol_matches(trade.symbol.as_str(), self.symbol.as_str()) {
            return StreamAction::Ignore;
        }
        let client = text::slice_optional(&trade.client_order_id);
        let exchange = text::slice_optional(&trade.order_id);
        let found = bot.find_pending_order(client, exchange);
        let pending = match found {
            Some(p) => p,
            None => {
                return StreamAction::Ignore;
            },
        };
        let key = match (&trade.client_order_id, &trade.order_id) {
            (Some(id), _) => id.clone(),
            (None, Some(id)) => id.clone(),
            (None, None) => "unknown".to_owned(),
        };
        let prev = self.cumulative_fill_state.get_or_zero(key.as_str());
        let zero = Double::whole(0);
        let increment = trade.cumulative_fill_qty.minus(&prev).max(&zero);
        if trade.cumulative_fill_qty.gt(&prev) {
            self.cumulative_fill_state.insert(key.as_str(), trade.cumulative_fill_qty);
        }
        if increment.le(&zero) {
            return StreamAction::Ignore;
        }
        let order_side = match trade.side {
            MakerOrderSide::Buy => OrderSide::Buy,
            MakerOrderSide::Sell => OrderSide::Sell,
        };
        if order_side != pending.order.side {
            return StreamAction::SideMismatch;
        }
        let full = text::same(trade.order_status.as_str(), "FILLED") || pending.order.size.le(
            &trade.cumulative_fill_qty.plus(&Double::ratio(1, 1_000_000_000)),
        );
        if !full && increment.times(&trade.fill_price).lt(&self.min_hedge_notional) {
            return StreamAction::Ignore;
        }
        let mut name = "binance_stream_".to_owned();
        name.append(key.as_str());
        name.append("_");
        name.append(trade.cumulative_fill_text.as_str());
        if processed.contains(name.as_str()) {
            return StreamAction::Ignore;
        }
        processed.insert(name);
        processed.insert(rest_fill_detection::name_of_fill(full, key.as_str()));
        let fill = DetectedFill {
            side: order_side,
            size: increment,
            price: trade.fill_price,
            exchange_order_id: text::copy_optional(&trade.order_id),
            client_order_id: text::copy_optional(&trade.client_order_id),
            is_full_fill: full,
            source: "binance_user_stream".to_owned(),
        };
        if bot.is_terminal() {
            return StreamAction::RecordOnly(fill);
        }
        if full {
            let _ = bot.remove_pending_order(client, exchange);
        }
        bot.active_order = Some(pending.order);
        bot.mark_filled(increment, order_side);
        sync_atomic_status(status, &bot.status);
        StreamAction::Hedge(fill)
    }

    /// Judges the cancellation, at `now`, of an order: it is no longer pending, and where
    /// it was the active one and rested on the exchange, the bot is idle, as is the number
    /// of its status. Says whether that was so.
    pub fn handle_cancelled(
        &self,
        bot: &mut BotState,
        status: &mut u8,
        event_symbol: &str,
        client_order_id: &Option<String>,
        order_id: &Option<String>,
        now: Moment,
    ) -> (r: bool)
        requires
            old(bot).wf(),
        ensures
            final(bot).wf(),
            ({
                let client = text::optional_text(*client_order_id);
                let exchange = text::optional_text(*order_id);
                let b = old(bot)@;
                let rest = rest_fill_detection::without_pending(b, client, exchange);
                if !names_symbol(event_symbol@, self.watched_symbol()) {
                    !r && final(bot)@ == b && *final(status) == *old(status)
                } else {
                    &&& r == (b.find(client, exchange) is Some && active_has_id(b, client, exchange)
                        && b.status == state::Status::OrderPlaced)
                    &&& final(bot)@ == if r {
                        rest.cleared(now)
                    } else {
                        rest
                    }
                    &&& *final(status) == if r {
                        AtomicBotStatus::Idle.number()
                    } else {
                        *old(status) as int
                    }
                }
            }),
    {
        if !symbol_matches(event_symbol, self.symbol.as_str()) {
            return false;
        }
        let client = text::slice_optional(client_order_id);
        let exchange = text::slice_optional(order_id);
        let removed = bot.remove_pending_order(client, exchange);
        let is_active = match &bot.active_order {
            Some(o) => {
                let by_client = match client_order_id {
                    Some(id) => text::same(o.client_order_id.as_str(), id.as_str()),
                    None => false,
                };
                let by_exchange = match (order_id, &o.exchange_order_id) {
                    (Some(id), Some(own)) => text::same(own.as_str(), id.as_str()),
                    _ => false,
                };
                by_client || by_exchange
            },
            None => false,
        };
        if removed.is_some() && is_active && matches!(bot.status, BotStatus::OrderPlaced) {
            bot.clear_active_order_at(now);
            sync_atomic_status(status, &bot.status);
            return true;
        }
        false
    }
}

/// An active order has an id where it is its own, by whichever of the two it is told;
/// without an active order there is none to have it.
pub proof fn law_active_order_has_its_ids(
    bot: state::Bot,
    client: Option<Seq<char>>,
    exchange: Option<Seq<char>>,
)
    ensures
        active_has_id(bot, client, exchange) <==> bot.active_order is Some && ((client is Some
            && client->0 == bot.active_order->0.client_order_id) || (exchange is Some
            && bot.active_order->0.exchange_order_id is Some && exchange->0
            == bot.active_order->0.exchange_order_id->0)),
{
}

/// One of the ids is that of the active order.
pub open spec fn active_has_id(
    bot: state::Bot,
    client: Option<Seq<char>>,
    exchange: Option<Seq<char>>,
) -> bool {
    bot.active_order is Some && (state::Pending {
        order: bot.active_order->0,
        cancel_requested: false,
    }).has_id(client, exchange)
}

/// Whether the stream may be opened at `now_ms`: not during a ban. The state of the
/// interface tells whether the stream is taken to be alive.
pub fn prepare_stream(health: &mut BinanceApiHealth, now_ms: u64) -> (r: bool)
    ensures
        r == !old(health).banned_at(now_ms),
        *final(health) == (BinanceApiHealth { stream_alive: r, ..*old(health) }),
{
    let open = !health.is_banned_at(now_ms);
    health.mark_stream_alive(open);
    open
}

/// How long to wait while a ban lasts, in seconds.
pub const BAN_RECHECK_SECS: u64 = 10;

/// How long to wait after the stream has failed, in seconds.
pub const STREAM_RETRY_SECS: u64 = 60;

/// The stream has ended. The seconds to wait before it is opened again, or none if it
/// was closed in good order.
pub fn stream_ended(health: &mut BinanceApiHealth, failed: bool) -> (r: Option<u64>)
    ensures
        failed ==> r == Some(STREAM_RETRY_SECS) && *final(health) == (BinanceApiHealth {
            stream_alive: false,
            ..*old(health)
        }),
        !failed ==> r is None && *final(health) == *old(health),
{
    if failed {
        health.mark_stream_alive(false);
        Some(STREAM_RETRY_SECS)
    } else {
        None
    }
}

} // verus!
