//! What the bot is doing: its status, its active order, and the orders whose fate
//! is not settled yet.
use crate::clock::{Clock, Moment, NANOS_PER_SECOND};
use crate::double::arithmetic;
use crate::double::laws;
use crate::double::Double;
use crate::sequences;
use crate::strategy::OrderSide;
use crate::text;
use vstd::arithmetic::power2::*;
use vstd::prelude::*;
use vstd::string::*;

verus! {

/// The bot's status.
#[derive(Debug)]
pub enum BotStatus {
    /// Waiting for an opportunity.
    Idle,
    /// An order rests on the maker exchange.
    OrderPlaced,
    /// The order has been filled.
    Filled,
    /// The hedge is being executed.
    Hedging,
    /// The cycle is over: filled and hedged.
    Complete,
    /// An error occurred.
    Error(String),
}

/// A status, its message as a sequence of characters.
#[verifier::ext_equal]
pub enum Status {
    Idle,
    OrderPlaced,
    Filled,
    Hedging,
    Complete,
    Error(Seq<char>),
}

impl Status {
    /// The number by which a status is known without its message.
    pub open spec fn code(self) -> int {
        match self {
            Status::Idle => 0,
            Status::OrderPlaced => 1,
            Status::Filled => 2,
            Status::Hedging => 3,
            Status::Complete => 4,
            Status::Error(_) => 5,
        }
    }

    /// Each status is known by its own number.
    pub proof fn law_codes_tell_statuses_apart(self, other: Status)
        ensures
            self.code() == other.code() ==> (self is Idle <==> other is Idle) && (self
                is OrderPlaced <==> other is OrderPlaced) && (self is Filled <==> other is Filled)
                && (self is Hedging <==> other is Hedging) && (self is Complete <==> other
                is Complete) && (self is Error <==> other is Error),
            0 <= self.code() <= 5,
            self is Idle ==> self.code() == 0,
            self.terminal() <==> self.code() >= 4,
    {
    }

    /// Nothing more will happen.
    pub open spec fn terminal(self) -> bool {
        self is Complete || self is Error
    }
}

impl View for BotStatus {
    type V = Status;

    open spec fn view(&self) -> Status {
        match self {
            BotStatus::Idle => Status::Idle,
            BotStatus::OrderPlaced => Status::OrderPlaced,
            BotStatus::Filled => Status::Filled,
            BotStatus::Hedging => Status::Hedging,
            BotStatus::Complete => Status::Complete,
            BotStatus::Error(e) => Status::Error(e@),
        }
    }
}

impl Clone for BotStatus {
    fn clone(&self) -> (r: BotStatus)
        ensures
            r@ == self@,
    {
        match self {
            BotStatus::Idle => BotStatus::Idle,
            BotStatus::OrderPlaced => BotStatus::OrderPlaced,
            BotStatus::Filled => BotStatus::Filled,
            BotStatus::Hedging => BotStatus::Hedging,
            BotStatus::Complete => BotStatus::Complete,
            BotStatus::Error(e) => BotStatus::Error(e.clone()),
        }
    }
}

impl PartialEq for BotStatus {
    fn eq(&self, other: &BotStatus) -> (r: bool) {
        match (self, other) {
            (BotStatus::Idle, BotStatus::Idle) => true,
            (BotStatus::OrderPlaced, BotStatus::OrderPlaced) => true,
            (BotStatus::Filled, BotStatus::Filled) => true,
            (BotStatus::Hedging, BotStatus::Hedging) => true,
            (BotStatus::Complete, BotStatus::Complete) => true,
            (BotStatus::Error(a), BotStatus::Error(b)) => text::same(a.as_str(), b.as_str()),
            _ => false,
        }
    }
}

impl vstd::std_specs::cmp::PartialEqSpecImpl for BotStatus {
    open spec fn obeys_eq_spec() -> bool {
        true
    }

    open spec fn eq_spec(&self, other: &BotStatus) -> bool {
        self@ == other@
    }
}

impl BotStatus {
    /// The number by which the status is known without its message.
    pub fn code(&self) -> (n: u8)
        ensures
            n == self@.code(),
    {
        match self {
            BotStatus::Idle => 0,
            BotStatus::OrderPlaced => 1,
            BotStatus::Filled => 2,
            BotStatus::Hedging => 3,
            BotStatus::Complete => 4,
            BotStatus::Error(_) => 5,
        }
    }
}

/// An order on the maker exchange.
#[derive(Debug)]
pub struct ActiveOrder {
    pub client_order_id: String,
    /// The exchange's own id, if it is known.
    pub exchange_order_id: Option<String>,
    pub symbol: String,
    pub side: OrderSide,
    /// Limit price.
    pub price: Double,
    pub size: Double,
    /// The profit that was calculated when the order was placed, in basis points.
    pub initial_profit_bps: Double,
    pub placed_at: Moment,
}

/// An order, its texts as sequences of characters.
#[verifier::ext_equal]
pub struct Order {
    pub client_order_id: Seq<char>,
    pub exchange_order_id: Option<Seq<char>>,
    pub symbol: Seq<char>,
    pub side: OrderSide,
    pub price: Double,
    pub size: Double,
    pub initial_profit_bps: Double,
    pub placed_at: Moment,
}

impl View for ActiveOrder {
    type V = Order;

    open spec fn view(&self) -> Order {
        Order {
            client_order_id: self.client_order_id@,
            exchange_order_id: text::optional_text(self.exchange_order_id),
            symbol: self.symbol@,
            side: self.side,
            price: self.price,
            size: self.size,
            initial_profit_bps: self.initial_profit_bps,
            placed_at: self.placed_at,
        }
    }
}

impl Clone for ActiveOrder {
    fn clone(&self) -> (r: ActiveOrder)
        ensures
            r@ == self@,
    {
        ActiveOrder {
            client_order_id: self.client_order_id.clone(),
            exchange_order_id: text::copy_optional(&self.exchange_order_id),
            symbol: self.symbol.clone(),
            side: self.side,
            price: self.price,
            size: self.size,
            initial_profit_bps: self.initial_profit_bps,
            placed_at: self.placed_at,
        }
    }
}

/// An order whose fill or cancellation has not been confirmed yet.
#[derive(Debug)]
pub struct PendingOrder {
    pub order: ActiveOrder,
    /// Whether its cancellation has been requested.
    pub cancel_requested: bool,
}

#[verifier::ext_equal]
pub struct Pending {
    pub order: Order,
    pub cancel_requested: bool,
}

impl View for PendingOrder {
    type V = Pending;

    open spec fn view(&self) -> Pending {
        Pending { order: self.order@, cancel_requested: self.cancel_requested }
    }
}

impl Clone for PendingOrder {
    fn clone(&self) -> (r: PendingOrder)
        ensures
            r@ == self@,
    {
        PendingOrder { order: self.order.clone(), cancel_requested: self.cancel_requested }
    }
}

impl Pending {
    /// One of the given ids is the order's.
    pub open spec fn has_id(self, client: Option<Seq<char>>, exchange: Option<Seq<char>>) -> bool {
        ||| client is Some && client == Some(self.order.client_order_id)
        ||| exchange is Some && exchange == self.order.exchange_order_id
    }

    /// The order is for the symbol, in letters of either case.
    pub open spec fn is_for(self, symbol: Seq<char>) -> bool {
        text::same_letters(self.order.symbol, symbol)
    }
}

impl PendingOrder {
    /// Whether one of the given ids is the order's.
    pub fn matches_ids(&self, client_order_id: Option<&str>, exchange_order_id: Option<&str>) -> (r:
        bool)
        ensures
            r == self@.has_id(text::optional_str(client_order_id), text::optional_str(exchange_order_id)),
    {
        let client_match = match client_order_id {
            Some(id) => text::same(self.order.client_order_id.as_str(), id),
            None => false,
        };
        let exchange_match = match exchange_order_id {
            Some(id) => match &self.order.exchange_order_id {
                Some(own) => text::same(own.as_str(), id),
                None => false,
            },
            None => false,
        };
        client_match || exchange_match
    }
}

/// A position that is held for its carry.
#[derive(Debug, Clone, Copy, PartialEq, Eq, Structural)]
pub struct NormalModePosition {
    /// The mid spread when the position was opened, in basis points.
    pub entry_spread_bps: Double,
    pub entry_time: Moment,
    /// The size; where it is positive, short on the maker and long on the hedge exchange.
    pub size: Double,
}

pub open spec fn views(v: Seq<PendingOrder>) -> Seq<Pending> {
    Seq::new(v.len(), |i: int| v[i]@)
}

/// The place of the first order with one of the given ids, the length without one.
pub open spec fn place_of(
    pending: Seq<Pending>,
    client: Option<Seq<char>>,
    exchange: Option<Seq<char>>,
) -> int
    decreases pending.len(),
{
    if pending.len() == 0 || pending[0].has_id(client, exchange) {
        0
    } else {
        1 + place_of(pending.drop_first(), client, exchange)
    }
}

/// The place is the first one that has one of the ids.
pub proof fn lemma_place_of(
    pending: Seq<Pending>,
    client: Option<Seq<char>>,
    exchange: Option<Seq<char>>,
)
    ensures
        ({
            let k = place_of(pending, client, exchange);
            &&& 0 <= k <= pending.len()
            &&& k < pending.len() ==> pending[k].has_id(client, exchange)
            &&& forall|i: int| 0 <= i < k ==> !(#[trigger] pending[i]).has_id(client, exchange)
        }),
    decreases pending.len(),
{
    if pending.len() > 0 && !pending[0].has_id(client, exchange) {
        let rest = pending.drop_first();
        lemma_place_of(rest, client, exchange);
        let k = place_of(pending, client, exchange);
        assert forall|i: int| 0 <= i < k implies !(#[trigger] pending[i]).has_id(
            client,
            exchange,
        ) by {
            if i > 0 {
                assert(rest[i - 1] == pending[i]);
            }
        }
    }
}

/// There is only one such place.
pub proof fn lemma_place_unique(
    pending: Seq<Pending>,
    client: Option<Seq<char>>,
    exchange: Option<Seq<char>>,
    k: int,
)
    requires
        0 <= k <= pending.len(),
        k < pending.len() ==> pending[k].has_id(client, exchange),
        forall|i: int| 0 <= i < k ==> !(#[trigger] pending[i]).has_id(client, exchange),
    ensures
        place_of(pending, client, exchange) == k,
{
    lemma_place_of(pending, client, exchange);
    let p = place_of(pending, client, exchange);
    if p < k {
        assert(!pending[p].has_id(client, exchange));
    } else if k < p {
        assert(!pending[k].has_id(client, exchange));
    }
}

/// The orders with `order` in place of the first one that shares an id with it, or
/// at the end if none does. Its cancellation has not been requested.
pub open spec fn upserted(pending: Seq<Pending>, order: Order) -> Seq<Pending> {
    let k = place_of(pending, Some(order.client_order_id), order.exchange_order_id);
    let p = Pending { order, cancel_requested: false };
    if k < pending.len() {
        pending.update(k, p)
    } else {
        pending.push(p)
    }
}

/// The orders for the symbol with their cancellation requested.
pub open spec fn cancel_marked(pending: Seq<Pending>, symbol: Seq<char>) -> Seq<Pending> {
    Seq::new(
        pending.len(),
        |i: int|
            Pending {
                order: pending[i].order,
                cancel_requested: pending[i].cancel_requested || pending[i].is_for(symbol),
            },
    )
}

/// The state of the bot.
#[verifier::ext_equal]
pub struct Bot {
    pub active_order: Option<Order>,
    pub pending_orders: Seq<Pending>,
    pub position: Double,
    pub status: Status,
    pub last_cancellation_time: Option<Moment>,
    pub normal_position: Option<NormalModePosition>,
    /// The clock by which the bot goes.
    pub clock: Clock,
}

/// The state of the bot, with the status once in full and once as a number for
/// readers that want no more than that.
#[derive(Debug)]
pub struct BotState {
    /// The active order, if any.
    pub active_order: Option<ActiveOrder>,
    /// The maker orders whose fill or cancellation has not been confirmed yet.
    pub pending_orders: Vec<PendingOrder>,
    /// The position, positive when long and negative when short.
    pub position: Double,
    pub status: BotStatus,
    /// The status as a number.
    pub status_code: u8,
    /// When an order was last cancelled.
    pub last_cancellation_time: Option<Moment>,
    /// The position held for its carry, if any.
    pub normal_position: Option<NormalModePosition>,
    /// The clock by which the bot goes.
    pub clock: Clock,
}

impl View for BotState {
    type V = Bot;

    open spec fn view(&self) -> Bot {
        Bot {
            active_order: match self.active_order {
                Some(o) => Some(o@),
                None => None,
            },
            pending_orders: views(self.pending_orders@),
            position: self.position,
            status: self.status@,
            last_cancellation_time: self.last_cancellation_time,
            normal_position: self.normal_position,
            clock: self.clock,
        }
    }
}

impl Bot {
    /// The bot as it starts with a clock.
    pub open spec fn fresh(clock: Clock) -> Bot {
        Bot {
            active_order: None,
            pending_orders: Seq::empty(),
            position: Double::whole_number(0),
            status: Status::Idle,
            last_cancellation_time: None,
            normal_position: None,
            clock,
        }
    }

    pub open spec fn with_active_order(self, order: Order) -> Bot {
        Bot {
            active_order: Some(order),
            pending_orders: upserted(self.pending_orders, order),
            status: Status::OrderPlaced,
            ..self
        }
    }

    pub open spec fn cleared(self, now: Moment) -> Bot {
        Bot {
            active_order: None,
            status: Status::Idle,
            last_cancellation_time: Some(now),
            ..self
        }
    }

    pub open spec fn filled(self, size: Double, side: OrderSide) -> Bot {
        Bot {
            status: Status::Filled,
            position: match side {
                OrderSide::Buy => self.position.sum(size),
                OrderSide::Sell => self.position.difference(size),
            },
            ..self
        }
    }

    /// At least `secs` whole seconds have passed since the last cancellation, if there was one.
    pub open spec fn grace_over(self, now: Moment, secs: int) -> bool {
        match self.last_cancellation_time {
            None => true,
            Some(at) => now.nanos_since(at) / NANOS_PER_SECOND as int >= secs,
        }
    }

    /// The first order with one of the given ids.
    pub open spec fn find(self, client: Option<Seq<char>>, exchange: Option<Seq<char>>) -> Option<
        Pending,
    > {
        let k = place_of(self.pending_orders, client, exchange);
        if k < self.pending_orders.len() {
            Some(self.pending_orders[k])
        } else {
            None
        }
    }

    /// The orders for the symbol.
    pub open spec fn orders_for(self, symbol: Seq<char>) -> Seq<Pending> {
        self.pending_orders.filter(|p: Pending| p.is_for(symbol))
    }

    /// The orders for other symbols.
    pub open spec fn orders_not_for(self, symbol: Seq<char>) -> Seq<Pending> {
        self.pending_orders.filter(|p: Pending| !p.is_for(symbol))
    }
}

impl BotState {
    /// The number tells the status.
    pub open spec fn wf(&self) -> bool {
        self.status_code == self.status@.code()
    }

    /// An idle bot with a clock of its own.
    pub fn new() -> (s: BotState)
        ensures
            s.wf(),
            s@ == Bot::fresh(s.clock),
    {
        BotState::with_clock(Clock::start())
    }

    /// An idle bot that goes by the given clock.
    pub fn with_clock(clock: Clock) -> (s: BotState)
        ensures
            s.wf(),
            s@ == Bot::fresh(clock),
    {
        let s = BotState {
            active_order: None,
            pending_orders: Vec::new(),
            position: Double::whole(0),
            status: BotStatus::Idle,
            status_code: 0,
            last_cancellation_time: None,
            normal_position: None,
            clock,
        };
        assert(s@ =~~= Bot::fresh(clock));
        s
    }

    /// The present reading of the bot's clock.
    pub fn now(&self) -> (m: Moment)
        ensures
            m.is_reading(),
    {
        self.clock.now()
    }

    /// The place of the first order with one of the given ids.
    fn place(&self, client_order_id: Option<&str>, exchange_order_id: Option<&str>) -> (k: usize)
        ensures
            k == place_of(
                self@.pending_orders,
                text::optional_str(client_order_id),
                text::optional_str(exchange_order_id),
            ),
            k <= self.pending_orders@.len(),
    {
        let mut k: usize = 0;
        while k < self.pending_orders.len() && !self.pending_orders[k].matches_ids(
            client_order_id,
            exchange_order_id,
        )
            invariant
                k <= self.pending_orders@.len(),
                forall|i: int|
                    0 <= i < k ==> !(#[trigger] self@.pending_orders[i]).has_id(
                        text::optional_str(client_order_id),
                        text::optional_str(exchange_order_id),
                    ),
            decreases self.pending_orders@.len() - k,
        {
            k = k + 1;
        }
        proof {
            if k < self.pending_orders@.len() {
                assert(self@.pending_orders[k as int] == self.pending_orders@[k as int]@);
            }
            lemma_place_unique(
                self@.pending_orders,
                text::optional_str(client_order_id),
                text::optional_str(exchange_order_id),
                k as int,
            );
        }
        k
    }

    /// Makes `order` the active one.
    pub fn set_active_order(&mut self, order: ActiveOrder)
        ensures
            final(self).wf(),
            final(self)@ == old(self)@.with_active_order(order@),
    {
        self.upsert_pending_order(order.clone());
        self.active_order = Some(order);
        self.status = BotStatus::OrderPlaced;
        self.status_code = 1;
    }

    /// Tracks `order`, in place of one that shares an id with it.
    pub fn upsert_pending_order(&mut self, order: ActiveOrder)
        ensures
            final(self)@ == (Bot {
                pending_orders: upserted(old(self)@.pending_orders, order@),
                ..old(self)@
            }),
            final(self).status_code == old(self).status_code,
    {
        let k = self.place(
            Some(order.client_order_id.as_str()),
            text::slice_optional(&order.exchange_order_id),
        );
        let ghost info = order@;
        let p = PendingOrder { order, cancel_requested: false };
        if k < self.pending_orders.len() {
            self.pending_orders.set(k, p);
        } else {
            self.pending_orders.push(p);
        }
        assert(self@.pending_orders =~= upserted(old(self)@.pending_orders, info));
    }

    /// Copies of the tracked orders for a symbol.
    pub fn pending_orders_for_symbol(&self, symbol: &str) -> (r: Vec<PendingOrder>)
        ensures
            views(r@) == self@.orders_for(symbol@),
    {
        let mut r: Vec<PendingOrder> = Vec::new();
        let mut i: usize = 0;
        let ghost keep = |p: Pending| p.is_for(symbol@);
        proof {
            reveal(Seq::filter);
            assert(self@.pending_orders.take(0).filter(keep) =~= Seq::empty());
            assert(views(r@) =~= Seq::empty());
        }
        while i < self.pending_orders.len()
            invariant
                i <= self.pending_orders@.len(),
                keep == (|p: Pending| p.is_for(symbol@)),
                views(r@) == self@.pending_orders.take(i as int).filter(keep),
            decreases self.pending_orders@.len() - i,
        {
            let ghost so_far = r@;
            if text::eq_ignore_ascii_case(self.pending_orders[i].order.symbol.as_str(), symbol) {
                r.push(self.pending_orders[i].clone());
                assert(views(r@) =~= views(so_far).push(self.pending_orders@[i as int]@));
            }
            proof {
                reveal(Seq::filter);
                let next = self@.pending_orders.take(i + 1);
                assert(next.drop_last() =~= self@.pending_orders.take(i as int));
                assert(next.last() == self.pending_orders@[i as int]@);
            }
            i = i + 1;
        }
        assert(self@.pending_orders.take(i as int) =~= self@.pending_orders);
        r
    }

    /// A copy of the first tracked order with one of the given ids.
    pub fn find_pending_order(
        &self,
        client_order_id: Option<&str>,
        exchange_order_id: Option<&str>,
    ) -> (r: Option<PendingOrder>)
        ensures
            r is Some <==> self@.find(
                text::optional_str(client_order_id),
                text::optional_str(exchange_order_id),
            ) is Some,
            r matches Some(p) ==> self@.find(
                text::optional_str(client_order_id),
                text::optional_str(exchange_order_id),
            ) == Some(p@),
    {
        let k = self.place(client_order_id, exchange_order_id);
        if k < self.pending_orders.len() {
            Some(self.pending_orders[k].clone())
        } else {
            None
        }
    }

    /// Notes that the cancellation of the orders for a symbol has been requested.
    pub fn mark_cancel_requested_for_symbol(&mut self, symbol: &str)
        ensures
            final(self)@ == (Bot {
                pending_orders: cancel_marked(old(self)@.pending_orders, symbol@),
                ..old(self)@
            }),
            final(self).status_code == old(self).status_code,
    {
        let mut i: usize = 0;
        let n: usize = self.pending_orders.len();
        let ghost marked = cancel_marked(old(self)@.pending_orders, symbol@);
        while i < n
            invariant
                i <= n,
                n == self.pending_orders@.len(),
                n == old(self)@.pending_orders.len(),
                marked == cancel_marked(old(self)@.pending_orders, symbol@),
                forall|j: int| 0 <= j < i ==> #[trigger] self@.pending_orders[j] == marked[j],
                forall|j: int|
                    i <= j < n ==> #[trigger] self@.pending_orders[j] == old(
                        self,
                    )@.pending_orders[j],
                self@ == (Bot { pending_orders: self@.pending_orders, ..old(self)@ }),
                self.status_code == old(self).status_code,
            decreases n - i,
        {
            let ghost before = *self;
            assert(before@.pending_orders[i as int] == old(self)@.pending_orders[i as int]);
            if text::eq_ignore_ascii_case(self.pending_orders[i].order.symbol.as_str(), symbol) {
                self.pending_orders[i].cancel_requested = true;
            }
            proof {
                assert forall|j: int| 0 <= j < n && j != i implies #[trigger] self@.pending_orders[j]
                    == before@.pending_orders[j] by {
                    assert(self.pending_orders@[j] == before.pending_orders@[j]);
                }
            }
            i = i + 1;
        }
        assert(self@.pending_orders =~= marked);
    }

    /// Stops tracking the first order with one of the given ids.
    pub fn remove_pending_order(
        &mut self,
        client_order_id: Option<&str>,
        exchange_order_id: Option<&str>,
    ) -> (r: Option<PendingOrder>)
        ensures
            ({
                let (c, e) = (text::optional_str(client_order_id), text::optional_str(exchange_order_id));
                let k = place_of(old(self)@.pending_orders, c, e);
                &&& r is Some <==> old(self)@.find(c, e) is Some
                &&& r matches Some(p) ==> old(self)@.find(c, e) == Some(p@) && final(self)@ == (Bot {
                    pending_orders: old(self)@.pending_orders.remove(k),
                    ..old(self)@
                })
                &&& r is None ==> final(self)@ == old(self)@
                &&& final(self).status_code == old(self).status_code
            }),
    {
        let k = self.place(client_order_id, exchange_order_id);
        if k < self.pending_orders.len() {
            let p = self.pending_orders.remove(k);
            assert(self@.pending_orders =~= old(self)@.pending_orders.remove(k as int));
            Some(p)
        } else {
            None
        }
    }

    /// Stops tracking all orders for a symbol.
    pub fn clear_pending_orders_for_symbol(&mut self, symbol: &str)
        ensures
            final(self)@ == (Bot {
                pending_orders: old(self)@.orders_not_for(symbol@),
                ..old(self)@
            }),
            final(self).status_code == old(self).status_code,
    {
        let mut i: usize = 0;
        let ghost keep = |p: Pending| !p.is_for(symbol@);
        let ghost all = self@.pending_orders;
        proof {
            assert(all.skip(0) =~= all);
            assert(all.take(0) + all.filter(keep) =~= all.filter(keep));
        }
        while i < self.pending_orders.len()
            invariant
                i <= self.pending_orders@.len(),
                keep == (|p: Pending| !p.is_for(symbol@)),
                all == old(self)@.pending_orders,
                all.filter(keep) == self@.pending_orders.take(i as int) + self@.pending_orders.skip(
                    i as int,
                ).filter(keep),
                self@ == (Bot { pending_orders: self@.pending_orders, ..old(self)@ }),
                self.status_code == old(self).status_code,
            decreases self.pending_orders@.len() - i,
        {
            let ghost before = self@.pending_orders;
            let ghost p = before[i as int];
            let ghost rest = before.skip(i as int + 1);
            proof {
                assert(before.skip(i as int) =~= seq![p] + rest);
                Seq::filter_distributes_over_add(seq![p], rest, keep);
                if keep(p) {
                    sequences::lemma_filter_all(seq![p], keep);
                } else {
                    sequences::lemma_filter_none(seq![p], keep);
                }
            }
            if text::eq_ignore_ascii_case(self.pending_orders[i].order.symbol.as_str(), symbol) {
                self.pending_orders.remove(i);
                assert(self@.pending_orders =~= before.remove(i as int));
                assert(self@.pending_orders.skip(i as int) =~= rest);
                assert(self@.pending_orders.take(i as int) =~= before.take(i as int));
                assert(Seq::empty() + rest.filter(keep) =~= rest.filter(keep));
            } else {
                assert(before.take(i as int + 1) =~= before.take(i as int) + seq![p]);
                assert((before.take(i as int) + seq![p]) + rest.filter(keep) =~= before.take(
                    i as int,
                ) + (seq![p] + rest.filter(keep)));
                i = i + 1;
            }
        }
        proof {
            reveal(Seq::filter);
            assert(self@.pending_orders.skip(i as int) =~= Seq::empty());
            assert(self@.pending_orders.take(i as int) + Seq::<Pending>::empty()
                =~= self@.pending_orders);
        }
    }

    /// Drops the active order, which was cancelled at `now`, and returns to idle.
    pub fn clear_active_order_at(&mut self, now: Moment)
        ensures
            final(self).wf(),
            final(self)@ == old(self)@.cleared(now),
    {
        self.active_order = None;
        self.status = BotStatus::Idle;
        self.status_code = 0;
        self.last_cancellation_time = Some(now);
    }

    /// Drops the active order, which has just been cancelled, and returns to idle.
    pub fn clear_active_order(&mut self)
        ensures
            final(self).wf(),
            exists|now: Moment| now.is_reading() && final(self)@ == old(self)@.cleared(now),
    {
        let now = self.clock.now();
        self.clear_active_order_at(now);
        assert(self@ == old(self)@.cleared(now));
    }

    /// Notes a fill and moves the position.
    pub fn mark_filled(&mut self, filled_size: Double, side: OrderSide)
        ensures
            final(self).wf(),
            final(self)@ == old(self)@.filled(filled_size, side),
    {
        self.status = BotStatus::Filled;
        self.status_code = 2;
        match side {
            OrderSide::Buy => self.position = self.position.plus(&filled_size),
            OrderSide::Sell => self.position = self.position.minus(&filled_size),
        }
    }

    pub fn mark_hedging(&mut self)
        ensures
            final(self).wf(),
            final(self)@ == (Bot { status: Status::Hedging, ..old(self)@ }),
    {
        self.status = BotStatus::Hedging;
        self.status_code = 3;
    }

    /// The cycle is over and nothing follows.
    pub fn mark_complete(&mut self)
        ensures
            final(self).wf(),
            final(self)@ == (Bot {
                status: Status::Complete,
                active_order: None,
                pending_orders: Seq::empty(),
                ..old(self)@
            }),
    {
        self.status = BotStatus::Complete;
        self.status_code = 4;
        self.active_order = None;
        self.pending_orders.clear();
        assert(self@.pending_orders =~= Seq::empty());
    }

    /// The cycle is over and the next one may start at once.
    pub fn mark_cycle_complete_continue(&mut self)
        ensures
            final(self).wf(),
            final(self)@ == (Bot {
                status: Status::Idle,
                active_order: None,
                pending_orders: Seq::empty(),
                last_cancellation_time: None,
                ..old(self)@
            }),
    {
        self.active_order = None;
        self.pending_orders.clear();
        self.status = BotStatus::Idle;
        self.status_code = 0;
        self.last_cancellation_time = None;
        assert(self@.pending_orders =~= Seq::empty());
    }

    pub fn set_error(&mut self, error: String)
        ensures
            final(self).wf(),
            final(self)@ == (Bot { status: Status::Error(error@), ..old(self)@ }),
    {
        self.status = BotStatus::Error(error);
        self.status_code = 5;
    }

    /// Nothing more will happen.
    pub fn is_terminal(&self) -> (r: bool)
        ensures
            r == self@.status.terminal(),
    {
        matches!(self.status, BotStatus::Complete | BotStatus::Error(_))
    }

    pub fn is_idle(&self) -> (r: bool)
        ensures
            r == (self@.status == Status::Idle),
    {
        matches!(self.status, BotStatus::Idle)
    }

    /// Whether the bot is idle, by the number.
    pub fn is_idle_fast(&self) -> (r: bool)
        requires
            self.wf(),
        ensures
            r == (self@.status == Status::Idle),
    {
        self.status_code == 0
    }

    /// Whether an order rests on the maker exchange, by the number.
    pub fn has_active_order_fast(&self) -> (r: bool)
        requires
            self.wf(),
        ensures
            r == (self@.status == Status::OrderPlaced),
    {
        self.status_code == 1
    }

    /// The status as a number.
    pub fn get_status_atomic(&self) -> (n: u8)
        requires
            self.wf(),
        ensures
            n == self@.status.code(),
    {
        self.status_code
    }

    /// Whether `grace_period_secs` have passed at `now` since the last cancellation.
    pub fn grace_period_elapsed_at(&self, now: Moment, grace_period_secs: u64) -> (r: bool)
        ensures
            r == self@.grace_over(now, grace_period_secs as int),
    {
        match &self.last_cancellation_time {
            None => true,
            Some(at) => now.secs_since(at) >= grace_period_secs as u128,
        }
    }

    /// Whether `grace_period_secs` have passed since the last cancellation.
    pub fn grace_period_elapsed(&self, grace_period_secs: u64) -> (r: bool)
        ensures
            exists|now: Moment|
                now.is_reading() && r == self@.grace_over(now, grace_period_secs as int),
            self@.last_cancellation_time is None ==> r,
    {
        let now = self.clock.now();
        let r = self.grace_period_elapsed_at(now, grace_period_secs);
        assert(r == self@.grace_over(now, grace_period_secs as int));
        r
    }
}

impl Default for BotState {
    fn default() -> (s: BotState)
        ensures
            s.wf(),
            s@ == Bot::fresh(s.clock),
    {
        BotState::new()
    }
}

impl Bot {
    /// An order that has just been placed is found again by either of its ids, as it
    /// was placed and not marked for cancellation.
    pub proof fn law_placed_order_is_found(self, order: Order)
        ensures
            self.with_active_order(order).find(
                Some(order.client_order_id),
                order.exchange_order_id,
            ) == Some(Pending { order, cancel_requested: false }),
            self.with_active_order(order).active_order == Some(order),
    {
        let (c, e) = (Some(order.client_order_id), order.exchange_order_id);
        lemma_place_of(self.pending_orders, c, e);
        let k = place_of(self.pending_orders, c, e);
        let after = upserted(self.pending_orders, order);
        assert forall|i: int| 0 <= i < k implies !(#[trigger] after[i]).has_id(c, e) by {
            assert(after[i] == self.pending_orders[i]);
        }
        lemma_place_unique(after, c, e, k);
    }

    /// Tracking an order changes no other tracked order, and adds at most one.
    pub proof fn law_upsert_leaves_others(self, order: Order, i: int)
        requires
            0 <= i < self.pending_orders.len(),
            !self.pending_orders[i].has_id(Some(order.client_order_id), order.exchange_order_id),
        ensures
            upserted(self.pending_orders, order)[i] == self.pending_orders[i],
            self.pending_orders.len() <= upserted(self.pending_orders, order).len()
                <= self.pending_orders.len() + 1,
    {
        lemma_place_of(self.pending_orders, Some(order.client_order_id), order.exchange_order_id);
    }

    /// Removing an order that was new when it was tracked restores what was tracked before.
    pub proof fn law_remove_undoes_upsert(self, order: Order)
        requires
            self.find(Some(order.client_order_id), order.exchange_order_id) is None,
        ensures
            ({
                let (c, e) = (Some(order.client_order_id), order.exchange_order_id);
                let after = upserted(self.pending_orders, order);
                after.remove(place_of(after, c, e)) == self.pending_orders
            }),
    {
        let (c, e) = (Some(order.client_order_id), order.exchange_order_id);
        lemma_place_of(self.pending_orders, c, e);
        self.law_placed_order_is_found(order);
        let after = upserted(self.pending_orders, order);
        let k = self.pending_orders.len() as int;
        assert forall|i: int| 0 <= i < k implies !(#[trigger] after[i]).has_id(c, e) by {
            assert(after[i] == self.pending_orders[i]);
        }
        lemma_place_unique(after, c, e, k);
        assert(after.remove(k) =~= self.pending_orders);
    }

    /// After the orders for a symbol have been dropped, none is left, and the orders
    /// for all other symbols are.
    pub proof fn law_clearing_a_symbol(self, symbol: Seq<char>)
        ensures
            ({
                let after = Bot { pending_orders: self.orders_not_for(symbol), ..self };
                &&& after.orders_for(symbol) == Seq::<Pending>::empty()
                &&& after.orders_not_for(symbol) == self.orders_not_for(symbol)
                &&& forall|p: Pending|
                    self.pending_orders.contains(p) && !p.is_for(symbol)
                        ==> #[trigger] after.pending_orders.contains(p)
            }),
    {
        let after = Bot { pending_orders: self.orders_not_for(symbol), ..self };
        let not_for = |p: Pending| !p.is_for(symbol);
        let is_for = |p: Pending| p.is_for(symbol);
        broadcast use vstd::seq_lib::group_filter_ensures;
        sequences::lemma_filter_none(after.pending_orders, is_for);
        sequences::lemma_filter_all(after.pending_orders, not_for);
        assert forall|p: Pending|
            self.pending_orders.contains(p) && !p.is_for(symbol) implies #[trigger] after.pending_orders.contains(
        p) by {
            let i = self.pending_orders.index_of(p);
            self.pending_orders.lemma_filter_contains(not_for, i);
        }
    }

    /// Requesting the cancellation of a symbol's orders changes none of the orders
    /// themselves, and requesting it twice is requesting it once.
    pub proof fn law_marking_keeps_orders(self, symbol: Seq<char>)
        ensures
            ({
                let marked = cancel_marked(self.pending_orders, symbol);
                &&& marked.len() == self.pending_orders.len()
                &&& forall|i: int|
                    0 <= i < marked.len() ==> (#[trigger] marked[i]).order
                        == self.pending_orders[i].order
                &&& cancel_marked(marked, symbol) == marked
            }),
    {
        let marked = cancel_marked(self.pending_orders, symbol);
        assert(cancel_marked(marked, symbol) =~= marked);
    }

    /// An order that has been given up is still found by its ids, as it was, until its
    /// fate has been confirmed: a late fill of it is not lost.
    pub proof fn law_order_given_up_is_still_found(
        self,
        now: Moment,
        client: Option<Seq<char>>,
        exchange: Option<Seq<char>>,
    )
        ensures
            self.cleared(now).active_order is None,
            self.cleared(now).status == Status::Idle,
            self.cleared(now).find(client, exchange) == self.find(client, exchange),
    {
    }

    /// A buy that has been filled raises the position by its size, a sell lowers it, each
    /// up to rounding, and nothing else changes but the status.
    pub proof fn law_fills_move_the_position(self, size: Double, side: OrderSide)
        requires
            self.position.finite(),
            size.finite(),
            size.non_negative(),
        ensures
            ({
                let after = self.filled(size, side);
                let (p, q) = (self.position.amount(), after.position.amount());
                &&& after.status is Filled
                &&& side == OrderSide::Buy ==> p <= q && (after.position.finite()
                    ==> laws::distance(q, p + size.amount()) * pow2(53) <= laws::distance(
                    p + size.amount(),
                    0,
                ))
                &&& side == OrderSide::Sell ==> q <= p && (after.position.finite()
                    ==> laws::distance(q, p - size.amount()) * pow2(53) <= laws::distance(
                    p - size.amount(),
                    0,
                ))
                &&& after.active_order == self.active_order
                &&& after.pending_orders == self.pending_orders
                &&& after.last_cancellation_time == self.last_cancellation_time
                &&& after.normal_position == self.normal_position
            }),
    {
        let zero = Double::whole_number(0);
        arithmetic::lemma_zero();
        laws::law_sum_is_near(self.position, size);
        laws::law_difference_is_near(self.position, size);
        let p = self.position;
        laws::lemma_rounds_to_itself(p);
        arithmetic::lemma_nearest_order(p.amount(), p.amount() + size.amount(), 1);
        arithmetic::lemma_nearest_order(p.amount() - size.amount(), p.amount(), 1);
        let o = size.opposite();
        assert(o.finite() && o.amount() == -size.amount());
        laws::lemma_sum_rounds_once(p, size);
        laws::lemma_sum_rounds_once(p, o);
    }

    /// An order that has been placed is the active one, and the bot waits for its fill.
    /// One that has been given up is not active any more, the bot is idle, and it remembers
    /// the time. Neither changes the position.
    pub proof fn law_orders_come_and_go(self, order: Order, now: Moment)
        ensures
            self.with_active_order(order).status is OrderPlaced,
            self.with_active_order(order).active_order == Some(order),
            self.with_active_order(order).position == self.position,
            self.with_active_order(order).last_cancellation_time == self.last_cancellation_time,
            self.cleared(now).status is Idle,
            self.cleared(now).active_order is None,
            self.cleared(now).last_cancellation_time == Some(now),
            self.cleared(now).position == self.position,
            self.cleared(now).pending_orders == self.pending_orders,
    {
    }

    /// What is found has one of the ids, and is one of the pending orders; where nothing
    /// is found, none of them has.
    pub proof fn law_found_orders_have_the_id(
        self,
        client: Option<Seq<char>>,
        exchange: Option<Seq<char>>,
    )
        ensures
            match self.find(client, exchange) {
                Some(p) => {
                    &&& self.pending_orders.contains(p)
                    &&& (client is Some && client->0 == p.order.client_order_id) || (exchange is Some
                        && p.order.exchange_order_id is Some && exchange->0
                        == p.order.exchange_order_id->0)
                },
                None => forall|i: int|
                    0 <= i < self.pending_orders.len() ==> {
                        let o = (#[trigger] self.pending_orders[i]).order;
                        &&& client is Some ==> client->0 != o.client_order_id
                        &&& exchange is Some && o.exchange_order_id is Some ==> exchange->0
                            != o.exchange_order_id->0
                    },
            },
    {
        lemma_place_of(self.pending_orders, client, exchange);
    }

    /// Cancellations are marked for the orders of the symbol, and for no others.
    pub proof fn law_marks_are_of_the_symbol(self, symbol: Seq<char>, i: int)
        requires
            0 <= i < self.pending_orders.len(),
        ensures
            ({
                let (before, after) = (
                    self.pending_orders[i],
                    cancel_marked(self.pending_orders, symbol)[i],
                );
                &&& text::same_letters(before.order.symbol, symbol) ==> after.cancel_requested
                &&& !text::same_letters(before.order.symbol, symbol) ==> after == before
            }),
    {
    }

    /// For a time of the given length after a cancellation the grace period runs.
    pub proof fn law_grace_period(self, cancelled_at: Moment, now: Moment, secs: u64)
        ensures
            self.cleared(cancelled_at).grace_over(now, secs as int) <==> now.past_secs(
                cancelled_at,
                secs as int,
            ),
            self.last_cancellation_time is None ==> self.grace_over(now, secs as int),
    {
        let n = now.nanos_since(cancelled_at);
        assert((n / 1_000_000_000 >= secs) == (n >= secs * 1_000_000_000)) by (nonlinear_arith)
            requires
                n >= 0,
        ;
    }
}

} // verus!
