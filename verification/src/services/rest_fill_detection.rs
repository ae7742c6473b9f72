//! Detects fills by asking the exchange for its open orders: the fallback where the
//! stream of events has missed one.
use super::ledger;
use super::ledger::{Amounts, ProcessedFills};
use super::order_monitor::{sync_atomic_status, AtomicBotStatus};
use super::DetectedFill;
use super::Fill;
use crate::bot::state;
use crate::bot::{ActiveOrder, BotState, BotStatus, PendingOrder};
use crate::connector::maker::{MakerOpenOrder, MakerTradeHistoryItem};
use crate::double;
use crate::double::arithmetic;
use crate::double::laws;
use crate::double::rounding;
use crate::double::Double;
use crate::strategy::OrderSide;
use crate::text;
use crate::util::api_health::BinanceApiHealth;
use crate::util::rate_limit;
use vstd::arithmetic::mul::*;
use vstd::arithmetic::power2::*;
use vstd::prelude::*;
use vstd::string::*;

verus! {

/// The name under which a fill of an order is remembered.
pub open spec fn fill_name(is_full: bool, id: Seq<char>) -> Seq<char> {
    (if is_full {
        "full"@
    } else {
        "partial"@
    }) + "_"@ + id
}

/// The name under which a fill of an order is remembered, with who detected it.
pub open spec fn tagged_name(is_full: bool, id: Seq<char>, tag: Seq<char>) -> Seq<char> {
    fill_name(is_full, id) + "_"@ + tag
}

/// The names under which a fill of an order with the given ids is remembered.
pub open spec fn fill_names(
    exchange: Option<Seq<char>>,
    client: Option<Seq<char>>,
    is_full: bool,
    tag: Seq<char>,
) -> Set<Seq<char>> {
    Set::new(
        |n: Seq<char>|
            {
                ||| exchange matches Some(id) && (n == fill_name(is_full, id) || n == tagged_name(
                    is_full,
                    id,
                    tag,
                ))
                ||| client matches Some(id) && (n == fill_name(is_full, id) || n == tagged_name(
                    is_full,
                    id,
                    tag,
                ))
            },
    )
}

/// A full fill of an order with one of the ids has been dealt with.
pub open spec fn dealt_with(
    processed: Set<Seq<char>>,
    exchange: Option<Seq<char>>,
    client: Option<Seq<char>>,
) -> bool {
    ||| exchange matches Some(id) && processed.contains(fill_name(true, id))
    ||| client matches Some(id) && processed.contains(fill_name(true, id))
}

/// The name under which a fill of an order is remembered.
pub fn name_of_fill(is_full: bool, id: &str) -> (s: String)
    ensures
        s@ == fill_name(is_full, id@),
{
    let mut s = if is_full {
        "full".to_owned()
    } else {
        "partial".to_owned()
    };
    s.append("_");
    s.append(id);
    s
}

fn tagged_name_of_fill(is_full: bool, id: &str, tag: &str) -> (s: String)
    ensures
        s@ == tagged_name(is_full, id@, tag@),
{
    let mut s = name_of_fill(is_full, id);
    s.append("_");
    s.append(tag);
    s
}

/// Whether a full fill of an order with one of the ids has been dealt with.
pub fn is_fill_already_processed(
    processed: &ProcessedFills,
    exchange_order_id: Option<&str>,
    client_order_id: Option<&str>,
) -> (r: bool)
    ensures
        r == dealt_with(
            processed@,
            text::optional_str(exchange_order_id),
            text::optional_str(client_order_id),
        ),
{
    if let Some(id) = exchange_order_id {
        if processed.contains(name_of_fill(true, id).as_str()) {
            return true;
        }
    }
    if let Some(id) = client_order_id {
        if processed.contains(name_of_fill(true, id).as_str()) {
            return true;
        }
    }
    false
}

/// Remembers that a fill of an order with the given ids has been dealt with.
pub fn mark_fill_processed(
    processed: &mut ProcessedFills,
    exchange_order_id: Option<&str>,
    client_order_id: Option<&str>,
    is_full_fill: bool,
    source_tag: &str,
)
    ensures
        final(processed)@ == old(processed)@.union(
            fill_names(
                text::optional_str(exchange_order_id),
                text::optional_str(client_order_id),
                is_full_fill,
                source_tag@,
            ),
        ),
{
    if let Some(id) = exchange_order_id {
        processed.insert(name_of_fill(is_full_fill, id));
        processed.insert(tagged_name_of_fill(is_full_fill, id, source_tag));
    }
    if let Some(id) = client_order_id {
        processed.insert(name_of_fill(is_full_fill, id));
        processed.insert(tagged_name_of_fill(is_full_fill, id, source_tag));
    }
    assert(processed@ =~= old(processed)@.union(
        fill_names(
            text::optional_str(exchange_order_id),
            text::optional_str(client_order_id),
            is_full_fill,
            source_tag@,
        ),
    ));
}

/// The name of an order in the accounts: the exchange's id, or else its own.
pub open spec fn account(o: state::Order) -> Seq<char> {
    match o.exchange_order_id {
        Some(id) => id,
        None => o.client_order_id,
    }
}

pub fn tracked_order_key(order: &ActiveOrder) -> (s: String)
    ensures
        s@ == account(order@),
{
    match &order.exchange_order_id {
        Some(id) => id.clone(),
        None => order.client_order_id.clone(),
    }
}

/// The open order is the one that is followed.
pub open spec fn is_same_order(o: state::Order, open: MakerOpenOrder) -> bool {
    ||| open.client_order_id@ == o.client_order_id
    ||| o.exchange_order_id is Some && text::optional_text(open.order_id) == o.exchange_order_id
}

pub fn open_order_matches_tracked(order: &ActiveOrder, open: &MakerOpenOrder) -> (r: bool)
    ensures
        r == is_same_order(order@, *open),
{
    if text::same(open.client_order_id.as_str(), order.client_order_id.as_str()) {
        return true;
    }
    match (&order.exchange_order_id, &open.order_id) {
        (Some(a), Some(b)) => text::same(a.as_str(), b.as_str()),
        _ => false,
    }
}

/// The order that is found is open and has one of the ids of the one that is followed;
/// where none is found, no open order has.
pub proof fn law_open_order(orders: Seq<MakerOpenOrder>, o: state::Order)
    ensures
        match open_order(orders, o) {
            Some(x) => {
                &&& orders.contains(x)
                &&& x.client_order_id@ == o.client_order_id || (o.exchange_order_id is Some
                    && x.order_id is Some && x.order_id->0@ == o.exchange_order_id->0)
            },
            None => forall|i: int|
                0 <= i < orders.len() ==> {
                    let x = #[trigger] orders[i];
                    &&& x.client_order_id@ != o.client_order_id
                    &&& o.exchange_order_id is Some && x.order_id is Some ==> x.order_id->0@
                        != o.exchange_order_id->0
                },
        },
    decreases orders.len(),
{
    if orders.len() > 0 {
        let rest = orders.drop_first();
        law_open_order(rest, o);
        if is_same_order(o, orders[0]) {
            assert(orders.contains(orders[0]));
        } else {
            match open_order(rest, o) {
                Some(x) => {
                    let k = rest.index_of(x);
                    assert(orders[k + 1] == rest[k]);
                },
                None => {
                    assert forall|i: int| 0 <= i < orders.len() implies {
                        let x = #[trigger] orders[i];
                        &&& x.client_order_id@ != o.client_order_id
                        &&& o.exchange_order_id is Some && x.order_id is Some ==> x.order_id->0@
                            != o.exchange_order_id->0
                    } by {
                        if i > 0 {
                            assert(rest[i - 1] == orders[i]);
                        }
                    }
                },
            }
        }
    }
}

/// The first of the open orders that is the one that is followed.
pub open spec fn open_order(orders: Seq<MakerOpenOrder>, o: state::Order) -> Option<MakerOpenOrder>
    decreases orders.len(),
{
    if orders.len() == 0 {
        None
    } else if is_same_order(o, orders[0]) {
        Some(orders[0])
    } else {
        open_order(orders.drop_first(), o)
    }
}

/// The accounts of the orders that are followed.
#[verifier::ext_equal]
pub struct Accounts {
    /// The errors in a row in asking for open orders.
    pub errors: nat,
    /// The amounts last seen filled.
    pub seen: Map<Seq<char>, Double>,
    /// The amounts that have been hedged.
    pub hedged: Map<Seq<char>, Double>,
}

/// 10^-9, what amounts may differ by and still be equal.
pub open spec fn tolerance() -> Double {
    Double::fraction(1, 1_000_000_000)
}

/// Nothing of the order is left: its filled amount is its initial one up to 0.0001, or
/// reaches its size.
pub open spec fn is_full(o: state::Order, open: MakerOpenOrder) -> bool {
    ||| Double::signed(
        false,
        open.filled_amount.difference(open.initial_amount).magnitude(),
    ).below(Double::fraction(1, 10000))
    ||| o.size.at_most(open.filled_amount.sum(tolerance()))
}

impl Accounts {
    /// More has been filled than was seen before.
    pub open spec fn grown(self, o: state::Order, open: MakerOpenOrder) -> bool {
        ledger::amount_of(self.seen, account(o)).below(open.filled_amount)
            && open.filled_amount.positive()
    }

    /// What has been filled and not been hedged.
    pub open spec fn unhedged(self, o: state::Order, open: MakerOpenOrder) -> Double {
        open.filled_amount.difference(ledger::amount_of(self.hedged, account(o))).larger(
            Double::whole_number(0),
        )
    }

    /// The fill is hedged now: something is new and not hedged, it completes the order
    /// or is worth more than `min_notional` dollars, and no full fill of the order has been dealt with.
    pub open spec fn hedges(
        self,
        min_notional: Double,
        processed: Set<Seq<char>>,
        o: state::Order,
        open: MakerOpenOrder,
    ) -> bool {
        &&& self.grown(o, open)
        &&& is_full(o, open) || min_notional.below(self.unhedged(o, open).product(open.price))
        &&& !self.unhedged(o, open).at_most(Double::whole_number(0))
        &&& !dealt_with(
            processed,
            text::optional_text(open.order_id),
            Some(open.client_order_id@),
        )
    }

    /// The accounts after a look at the order.
    pub open spec fn after_look(
        self,
        min_notional: Double,
        processed: Set<Seq<char>>,
        o: state::Order,
        open: MakerOpenOrder,
    ) -> Accounts {
        let seen = self.seen.insert(account(o), open.filled_amount);
        if !self.grown(o, open) {
            self
        } else if !self.hedges(min_notional, processed, o, open) {
            Accounts { seen, ..self }
        } else if is_full(o, open) {
            self.closed(o)
        } else {
            Accounts {
                seen,
                hedged: self.hedged.insert(account(o), open.filled_amount),
                ..self
            }
        }
    }

    /// Without the order.
    pub open spec fn closed(self, o: state::Order) -> Accounts {
        Accounts {
            seen: self.seen.remove(account(o)),
            hedged: self.hedged.remove(account(o)),
            ..self
        }
    }

    /// The fill that is hedged.
    pub open spec fn fill(self, o: state::Order, open: MakerOpenOrder) -> Fill {
        Fill {
            side: o.side,
            size: self.unhedged(o, open),
            price: open.price,
            exchange_order_id: text::optional_text(open.order_id),
            client_order_id: Some(open.client_order_id@),
            is_full_fill: is_full(o, open),
            source: "rest_fill_detection"@,
        }
    }

    /// Amounts are positive. Of every order for which something has been hedged, at least
    /// that much has been seen filled.
    pub open spec fn sound(self) -> bool {
        &&& forall|name: Seq<char>| #[trigger]
            self.seen.contains_key(name) ==> self.seen[name].positive()
        &&& forall|name: Seq<char>| #[trigger]
            self.hedged.contains_key(name) ==> self.hedge_is_backed(name)
    }

    pub open spec fn hedge_is_backed(self, name: Seq<char>) -> bool {
        &&& self.seen.contains_key(name)
        &&& self.hedged[name].positive()
        &&& self.hedged[name].at_most(self.seen[name])
    }

    /// The look completes the order, and what is left of it is hedged.
    pub open spec fn closes(
        self,
        min_notional: Double,
        processed: Set<Seq<char>>,
        o: state::Order,
        open: MakerOpenOrder,
    ) -> bool {
        self.hedges(min_notional, processed, o, open) && is_full(o, open)
    }

    /// The accounts after some looks at an order, each with the fills that have been
    /// dealt with by then.
    pub open spec fn after_looks(
        self,
        min_notional: Double,
        o: state::Order,
        looks: Seq<(Set<Seq<char>>, MakerOpenOrder)>,
    ) -> Accounts
        decreases looks.len(),
    {
        if looks.len() == 0 {
            self
        } else {
            let (processed, open) = looks.last();
            self.after_looks(min_notional, o, looks.drop_last()).after_look(
                min_notional,
                processed,
                o,
                open,
            )
        }
    }

    /// None of the looks completes the order.
    pub open spec fn stays_open(
        self,
        min_notional: Double,
        o: state::Order,
        looks: Seq<(Set<Seq<char>>, MakerOpenOrder)>,
    ) -> bool
        decreases looks.len(),
    {
        looks.len() == 0 || {
            let (processed, open) = looks.last();
            let before = self.after_looks(min_notional, o, looks.drop_last());
            &&& self.stays_open(min_notional, o, looks.drop_last())
            &&& !before.closes(min_notional, processed, o, open)
        }
    }

    /// What the looks send to be hedged, in all.
    pub open spec fn sent(
        self,
        min_notional: Double,
        o: state::Order,
        looks: Seq<(Set<Seq<char>>, MakerOpenOrder)>,
    ) -> int
        decreases looks.len(),
    {
        if looks.len() == 0 {
            0
        } else {
            let (processed, open) = looks.last();
            let before = self.after_looks(min_notional, o, looks.drop_last());
            self.sent(min_notional, o, looks.drop_last()) + if before.hedges(
                min_notional,
                processed,
                o,
                open,
            ) {
                before.unhedged(o, open).amount()
            } else {
                0
            }
        }
    }

    /// What rounding loses in what is sent.
    pub open spec fn lost_in_sending(
        self,
        min_notional: Double,
        o: state::Order,
        looks: Seq<(Set<Seq<char>>, MakerOpenOrder)>,
    ) -> int
        decreases looks.len(),
    {
        if looks.len() == 0 {
            0
        } else {
            let (processed, open) = looks.last();
            let before = self.after_looks(min_notional, o, looks.drop_last());
            self.lost_in_sending(min_notional, o, looks.drop_last()) + if before.hedges(
                min_notional,
                processed,
                o,
                open,
            ) {
                Double::lost(
                    open.filled_amount.amount() - ledger::amount_of(
                        before.hedged,
                        account(o),
                    ).amount(),
                    1,
                )
            } else {
                0
            }
        }
    }

    /// What was filled by the last look that sent something, or had been hedged before
    /// all of them.
    pub open spec fn covered(
        self,
        min_notional: Double,
        o: state::Order,
        looks: Seq<(Set<Seq<char>>, MakerOpenOrder)>,
    ) -> int
        decreases looks.len(),
    {
        if looks.len() == 0 {
            ledger::amount_of(self.hedged, account(o)).amount()
        } else {
            let (processed, open) = looks.last();
            let before = self.after_looks(min_notional, o, looks.drop_last());
            if before.hedges(min_notional, processed, o, open) {
                open.filled_amount.amount()
            } else {
                self.covered(min_notional, o, looks.drop_last())
            }
        }
    }

    /// A look keeps the accounts sound.
    pub proof fn law_accounts_stay_sound(
        self,
        min_notional: Double,
        processed: Set<Seq<char>>,
        o: state::Order,
        open: MakerOpenOrder,
    )
        requires
            self.sound(),
        ensures
            self.after_look(min_notional, processed, o, open).sound(),
    {
        let after = self.after_look(min_notional, processed, o, open);
        assert forall|name: Seq<char>| #[trigger]
            after.hedged.contains_key(name) implies after.hedge_is_backed(name) by {
            assert(name != account(o) ==> self.hedged.contains_key(name));
            assert(self.hedged.contains_key(name) ==> self.hedge_is_backed(name));
        }
    }

    /// Leaving an order out keeps the accounts sound.
    pub proof fn law_closing_keeps_accounts_sound(self, o: state::Order)
        requires
            self.sound(),
        ensures
            self.closed(o).sound(),
    {
        let rest = self.closed(o);
        assert forall|name: Seq<char>| #[trigger]
            rest.hedged.contains_key(name) implies rest.hedge_is_backed(name) by {
            assert(self.hedged.contains_key(name));
        }
    }

    /// Over any looks at an order, of which only the last may complete it, what is sent
    /// to be hedged adds up to what has been filled: up to what rounding loses in the
    /// differences, which is at most 2^-53 of it. What the sends cover is no more than
    /// what has been seen, and once the order is complete, all that has been filled.
    pub proof fn law_hedges_add_up_to_the_fills(
        self,
        min_notional: Double,
        o: state::Order,
        looks: Seq<(Set<Seq<char>>, MakerOpenOrder)>,
    )
        requires
            self.sound(),
            ledger::amount_of(self.hedged, account(o)).finite(),
            looks.len() > 0 ==> self.stays_open(min_notional, o, looks.drop_last()),
            forall|i: int|
                0 <= i < looks.len() ==> {
                    let (processed, open) = #[trigger] looks[i];
                    open.filled_amount.finite()
                },
        ensures
            ({
                let before = ledger::amount_of(self.hedged, account(o)).amount();
                let covered = self.covered(min_notional, o, looks);
                let sent = self.sent(min_notional, o, looks);
                let lost = self.lost_in_sending(min_notional, o, looks);
                let after = self.after_looks(min_notional, o, looks);
                &&& before <= covered
                &&& -lost <= sent - (covered - before) <= lost
                &&& lost * pow2(53) <= covered - before
                &&& after.sound()
                &&& if self.stays_open(min_notional, o, looks) {
                    &&& ledger::amount_of(after.hedged, account(o)).amount() == covered
                    &&& ledger::amount_of(after.hedged, account(o)).finite()
                    &&& covered <= ledger::amount_of(after.seen, account(o)).amount()
                } else {
                    let (processed, open) = looks.last();
                    covered == open.filled_amount.amount()
                }
            }),
        decreases looks.len(),
    {
        arithmetic::lemma_zero();
        if looks.len() == 0 {
            lemma_mul_basics(pow2(53) as int);
        } else {
            let earlier = looks.drop_last();
            let (processed, open) = looks.last();
            assert forall|i: int| 0 <= i < earlier.len() implies {
                let (p, q) = #[trigger] earlier[i];
                q.filled_amount.finite()
            } by {
                assert(earlier[i] == looks[i]);
            }
            assert(looks[looks.len() - 1] == looks.last());
            self.law_hedges_add_up_to_the_fills(min_notional, o, earlier);
            let before = self.after_looks(min_notional, o, earlier);
            before.law_accounts_stay_sound(min_notional, processed, o, open);
            if before.hedges(min_notional, processed, o, open) {
                let hedged = ledger::amount_of(before.hedged, account(o));
                let filled = open.filled_amount;
                lemma_sent_part(filled, hedged);
                lemma_mul_is_distributive_add_other_way(
                    pow2(53) as int,
                    self.lost_in_sending(min_notional, o, earlier),
                    Double::lost(filled.amount() - hedged.amount(), 1),
                );
            }
        }
    }

    /// A fill that is sent is on the order's side, at the price and with the ids of the open
    /// order. Its size is what has been filled beyond what was hedged, up to rounding, and
    /// something has been filled since the last look.
    pub proof fn law_fills_are_on_the_orders_side(
        self,
        min_notional: Double,
        processed: Set<Seq<char>>,
        o: state::Order,
        open: MakerOpenOrder,
    )
        requires
            self.hedges(min_notional, processed, o, open),
        ensures
            ({
                let fill = self.fill(o, open);
                let hedged = ledger::amount_of(self.hedged, account(o));
                let part = open.filled_amount.amount() - hedged.amount();
                &&& fill.side == o.side
                &&& fill.price == open.price
                &&& fill.client_order_id == Some(open.client_order_id@)
                &&& fill.exchange_order_id == text::optional_text(open.order_id)
                &&& fill.size.positive()
                &&& open.filled_amount.positive()
                &&& ledger::amount_of(self.seen, account(o)).amount()
                    < open.filled_amount.amount()
                &&& open.filled_amount.finite() && hedged.finite() && hedged.non_negative()
                    ==> laws::distance(fill.size.amount(), part) * pow2(53) <= part
            }),
    {
        let hedged = ledger::amount_of(self.hedged, account(o));
        arithmetic::lemma_zero();
        if open.filled_amount.finite() && hedged.finite() && hedged.non_negative() {
            lemma_sent_part(open.filled_amount, hedged);
            laws::law_difference_is_near(open.filled_amount, hedged);
            laws::lemma_smaller_is_finite(open.filled_amount, hedged);
        }
    }

    /// What has grown is sent exactly where something of it has not been hedged, no full
    /// fill of the order has been dealt with under either id, and either nothing of the
    /// order is left or what is sent is worth more than `min_notional`.
    pub proof fn law_when_fills_are_sent(
        self,
        min_notional: Double,
        processed: Set<Seq<char>>,
        o: state::Order,
        open: MakerOpenOrder,
    )
        requires
            open.filled_amount.finite(),
            ledger::amount_of(self.hedged, account(o)).finite(),
            ledger::amount_of(self.seen, account(o)).finite(),
        ensures
            ({
                let (filled, hedged, seen) = (
                    open.filled_amount.amount(),
                    ledger::amount_of(self.hedged, account(o)).amount(),
                    ledger::amount_of(self.seen, account(o)).amount(),
                );
                let (client, exchange) = (open.client_order_id@, text::optional_text(open.order_id));
                self.hedges(min_notional, processed, o, open) <==> {
                    &&& filled > seen && filled > 0 && filled > hedged
                    &&& !processed.contains("full"@ + "_"@ + client)
                    &&& exchange is Some ==> !processed.contains("full"@ + "_"@ + exchange->0)
                    &&& is_full(o, open) || min_notional.below(
                        self.fill(o, open).size.product(open.price),
                    )
                }
            }),
    {
        let (f, h) = (open.filled_amount, ledger::amount_of(self.hedged, account(o)));
        arithmetic::lemma_zero();
        laws::law_difference_is_near(f, h);
    }

    /// A fill that has been dealt with in full is not hedged again.
    pub proof fn law_full_fill_is_hedged_once(
        self,
        later: Accounts,
        min_notional: Double,
        processed: Set<Seq<char>>,
        o: state::Order,
        open: MakerOpenOrder,
        later_order: state::Order,
        later_open: MakerOpenOrder,
        later_processed: Set<Seq<char>>,
    )
        requires
            self.hedges(min_notional, processed, o, open),
            is_full(o, open),
            later_open.client_order_id@ == open.client_order_id@ || (open.order_id is Some
                && text::optional_text(later_open.order_id) == text::optional_text(open.order_id)),
            processed.union(
                fill_names(
                    text::optional_text(open.order_id),
                    Some(open.client_order_id@),
                    true,
                    "rest"@,
                ),
            ).subset_of(later_processed),
        ensures
            !later.hedges(min_notional, later_processed, later_order, later_open),
    {
        let marked = processed.union(
            fill_names(
                text::optional_text(open.order_id),
                Some(open.client_order_id@),
                true,
                "rest"@,
            ),
        );
        assert(marked.contains(fill_name(true, open.client_order_id@)));
        assert(later_processed.contains(fill_name(true, open.client_order_id@)));
        if open.order_id is Some {
            assert(marked.contains(fill_name(true, open.order_id->0@)));
            assert(later_processed.contains(fill_name(true, open.order_id->0@)));
        }
    }

    /// After a partial fill has been hedged, only what is filled beyond it is left to hedge.
    pub proof fn law_hedges_add_up(
        self,
        min_notional: Double,
        processed: Set<Seq<char>>,
        o: state::Order,
        open: MakerOpenOrder,
        next: MakerOpenOrder,
    )
        requires
            self.hedges(min_notional, processed, o, open),
            !is_full(o, open),
        ensures
            self.after_look(min_notional, processed, o, open).unhedged(o, next)
                == next.filled_amount.difference(open.filled_amount).larger(
                Double::whole_number(0),
            ),
            ledger::amount_of(
                self.after_look(min_notional, processed, o, open).hedged,
                account(o),
            ) == open.filled_amount,
    {
    }

    /// A look at one order leaves the accounts of all others as they were.
    pub proof fn law_orders_do_not_mix(
        self,
        min_notional: Double,
        processed: Set<Seq<char>>,
        o: state::Order,
        open: MakerOpenOrder,
        other: Seq<char>,
    )
        requires
            other != account(o),
        ensures
            ({
                let after = self.after_look(min_notional, processed, o, open);
                &&& ledger::amount_of(after.seen, other) == ledger::amount_of(self.seen, other)
                &&& ledger::amount_of(after.hedged, other) == ledger::amount_of(self.hedged, other)
            }),
    {
    }
}

/// Nothing of an order is left where all of its size or of its initial amount has been
/// filled, or all but 10^-9 of the one, or all but less than 0.0001 of the other; the
/// latter whichever of the two amounts is the larger.
pub proof fn law_full_orders(o: state::Order, open: MakerOpenOrder)
    requires
        open.filled_amount.finite(),
        open.initial_amount.finite(),
        o.size.finite(),
    ensures
        ({
            let limit = Double::fraction(1, 10000);
            is_full(o, open) <==> {
                ||| open.filled_amount.difference(open.initial_amount).below(limit)
                    && open.initial_amount.difference(open.filled_amount).below(limit)
                ||| o.size.at_most(open.filled_amount.sum(Double::fraction(1, 1_000_000_000)))
            }
        }),
        open.filled_amount.amount() == open.initial_amount.amount() ==> is_full(o, open),
        open.filled_amount.non_negative() && o.size.at_most(open.filled_amount) ==> is_full(
            o,
            open,
        ),
{
    let (f, i) = (open.filled_amount, open.initial_amount);
    laws::lemma_two_sided(f, i);
    laws::lemma_small_fraction(10000);
    laws::lemma_small_fraction(1_000_000_000);
    double::lemma_units_order(f.difference(i).magnitude(), 0);
    let tiny = Double::fraction(1, 1_000_000_000);
    if open.filled_amount.non_negative() {
        arithmetic::lemma_sum_no_smaller(f, tiny);
    }
    laws::law_difference_is_near(f, i);
}

/// A fill found in the trade history of an order that is not open: what its maker fills
/// add up to is positive, and worth at least `min_notional`, and no full fill of it has
/// been dealt with under either id.
pub proof fn law_recovered_fills(
    min_notional: Double,
    processed: Set<Seq<char>>,
    trades: Seq<MakerTradeHistoryItem>,
    order_id: Seq<char>,
    client: Seq<char>,
)
    requires
        is_recovered(min_notional, processed, trades, order_id, client),
    ensures
        !processed.contains("full"@ + "_"@ + order_id),
        !processed.contains("full"@ + "_"@ + client),
        !traded_amount(trades, order_id).nan() ==> traded_amount(trades, order_id).positive(),
        !traded_notional(trades, order_id).nan() ==> traded_notional(trades, order_id).positive(),
        !traded_notional(trades, order_id).nan() && !min_notional.nan() ==> min_notional.at_most(
            traded_notional(trades, order_id),
        ),
{
    arithmetic::lemma_zero();
}

/// What the history shows is taken for a fill wherever the amount and the value are
/// positive, the value is not below the limit, and no full fill has been dealt with.
pub proof fn law_fills_are_recovered(
    min_notional: Double,
    processed: Set<Seq<char>>,
    trades: Seq<MakerTradeHistoryItem>,
    order_id: Seq<char>,
    client: Seq<char>,
)
    requires
        !processed.contains("full"@ + "_"@ + order_id),
        !processed.contains("full"@ + "_"@ + client),
        traded_amount(trades, order_id).positive(),
        traded_notional(trades, order_id).positive(),
        min_notional.at_most(traded_notional(trades, order_id)),
    ensures
        is_recovered(min_notional, processed, trades, order_id, client),
        traded_amount(Seq::empty(), order_id).amount() == 0,
        traded_notional(Seq::empty(), order_id).amount() == 0,
        !is_recovered(min_notional, processed, Seq::empty(), order_id, client),
{
    arithmetic::lemma_zero();
}

/// A fill is remembered under each of the ids that it is told by, alone and with who
/// detected it, and under nothing else.
pub proof fn law_names_of_a_fill(
    exchange: Option<Seq<char>>,
    client: Option<Seq<char>>,
    is_full: bool,
    tag: Seq<char>,
    name: Seq<char>,
)
    ensures
        ({
            let kind = if is_full {
                "full"@
            } else {
                "partial"@
            };
            fill_names(exchange, client, is_full, tag).contains(name) <==> {
                ||| exchange is Some && name == kind + "_"@ + exchange->0
                ||| exchange is Some && name == kind + "_"@ + exchange->0 + "_"@ + tag
                ||| client is Some && name == kind + "_"@ + client->0
                ||| client is Some && name == kind + "_"@ + client->0 + "_"@ + tag
            }
        }),
{
}

/// The accounts of pending orders are named by the id of the exchange where there is one,
/// by the own id otherwise: by each order, and by nothing else.
pub proof fn law_accounts_are_named_by_orders(pending: Seq<state::Pending>, p: state::Pending)
    ensures
        account_names(pending.push(p)) == account_names(pending).insert(
            if p.order.exchange_order_id is Some {
                p.order.exchange_order_id->0
            } else {
                p.order.client_order_id
            },
        ),
        account_names(Seq::empty()) == Set::<Seq<char>>::empty(),
{
    let all = pending.push(p);
    assert forall|n: Seq<char>| account_names(all).contains(n) <==> account_names(pending).insert(
        account(p.order),
    ).contains(n) by {
        if account_names(all).contains(n) {
            let i = choose|i: int|
                0 <= i < all.len() && account((#[trigger] all[i]).order) == n;
            if i < pending.len() {
                assert(pending[i] == all[i]);
            }
        }
        if account_names(pending).contains(n) {
            let i = choose|i: int|
                0 <= i < pending.len() && account((#[trigger] pending[i]).order) == n;
            assert(all[i] == pending[i]);
        }
        if n == account(p.order) {
            assert(all[pending.len() as int] == p);
        }
    }
    assert(account_names(all) =~= account_names(pending).insert(account(p.order)));
    assert(account_names(Seq::empty()) =~= Set::<Seq<char>>::empty());
}

/// A hedge is waited for from the fill on until it is done.
pub proof fn law_hedging(s: state::Status)
    ensures
        is_hedging(s) <==> s is Filled || s is Hedging,
{
}

/// A trade that is no maker fill of the order does not count, and one that is adds its
/// amount, and its amount times its price.
pub proof fn law_history_adds_up(
    trades: Seq<MakerTradeHistoryItem>,
    t: MakerTradeHistoryItem,
    order_id: Seq<char>,
)
    ensures
        ({
            let (a, n) = (traded_amount(trades, order_id), traded_notional(trades, order_id));
            let all = trades.push(t);
            if t.is_maker_fill && t.order_id is Some && t.order_id->0@ == order_id {
                &&& traded_amount(all, order_id) == a.sum(t.amount)
                &&& traded_notional(all, order_id) == n.sum(t.amount.product(t.entry_price))
            } else {
                &&& traded_amount(all, order_id) == a
                &&& traded_notional(all, order_id) == n
            }
        }),
{
    assert(trades.push(t).drop_last() =~= trades);
}

/// What is filled beyond what has been hedged, where that is positive: it is rounded
/// once, and loses at most 2^-53 of itself.
pub(super) proof fn lemma_sent_part(filled: Double, hedged: Double)
    requires
        filled.finite(),
        hedged.finite(),
        hedged.non_negative(),
        !filled.difference(hedged).larger(Double::whole_number(0)).at_most(
            Double::whole_number(0),
        ),
    ensures
        ({
            let part = filled.amount() - hedged.amount();
            let sent = filled.difference(hedged).larger(Double::whole_number(0));
            &&& 0 < part
            &&& sent.amount() - part <= Double::lost(part, 1)
            &&& part - sent.amount() <= Double::lost(part, 1)
            &&& Double::lost(part, 1) * pow2(53) <= part
        }),
{
    let part = filled.amount() - hedged.amount();
    arithmetic::lemma_zero();
    arithmetic::lemma_difference_order(filled, filled, hedged);
    arithmetic::lemma_nearest_zero(1);
    if part <= 0 {
        arithmetic::lemma_nearest_order(part, 0, 1);
    }
    arithmetic::lemma_units_exact(filled.magnitude());
    rounding::lemma_nearest_monotone(part, filled.amount(), 1);
    arithmetic::lemma_nearest_range(part, 1);
    arithmetic::law_rounding_loses_little(part, 1);
}

/// The bot after a fill of an order: the order, if it is given, is the active one.
pub open spec fn with_fill(
    bot: state::Bot,
    order: Option<state::Order>,
    size: Double,
    side: OrderSide,
) -> state::Bot {
    state::Bot {
        active_order: match order {
            Some(o) => Some(o),
            None => bot.active_order,
        },
        ..bot.filled(size, side)
    }
}

/// A fill puts the bot to wait for the hedge, with the order as its active one where it is
/// given. A buy raises the position by the size, a sell lowers it.
pub proof fn law_with_fill(
    bot: state::Bot,
    order: Option<state::Order>,
    size: Double,
    side: OrderSide,
)
    ensures
        ({
            let after = with_fill(bot, order, size, side);
            &&& after.status is Filled
            &&& order is Some ==> after.active_order == order
            &&& order is None ==> after.active_order == bot.active_order
            &&& side == OrderSide::Buy ==> after.position == bot.position.sum(size)
            &&& side == OrderSide::Sell ==> after.position == bot.position.difference(size)
            &&& after.pending_orders == bot.pending_orders
        }),
{
}

/// Taking an order out of the pending ones leaves all others as they were, and takes out
/// one with one of the ids where there is one.
pub proof fn law_without_pending(
    bot: state::Bot,
    client: Option<Seq<char>>,
    exchange: Option<Seq<char>>,
)
    ensures
        ({
            let after = without_pending(bot, client, exchange);
            &&& bot.find(client, exchange) is Some ==> exists|k: int|
                0 <= k < bot.pending_orders.len() && (#[trigger] bot.pending_orders[k]).has_id(
                    client,
                    exchange,
                ) && after.pending_orders == bot.pending_orders.remove(k)
            &&& bot.find(client, exchange) is None ==> after == bot
            &&& after.position == bot.position && after.status == bot.status
                && after.active_order == bot.active_order
        }),
{
    state::lemma_place_of(bot.pending_orders, client, exchange);
    let k = state::place_of(bot.pending_orders, client, exchange);
    if k < bot.pending_orders.len() {
        assert(bot.pending_orders[k].has_id(client, exchange));
    }
}

/// The bot without the first pending order that shares an id with the given one.
pub open spec fn without_pending(
    bot: state::Bot,
    client: Option<Seq<char>>,
    exchange: Option<Seq<char>>,
) -> state::Bot {
    let k = state::place_of(bot.pending_orders, client, exchange);
    if k < bot.pending_orders.len() {
        state::Bot { pending_orders: bot.pending_orders.remove(k), ..bot }
    } else {
        bot
    }
}

/// The trade is a maker fill of the order.
pub open spec fn is_fill_of(t: MakerTradeHistoryItem, order_id: Seq<char>) -> bool {
    t.is_maker_fill && text::optional_text(t.order_id) == Some(order_id)
}

/// The amounts of the order's fills, added up in their order.
pub open spec fn traded_amount(trades: Seq<MakerTradeHistoryItem>, order_id: Seq<char>) -> Double
    decreases trades.len(),
{
    if trades.len() == 0 {
        Double::whole_number(0)
    } else {
        let before = traded_amount(trades.drop_last(), order_id);
        if is_fill_of(trades.last(), order_id) {
            before.sum(trades.last().amount)
        } else {
            before
        }
    }
}

/// The values of the order's fills, added up in their order.
pub open spec fn traded_notional(trades: Seq<MakerTradeHistoryItem>, order_id: Seq<char>) -> Double
    decreases trades.len(),
{
    if trades.len() == 0 {
        Double::whole_number(0)
    } else {
        let before = traded_notional(trades.drop_last(), order_id);
        if is_fill_of(trades.last(), order_id) {
            before.sum(trades.last().amount.product(trades.last().entry_price))
        } else {
            before
        }
    }
}

/// The trade history shows a fill of the order that is to be hedged: it has an
/// amount and a value, the latter not below `min_notional`, and no full fill of the order has been
/// dealt with.
pub open spec fn is_recovered(
    min_notional: Double,
    processed: Set<Seq<char>>,
    trades: Seq<MakerTradeHistoryItem>,
    order_id: Seq<char>,
    client: Seq<char>,
) -> bool {
    &&& !dealt_with(processed, Some(order_id), Some(client))
    &&& !traded_amount(trades, order_id).at_most(Double::whole_number(0))
    &&& !traded_notional(trades, order_id).at_most(Double::whole_number(0))
    &&& !traded_notional(trades, order_id).below(min_notional)
}

/// What to do in a round of polling.
#[derive(Debug)]
pub enum Round {
    /// The bot has come to its end: wait for a second.
    Pause,
    /// No order is pending.
    Nothing,
    /// Ask for the open orders and look at these.
    Look(Vec<PendingOrder>),
}

/// What a look at an order has shown.
#[derive(Debug)]
pub enum Finding {
    /// It is not among the open orders.
    NotOpen,
    /// Nothing is to be hedged.
    Nothing,
    Hedge(DetectedFill),
}

/// What a failure to list the open orders means.
#[derive(Debug, Clone, Copy, PartialEq, Eq, Structural)]
pub enum ListFailure {
    /// The exchange asks for fewer calls.
    RateLimited { backoff_secs: u64, banned_until_ms: Option<u64> },
    /// It has failed this many times in a row, five or more.
    Repeated { errors: u32 },
    /// It has failed this many times in a row, fewer than five.
    Failed { errors: u32 },
}

/// The bot waits for a hedge.
pub open spec fn is_hedging(s: state::Status) -> bool {
    s == state::Status::Filled || s == state::Status::Hedging
}

/// The names in the accounts of the pending orders.
pub open spec fn account_names(pending: Seq<state::Pending>) -> Set<Seq<char>> {
    Set::new(
        |n: Seq<char>|
            exists|i: int| 0 <= i < pending.len() && account((#[trigger] pending[i]).order) == n,
    )
}

/// Detects fills of a symbol's orders by polling.
#[derive(Debug)]
pub struct RestFillDetector {
    pub symbol: String,
    /// The value in dollars above which a partial fill is hedged.
    pub min_hedge_notional: Double,
    /// The time between two polls while orders are pending, in milliseconds.
    pub poll_interval_ms: u64,
    consecutive_errors: u32,
    last_known_filled_amounts: Amounts,
    hedged_filled_amounts: Amounts,
}

impl View for RestFillDetector {
    type V = Accounts;

    closed spec fn view(&self) -> Accounts {
        Accounts {
            errors: self.consecutive_errors as nat,
            seen: self.last_known_filled_amounts@,
            hedged: self.hedged_filled_amounts@,
        }
    }
}

impl RestFillDetector {
    pub closed spec fn watched_symbol(&self) -> Seq<char> {
        self.symbol@
    }

    pub closed spec fn min_notional(&self) -> Double {
        self.min_hedge_notional
    }

    pub closed spec fn interval(&self) -> u64 {
        self.poll_interval_ms
    }

    /// What does not change while it runs.
    pub open spec fn same_settings(&self, other: RestFillDetector) -> bool {
        &&& self.watched_symbol() == other.watched_symbol()
        &&& self.min_notional() == other.min_notional()
        &&& self.interval() == other.interval()
    }

    /// The accounts are sound, and no order stands in them twice.
    pub closed spec fn wf(&self) -> bool {
        &&& self.last_known_filled_amounts.wf()
        &&& self.hedged_filled_amounts.wf()
        &&& self@.sound()
    }

    /// At all times, no more has been hedged of an order than has been seen filled.
    pub proof fn law_hedged_is_within_seen(&self)
        requires
            self.wf(),
        ensures
            self@.sound(),
    {
    }

    pub fn new(symbol: String, min_hedge_notional: Double, poll_interval_ms: u64) -> (d:
        RestFillDetector)
        ensures
            d.wf(),
            d@ == (Accounts { errors: 0, seen: Map::empty(), hedged: Map::empty() }),
            d.watched_symbol() == symbol@,
            d.min_notional() == min_hedge_notional,
            d.interval() == poll_interval_ms,
    {
        RestFillDetector {
            symbol,
            min_hedge_notional,
            poll_interval_ms,
            consecutive_errors: 0,
            last_known_filled_amounts: Amounts::new(),
            hedged_filled_amounts: Amounts::new(),
        }
    }

    /// The errors in a row in asking for open orders.
    pub fn consecutive_errors(&self) -> (n: u32)
        ensures
            n == self@.errors,
    {
        self.consecutive_errors
    }

    /// How long to wait before the next round, in milliseconds.
    pub fn poll_delay_ms(&self, bot: &BotState) -> (ms: u64)
        ensures
            ms == if bot@.orders_for(self.watched_symbol()).len() > 0 || is_hedging(bot@.status) {
                self.interval()
            } else {
                1000
            },
    {
        let pending = bot.pending_orders_for_symbol(self.symbol.as_str());
        if pending.len() > 0 || matches!(bot.status, BotStatus::Filled | BotStatus::Hedging) {
            self.poll_interval_ms
        } else {
            1000
        }
    }

    /// What to do in this round. The accounts keep the orders that are pending still.
    pub fn begin_round(&mut self, bot: &BotState) -> (r: Round)
        requires
            old(self).wf(),
        ensures
            final(self).wf(),
            final(self).same_settings(*old(self)),
            ({
                let pending = bot@.orders_for(old(self).watched_symbol());
                let names = account_names(pending);
                if bot@.status.terminal() {
                    r is Pause && final(self)@ == old(self)@
                } else if pending.len() == 0 {
                    r is Nothing && final(self)@ == (Accounts {
                        seen: Map::empty(),
                        hedged: Map::empty(),
                        ..old(self)@
                    })
                } else {
                    &&& r matches Round::Look(v) && state::views(v@) == pending
                    &&& final(self)@ == (Accounts {
                        seen: old(self)@.seen.restrict(names),
                        hedged: old(self)@.hedged.restrict(names),
                        ..old(self)@
                    })
                }
            }),
    {
        if bot.is_terminal() {
            return Round::Pause;
        }
        let pending = bot.pending_orders_for_symbol(self.symbol.as_str());
        if pending.len() == 0 {
            self.last_known_filled_amounts.clear();
            self.hedged_filled_amounts.clear();
            return Round::Nothing;
        }
        let mut names: Vec<String> = Vec::new();
        let mut i: usize = 0;
        while i < pending.len()
            invariant
                i <= pending@.len(),
                names@.len() == i,
                forall|k: int|
                    0 <= k < i ==> (#[trigger] names@[k])@ == account(pending@[k].order@),
            decreases pending@.len() - i,
        {
            names.push(tracked_order_key(&pending[i].order));
            i = i + 1;
        }
        proof {
            let views = state::views(pending@);
            assert forall|n: Seq<char>| ledger::listed(names@, n) == account_names(views).contains(
            n) by {
                if ledger::listed(names@, n) {
                    let k = choose|k: int| 0 <= k < names@.len() && (#[trigger] names@[k])@ == n;
                    assert(account(views[k].order) == n);
                }
                if account_names(views).contains(n) {
                    let k = choose|k: int|
                        0 <= k < views.len() && account((#[trigger] views[k]).order) == n;
                    assert(names@[k]@ == n);
                }
            }
            assert(Set::new(|n: Seq<char>| ledger::listed(names@, n)) =~= account_names(views));
        }
        self.last_known_filled_amounts.retain(&names);
        self.hedged_filled_amounts.retain(&names);
        proof {
            let (before, after) = (old(self)@, self@);
            assert forall|name: Seq<char>| #[trigger]
                after.seen.contains_key(name) implies after.seen[name].positive() by {
                assert(before.seen.contains_key(name));
            }
            assert forall|name: Seq<char>| #[trigger]
                after.hedged.contains_key(name) implies after.hedge_is_backed(name) by {
                assert(before.hedged.contains_key(name));
            }
        }
        Round::Look(pending)
    }

    /// The open orders have been listed.
    pub fn listing_succeeded(&mut self, health: &mut BinanceApiHealth)
        requires
            old(self).wf(),
        ensures
            final(self).wf(),
            final(self).same_settings(*old(self)),
            final(self)@ == (Accounts { errors: 0, ..old(self)@ }),
            *final(health) == (BinanceApiHealth { rest_available: true, ..*old(health) }),
    {
        self.consecutive_errors = 0;
        health.mark_rest_available(true);
    }

    /// Listing the open orders has failed with the given message.
    pub fn listing_failed(&mut self, health: &mut BinanceApiHealth, message: &str) -> (r:
        ListFailure)
        requires
            old(self).wf(),
            old(self)@.errors < u32::MAX,
        ensures
            final(self).wf(),
            final(self).same_settings(*old(self)),
            final(self)@ == (Accounts { errors: old(self)@.errors + 1, ..old(self)@ }),
            ({
                let errors = old(self)@.errors + 1;
                let limited = rate_limit::speaks_of_rate_limit(
                    text::lowercase_of(message@),
                );
                let ban = rate_limit::ban_end(message@);
                if limited {
                    &&& r == (ListFailure::RateLimited {
                        backoff_secs: rate_limit::backoff_secs(errors) as u64,
                        banned_until_ms: ban,
                    })
                    &&& *final(health) == (BinanceApiHealth {
                        rest_available: false,
                        banned_until_ms: match ban {
                            Some(until) => until,
                            None => old(health).banned_until_ms,
                        },
                        ..*old(health)
                    })
                } else if errors >= 5 {
                    &&& r == (ListFailure::Repeated { errors: errors as u32 })
                    &&& *final(health) == (BinanceApiHealth {
                        rest_available: false,
                        ..*old(health)
                    })
                } else {
                    r == (ListFailure::Failed { errors: errors as u32 }) && *final(health) == *old(
                        health,
                    )
                }
            }),
    {
        self.consecutive_errors = self.consecutive_errors + 1;
        let errors: u32 = self.consecutive_errors;
        if rate_limit::is_rate_limit_error(message) {
            health.mark_rest_available(false);
            let ban = rate_limit::parse_ban_until_ms(message);
            if let Some(until) = ban {
                health.mark_banned(until);
            }
            return ListFailure::RateLimited {
                backoff_secs: rate_limit::backoff(errors),
                banned_until_ms: ban,
            };
        }
        if errors >= 5 {
            health.mark_rest_available(false);
            return ListFailure::Repeated { errors };
        }
        ListFailure::Failed { errors }
    }

    /// Looks for fills of a pending order among the open orders. Where there is one to
    /// be hedged, it is remembered, and the bot's state and the number of its status
    /// tell of it.
    pub fn examine(
        &mut self,
        bot: &mut BotState,
        processed: &mut ProcessedFills,
        status: &mut u8,
        pending: &PendingOrder,
        orders: &Vec<MakerOpenOrder>,
    ) -> (r: Finding)
        requires
            old(self).wf(),
            old(bot).wf(),
        ensures
            final(self).wf(),
            final(bot).wf(),
            final(self).same_settings(*old(self)),
            ({
                let o = pending.order@;
                let (before, min) = (old(self)@, old(self).min_notional());
                match open_order(orders@, o) {
                    None => r is NotOpen && final(self)@ == before && *final(bot) == *old(bot)
                        && final(processed)@ == old(processed)@ && *final(status) == *old(status),
                    Some(open) => {
                        &&& final(self)@ == before.after_look(min, old(processed)@, o, open)
                        &&& if before.hedges(min, old(processed)@, o, open) {
                            &&& r matches Finding::Hedge(f) && f@ == before.fill(o, open)
                            &&& final(processed)@ == old(processed)@.union(
                                fill_names(
                                    text::optional_text(open.order_id),
                                    Some(open.client_order_id@),
                                    is_full(o, open),
                                    "rest"@,
                                ),
                            )
                            &&& final(bot)@ == with_fill(
                                if is_full(o, open) {
                                    without_pending(
                                        old(bot)@,
                                        Some(o.client_order_id),
                                        o.exchange_order_id,
                                    )
                                } else {
                                    old(bot)@
                                },
                                Some(o),
                                before.unhedged(o, open),
                                o.side,
                            )
                            &&& *final(status) == AtomicBotStatus::Filled.number()
                        } else {
                            &&& r is Nothing
                            &&& *final(bot) == *old(bot)
                            &&& final(processed)@ == old(processed)@
                            &&& *final(status) == *old(status)
                        }
                    },
                }
            }),
    {
        let order = &pending.order;
        let ghost o = order@;
        let mut i: usize = 0;
        assert(orders@.skip(0) =~= orders@);
        while i < orders.len() && !open_order_matches_tracked(order, &orders[i])
            invariant
                i <= orders@.len(),
                o == order@,
                open_order(orders@, o) == open_order(orders@.skip(i as int), o),
            decreases orders@.len() - i,
        {
            assert(orders@.skip(i as int)[0] == orders@[i as int]);
            assert(orders@.skip(i as int).drop_first() =~= orders@.skip(i + 1));
            i = i + 1;
        }
        if i == orders.len() {
            return Finding::NotOpen;
        }
        assert(orders@.skip(i as int)[0] == orders@[i as int]);
        let open = &orders[i];
        let key = tracked_order_key(order);
        let filled = open.filled_amount;
        let last_known = self.last_known_filled_amounts.get_or_zero(key.as_str());
        let hedged = self.hedged_filled_amounts.get_or_zero(key.as_str());
        if !(last_known.lt(&filled) && filled.is_positive()) {
            return Finding::Nothing;
        }
        let zero = Double::whole(0);
        let unhedged = filled.minus(&hedged).max(&zero);
        let notional = unhedged.times(&open.price);
        self.last_known_filled_amounts.insert(key.as_str(), filled);
        proof {
            let before = old(self)@;
            assert(self@.seen == before.seen.insert(key@, filled));
            assert(self@.hedged == before.hedged);
            assert forall|name: Seq<char>| #[trigger]
                self@.hedged.contains_key(name) implies self@.hedge_is_backed(name) by {
                assert(before.hedge_is_backed(name));
                if name == key@ {
                    assert(before.hedged[name].at_most(before.seen[name]));
                    assert(last_known == before.seen[name]);
                }
            }
            assert(self@.sound());
        }
        let full = filled.minus(&open.initial_amount).abs().lt(&Double::ratio(1, 10000))
            || order.size.le(&filled.plus(&Double::ratio(1, 1_000_000_000)));
        if !(full || notional.gt(&self.min_hedge_notional)) {
            return Finding::Nothing;
        }
        if unhedged.le(&zero) {
            return Finding::Nothing;
        }
        let exchange_order_id = text::slice_optional(&open.order_id);
        let client_order_id = Some(open.client_order_id.as_str());
        if is_fill_already_processed(processed, exchange_order_id, client_order_id) {
            return Finding::Nothing;
        }
        mark_fill_processed(processed, exchange_order_id, client_order_id, full, "rest");
        if full {
            let _ = bot.remove_pending_order(
                Some(order.client_order_id.as_str()),
                text::slice_optional(&order.exchange_order_id),
            );
            self.last_known_filled_amounts.remove(key.as_str());
            self.hedged_filled_amounts.remove(key.as_str());
            proof {
                assert(old(self)@.seen.insert(key@, filled).remove(key@) =~= old(self)@.seen.remove(
                    key@,
                ));
            }
        } else {
            self.hedged_filled_amounts.insert(key.as_str(), filled);
        }
        bot.active_order = Some(order.clone());
        bot.mark_filled(unhedged, order.side);
        sync_atomic_status(status, &bot.status);
        Finding::Hedge(
            DetectedFill {
                side: order.side,
                size: unhedged,
                price: open.price,
                exchange_order_id: text::copy_optional(&open.order_id),
                client_order_id: Some(open.client_order_id.clone()),
                is_full_fill: full,
                source: "rest_fill_detection".to_owned(),
            },
        )
    }

    /// Whether the trade history is to be asked for an order that is not open: the
    /// exchange's id is known, and no full fill has been dealt with.
    pub fn wants_history(&self, processed: &ProcessedFills, order: &ActiveOrder) -> (r: bool)
        ensures
            r == (order@.exchange_order_id is Some && !dealt_with(
                processed@,
                order@.exchange_order_id,
                Some(order@.client_order_id),
            )),
    {
        match &order.exchange_order_id {
            Some(id) => !is_fill_already_processed(
                processed,
                Some(id.as_str()),
                Some(order.client_order_id.as_str()),
            ),
            None => false,
        }
    }

    /// Looks for fills of an order that is not open in the trade history. Where there
    /// is one to be hedged, it is remembered, and the bot's state and the number of its
    /// status tell of it.
    pub fn recover_fill_via_trade_history(
        &mut self,
        bot: &mut BotState,
        processed: &mut ProcessedFills,
        status: &mut u8,
        order: &ActiveOrder,
        trades: &Vec<MakerTradeHistoryItem>,
    ) -> (r: Option<DetectedFill>)
        requires
            old(self).wf(),
            old(bot).wf(),
        ensures
            final(self).wf(),
            final(bot).wf(),
            final(self).same_settings(*old(self)),
            ({
                let o = order@;
                let id = o.exchange_order_id;
                let size = traded_amount(trades@, id->0);
                let notional = traded_notional(trades@, id->0);
                if id is Some && is_recovered(
                    old(self).min_notional(),
                    old(processed)@,
                    trades@,
                    id->0,
                    o.client_order_id,
                ) {
                    &&& r matches Some(f) && f@ == (Fill {
                        side: o.side,
                        size,
                        price: notional.quotient(size),
                        exchange_order_id: id,
                        client_order_id: Some(o.client_order_id),
                        is_full_fill: true,
                        source: "rest_trade_history_recovery"@,
                    })
                    &&& final(processed)@ == old(processed)@.union(
                        fill_names(id, Some(o.client_order_id), true, "history"@),
                    )
                    &&& final(self)@ == old(self)@.closed(o)
                    &&& final(bot)@ == without_pending(
                        with_fill(old(bot)@, None, size, o.side),
                        Some(o.client_order_id),
                        id,
                    )
                    &&& *final(status) == AtomicBotStatus::Filled.number()
                } else {
                    &&& r is None
                    &&& final(self)@ == old(self)@
                    &&& *final(status) == *old(status)
                    &&& *final(bot) == *old(bot)
                    &&& final(processed)@ == old(processed)@
                }
            }),
    {
        let order_id = match &order.exchange_order_id {
            Some(id) => id,
            None => {
                return None;
            },
        };
        let client_order_id = order.client_order_id.as_str();
        if is_fill_already_processed(processed, Some(order_id.as_str()), Some(client_order_id)) {
            return None;
        }
        let mut size = Double::whole(0);
        let mut notional = Double::whole(0);
        let mut i: usize = 0;
        while i < trades.len()
            invariant
                i <= trades@.len(),
                size == traded_amount(trades@.take(i as int), order_id@),
                notional == traded_notional(trades@.take(i as int), order_id@),
            decreases trades@.len() - i,
        {
            let t = &trades[i];
            let ours = match &t.order_id {
                Some(id) => text::same(id.as_str(), order_id.as_str()),
                None => false,
            };
            proof {
                assert(trades@.take(i + 1).drop_last() =~= trades@.take(i as int));
            }
            if t.is_maker_fill && ours {
                size = size.plus(&t.amount);
                notional = notional.plus(&t.amount.times(&t.entry_price));
            }
            i = i + 1;
        }
        assert(trades@.take(i as int) =~= trades@);
        let zero = Double::whole(0);
        if size.le(&zero) || notional.le(&zero) || notional.lt(&self.min_hedge_notional) {
            return None;
        }
        mark_fill_processed(
            processed,
            Some(order_id.as_str()),
            Some(client_order_id),
            true,
            "history",
        );
        bot.mark_filled(size, order.side);
        sync_atomic_status(status, &bot.status);
        let key = tracked_order_key(order);
        self.last_known_filled_amounts.remove(key.as_str());
        self.hedged_filled_amounts.remove(key.as_str());
        let _ = bot.remove_pending_order(Some(client_order_id), Some(order_id.as_str()));
        proof {
            old(self)@.law_closing_keeps_accounts_sound(order@);
        }
        Some(
            DetectedFill {
                side: order.side,
                size,
                price: notional.over(&size),
                exchange_order_id: Some(order_id.clone()),
                client_order_id: Some(order.client_order_id.clone()),
                is_full_fill: true,
                source: "rest_trade_history_recovery".to_owned(),
            },
        )
    }
}

/// How far back the trade history is searched, in milliseconds.
pub const HISTORY_MS: u64 = 600_000;

/// The span of time, in milliseconds since the Unix epoch, that is searched at `now_ms`.
pub fn history_window(now_ms: u64) -> (r: (u64, u64))
    ensures
        r.1 == now_ms,
        r.0 == if now_ms >= HISTORY_MS {
            now_ms - HISTORY_MS
        } else {
            0
        },
{
    if now_ms >= HISTORY_MS {
        (now_ms - HISTORY_MS, now_ms)
    } else {
        (0, now_ms)
    }
}

/// What was recovered once is not recovered again, nor found by a look at the open orders.
pub proof fn law_recovered_fill_is_hedged_once(
    accounts: Accounts,
    min_notional: Double,
    processed: Set<Seq<char>>,
    later_processed: Set<Seq<char>>,
    trades: Seq<MakerTradeHistoryItem>,
    order_id: Seq<char>,
    client: Seq<char>,
    o: state::Order,
    open: MakerOpenOrder,
)
    requires
        processed.union(fill_names(Some(order_id), Some(client), true, "history"@)).subset_of(
            later_processed,
        ),
    ensures
        !is_recovered(min_notional, later_processed, trades, order_id, client),
        open.client_order_id@ == client || text::optional_text(open.order_id) == Some(order_id)
            ==> !accounts.hedges(min_notional, later_processed, o, open),
{
    let marked = processed.union(fill_names(Some(order_id), Some(client), true, "history"@));
    assert(marked.contains(fill_name(true, order_id)));
    assert(marked.contains(fill_name(true, client)));
    assert(later_processed.contains(fill_name(true, order_id)));
    assert(later_processed.contains(fill_name(true, client)));
}

} // verus!
