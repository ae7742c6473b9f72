//! What the fills of a hedged order come to, out of the trade histories of both
//! exchanges.
use crate::connector::maker::MakerTradeHistoryItem;
use crate::double;
use crate::double::arithmetic;
use crate::double::laws;
use crate::double::Double;
use crate::encoding;
use crate::text;
use vstd::arithmetic::power2::*;
use vstd::prelude::*;

verus! {

/// What the fills on one exchange come to.
#[derive(Debug, Clone, Copy, PartialEq, Eq, Structural)]
pub struct TradeFetchResult {
    pub fill_price: Option<Double>,
    pub actual_fee: Option<Double>,
    pub total_size: Option<Double>,
    /// The value of all fills in dollars.
    pub total_notional: Option<Double>,
}

impl TradeFetchResult {
    /// Nothing is known.
    pub open spec fn nothing() -> TradeFetchResult {
        TradeFetchResult {
            fill_price: None,
            actual_fee: None,
            total_size: None,
            total_notional: None,
        }
    }

    pub fn empty() -> (r: TradeFetchResult)
        ensures
            r == TradeFetchResult::nothing(),
    {
        TradeFetchResult {
            fill_price: None,
            actual_fee: None,
            total_size: None,
            total_notional: None,
        }
    }
}

/// What a hedged order has earned.
#[derive(Debug, Clone, Copy, PartialEq, Eq, Structural)]
pub struct ProfitResult {
    pub gross_pnl: Double,
    pub net_profit: Double,
    pub profit_bps: Double,
    pub pac_fee: Double,
    pub hl_fee: Double,
}

/// The trade is a maker fill of an order with one of the ids.
pub open spec fn is_match(
    t: MakerTradeHistoryItem,
    client: Option<Seq<char>>,
    order: Option<Seq<char>>,
) -> bool {
    &&& t.is_maker_fill
    &&& (client is Some && text::optional_text(t.client_order_id) == client) || (order is Some
        && text::optional_text(t.order_id) == order)
}

/// The fills of an order among the trades.
pub open spec fn fills_of(
    trades: Seq<MakerTradeHistoryItem>,
    client: Option<Seq<char>>,
    order: Option<Seq<char>>,
) -> Seq<MakerTradeHistoryItem>
    decreases trades.len(),
{
    if trades.len() == 0 {
        Seq::empty()
    } else {
        let before = fills_of(trades.drop_last(), client, order);
        let t = trades.last();
        if is_match(t, client, order) {
            before.push(t)
        } else {
            before
        }
    }
}

/// The trades that are referred to.
pub open spec fn referred(trades: Seq<&MakerTradeHistoryItem>) -> Seq<MakerTradeHistoryItem> {
    Seq::new(trades.len(), |i: int| *trades[i])
}

/// Picks the fills of an order, by its own id or the exchange's.
pub fn matching_maker_trades<'a>(
    trades: &'a Vec<MakerTradeHistoryItem>,
    client_order_id: Option<&str>,
    order_id: Option<&str>,
) -> (r: Vec<&'a MakerTradeHistoryItem>)
    ensures
        referred(r@) == fills_of(
            trades@,
            text::optional_str(client_order_id),
            text::optional_str(order_id),
        ),
{
    let mut r: Vec<&MakerTradeHistoryItem> = Vec::new();
    let mut i: usize = 0;
    assert(referred(r@) =~= Seq::empty());
    while i < trades.len()
        invariant
            i <= trades@.len(),
            referred(r@) == fills_of(
                trades@.take(i as int),
                text::optional_str(client_order_id),
                text::optional_str(order_id),
            ),
        decreases trades@.len() - i,
    {
        let t = &trades[i];
        let client_match = match (client_order_id, &t.client_order_id) {
            (Some(id), Some(own)) => text::same(own.as_str(), id),
            _ => false,
        };
        let order_match = match (order_id, &t.order_id) {
            (Some(id), Some(own)) => text::same(own.as_str(), id),
            _ => false,
        };
        proof {
            assert(trades@.take(i + 1).drop_last() =~= trades@.take(i as int));
        }
        if t.is_maker_fill && (client_match || order_match) {
            let ghost so_far = r@;
            r.push(t);
            assert(referred(r@) =~= referred(so_far).push(*t));
        }
        i = i + 1;
    }
    assert(trades@.take(i as int) =~= trades@);
    r
}

/// Value, size and fee of fills, each added up in their order.
pub struct Totals {
    pub notional: Double,
    pub size: Double,
    pub fee: Double,
}

pub open spec fn no_totals() -> Totals {
    Totals {
        notional: Double::whole_number(0),
        size: Double::whole_number(0),
        fee: Double::whole_number(0),
    }
}

pub open spec fn maker_totals(fills: Seq<MakerTradeHistoryItem>) -> Totals
    decreases fills.len(),
{
    if fills.len() == 0 {
        no_totals()
    } else {
        let before = maker_totals(fills.drop_last());
        let f = fills.last();
        Totals {
            notional: before.notional.sum(f.entry_price.product(f.amount)),
            size: before.size.sum(f.amount),
            fee: before.fee.sum(f.fee),
        }
    }
}

/// A further fill adds its price times its size, its size and its fee.
pub proof fn law_maker_fills_add_up(fills: Seq<MakerTradeHistoryItem>, f: MakerTradeHistoryItem)
    ensures
        ({
            let (before, after) = (maker_totals(fills), maker_totals(fills.push(f)));
            &&& after.notional == before.notional.sum(f.entry_price.product(f.amount))
            &&& after.size == before.size.sum(f.amount)
            &&& after.fee == before.fee.sum(f.fee)
        }),
        maker_totals(Seq::empty()).notional.amount() == 0,
        maker_totals(Seq::empty()).size.amount() == 0,
        maker_totals(Seq::empty()).fee.amount() == 0,
{
    arithmetic::lemma_zero();
    assert(fills.push(f).drop_last() =~= fills);
}

/// A trade counts for an order exactly where it is a maker fill and has one of the
/// order's ids; the others are left out, and the order of the trades stays.
pub proof fn law_fills_of_an_order(
    trades: Seq<MakerTradeHistoryItem>,
    t: MakerTradeHistoryItem,
    client: Option<Seq<char>>,
    order: Option<Seq<char>>,
)
    ensures
        fills_of(Seq::empty(), client, order).len() == 0,
        ({
            let ours = (client is Some && t.client_order_id is Some && t.client_order_id->0@
                == client->0) || (order is Some && t.order_id is Some && t.order_id->0@
                == order->0);
            fills_of(trades.push(t), client, order) == if t.is_maker_fill && ours {
                fills_of(trades, client, order).push(t)
            } else {
                fills_of(trades, client, order)
            }
        }),
{
    assert(trades.push(t).drop_last() =~= trades);
}

/// A value, if it is positive.
pub open spec fn if_positive(value: Double, test: Double) -> Option<Double> {
    if test.positive() {
        Some(value)
    } else {
        None
    }
}

fn when_positive(value: Double, test: Double) -> (r: Option<Double>)
    ensures
        r == if_positive(value, test),
{
    if test.is_positive() {
        Some(value)
    } else {
        None
    }
}

/// What the fills of a maker order come to. One fill is taken as it is; more than one
/// are added up, and their price is the average by size.
pub open spec fn maker_result(fills: Seq<MakerTradeHistoryItem>) -> TradeFetchResult {
    let t = maker_totals(fills);
    if fills.len() == 1 {
        TradeFetchResult {
            fill_price: Some(fills[0].entry_price),
            actual_fee: Some(fills[0].fee),
            total_size: Some(fills[0].amount),
            total_notional: Some(fills[0].entry_price.product(fills[0].amount)),
        }
    } else {
        TradeFetchResult {
            fill_price: if_positive(t.notional.quotient(t.size), t.size),
            actual_fee: if_positive(t.fee, t.size),
            total_size: if_positive(t.size, t.size),
            total_notional: if_positive(t.notional, t.notional),
        }
    }
}

/// One fill is taken as it is. Of several, the price is what they are worth over their size
/// where that is positive, and what is not positive is not told.
pub proof fn law_maker_results(fills: Seq<MakerTradeHistoryItem>)
    ensures
        ({
            let r = maker_result(fills);
            let t = maker_totals(fills);
            &&& fills.len() == 1 ==> {
                &&& r.fill_price == Some(fills[0].entry_price)
                &&& r.actual_fee == Some(fills[0].fee)
                &&& r.total_size == Some(fills[0].amount)
                &&& r.total_notional == Some(fills[0].entry_price.product(fills[0].amount))
            }
            &&& fills.len() != 1 && t.size.positive() ==> {
                &&& r.fill_price == Some(t.notional.quotient(t.size))
                &&& r.actual_fee == Some(t.fee)
                &&& r.total_size == Some(t.size)
            }
            &&& fills.len() != 1 && !t.size.positive() ==> r.fill_price is None && r.actual_fee
                is None && r.total_size is None
            &&& fills.len() != 1 && t.notional.positive() ==> r.total_notional == Some(t.notional)
            &&& fills.len() != 1 && !t.notional.positive() ==> r.total_notional is None
        }),
{
}

pub fn calculate_maker_trade_result(trades: &[&MakerTradeHistoryItem]) -> (r: TradeFetchResult)
    ensures
        r == maker_result(referred(trades@)),
{
    if trades.len() == 1 {
        let t = trades[0];
        return TradeFetchResult {
            fill_price: Some(t.entry_price),
            actual_fee: Some(t.fee),
            total_size: Some(t.amount),
            total_notional: Some(t.entry_price.times(&t.amount)),
        };
    }
    let mut total_notional = Double::whole(0);
    let mut total_size = Double::whole(0);
    let mut total_fee = Double::whole(0);
    let mut i: usize = 0;
    while i < trades.len()
        invariant
            i <= trades@.len(),
            ({
                let t = maker_totals(referred(trades@).take(i as int));
                t.notional == total_notional && t.size == total_size && t.fee == total_fee
            }),
        decreases trades@.len() - i,
    {
        let t = trades[i];
        proof {
            let all = referred(trades@);
            assert(all.take(i + 1).drop_last() =~= all.take(i as int));
        }
        total_notional = total_notional.plus(&t.entry_price.times(&t.amount));
        total_size = total_size.plus(&t.amount);
        total_fee = total_fee.plus(&t.fee);
        i = i + 1;
    }
    assert(referred(trades@).take(i as int) =~= referred(trades@));
    TradeFetchResult {
        fill_price: when_positive(total_notional.over(&total_size), total_size),
        actual_fee: when_positive(total_fee, total_size),
        total_size: when_positive(total_size, total_size),
        total_notional: when_positive(total_notional, total_notional),
    }
}

/// What a hedged order has earned: what was sold less what was bought and both fees,
/// also in basis points of the value on Pacifica.
pub open spec fn hedge_profit(
    pac_notional: Double,
    hl_notional: Double,
    pac_fee: Double,
    hl_fee: Double,
    is_pacifica_buy: bool,
) -> ProfitResult {
    let gross_pnl = if is_pacifica_buy {
        hl_notional.difference(pac_notional)
    } else {
        pac_notional.difference(hl_notional)
    };
    let net_profit = gross_pnl.difference(pac_fee).difference(hl_fee);
    ProfitResult {
        gross_pnl,
        net_profit,
        profit_bps: if pac_notional.positive() {
            net_profit.quotient(pac_notional).product(Double::whole_number(10000))
        } else {
            Double::whole_number(0)
        },
        pac_fee,
        hl_fee,
    }
}

pub fn calculate_hedge_profit(
    pac_notional: Double,
    hl_notional: Double,
    pac_fee: Double,
    hl_fee: Double,
    is_pacifica_buy: bool,
) -> (r: ProfitResult)
    ensures
        r == hedge_profit(pac_notional, hl_notional, pac_fee, hl_fee, is_pacifica_buy),
{
    let gross_pnl = if is_pacifica_buy {
        hl_notional.minus(&pac_notional)
    } else {
        pac_notional.minus(&hl_notional)
    };
    let net_profit = gross_pnl.minus(&pac_fee).minus(&hl_fee);
    let profit_bps = if pac_notional.is_positive() {
        net_profit.over(&pac_notional).times(&Double::whole(10000))
    } else {
        Double::whole(0)
    };
    ProfitResult { gross_pnl, net_profit, profit_bps, pac_fee, hl_fee }
}

/// What one direction earns before fees, the other one loses.
pub proof fn law_directions_are_opposite(
    pac_notional: Double,
    hl_notional: Double,
    pac_fee: Double,
    hl_fee: Double,
)
    requires
        !pac_notional.nan(),
        !pac_notional.infinite(),
        !hl_notional.nan(),
        !hl_notional.infinite(),
    ensures
        hedge_profit(pac_notional, hl_notional, pac_fee, hl_fee, true).gross_pnl.amount()
            == -hedge_profit(pac_notional, hl_notional, pac_fee, hl_fee, false).gross_pnl.amount(),
{
    let d = hl_notional.amount() - pac_notional.amount();
    let size = if d < 0 {
        -d
    } else {
        d
    };
    crate::double::lemma_units_order(pac_notional.magnitude(), 0);
    crate::double::lemma_units_order(hl_notional.magnitude(), 0);
    crate::double::arithmetic::lemma_nearest_range(size, 1);
    assert(crate::double::units(0) == 0);
    assert(pac_notional.opposite().amount() == -pac_notional.amount());
    assert(hl_notional.opposite().amount() == -hl_notional.amount());
}

/// What a hedged order has earned, in either direction: before fees it is above zero
/// exactly where what was sold is worth more than what was bought, and it is their
/// difference up to rounding. Fees that are not negative never raise it, and what is left
/// is less by both of them, up to rounding. Both fees are told as they were given.
pub proof fn law_fees_lower_the_profit(
    pac_notional: Double,
    hl_notional: Double,
    pac_fee: Double,
    hl_fee: Double,
    is_pacifica_buy: bool,
)
    requires
        pac_notional.finite(),
        hl_notional.finite(),
        pac_fee.finite(),
        hl_fee.finite(),
        pac_fee.non_negative(),
        hl_fee.non_negative(),
    ensures
        ({
            let r = hedge_profit(pac_notional, hl_notional, pac_fee, hl_fee, is_pacifica_buy);
            let gross = if is_pacifica_buy {
                hl_notional.amount() - pac_notional.amount()
            } else {
                pac_notional.amount() - hl_notional.amount()
            };
            &&& !r.gross_pnl.nan() && !r.net_profit.nan()
            &&& r.gross_pnl.amount() > 0 <==> gross > 0
            &&& r.gross_pnl.amount() < 0 <==> gross < 0
            &&& r.gross_pnl.finite() ==> laws::distance(r.gross_pnl.amount(), gross) * pow2(53)
                <= laws::distance(gross, 0)
            &&& r.net_profit.at_most(r.gross_pnl)
            &&& r.gross_pnl.finite() && r.gross_pnl.difference(pac_fee).finite()
                && r.net_profit.finite() ==> laws::distance(
                r.net_profit.amount(),
                r.gross_pnl.amount() - pac_fee.amount() - hl_fee.amount(),
            ) * pow2(53) <= 3 * laws::distance(r.gross_pnl.amount(), 0) + 3 * pac_fee.amount() + 3
                * hl_fee.amount()
            &&& r.pac_fee == pac_fee && r.hl_fee == hl_fee
        }),
{
    let r = hedge_profit(pac_notional, hl_notional, pac_fee, hl_fee, is_pacifica_buy);
    laws::law_difference_is_near(hl_notional, pac_notional);
    laws::law_difference_is_near(pac_notional, hl_notional);
    let g = r.gross_pnl;
    let n = g.difference(pac_fee);
    double::lemma_units_order(double::INFINITY as int, 0);
    if g.finite() {
        laws::law_difference_is_near(g, pac_fee);
        laws::lemma_taking_away(g, pac_fee);
    }
    if n.finite() {
        laws::law_difference_is_near(n, hl_fee);
        laws::lemma_taking_away(n, hl_fee);
    }
    if g.finite() && n.finite() && r.net_profit.finite() {
        let p = pow2(53) as int;
        lemma_pow2_pos(53);
        let (a, b, c) = (g.amount(), pac_fee.amount(), hl_fee.amount());
        let (x, y) = (n.amount(), r.net_profit.amount());
        let (e, f) = (laws::distance(x, a - b), laws::distance(y, x - c));
        assert(e <= e * p) by (nonlinear_arith)
            requires
                e >= 0,
                p >= 1,
        ;
        let all = laws::distance(y, a - b - c);
        assert(all * p <= e * p + f * p) by (nonlinear_arith)
            requires
                all <= e + f,
                p > 0,
        ;
    }
}

/// The profit in ten thousands of the value on the maker exchange, up to rounding, and with
/// the sign of the profit; 0 where that value is not positive.
pub proof fn law_profit_in_basis_points(
    pac_notional: Double,
    hl_notional: Double,
    pac_fee: Double,
    hl_fee: Double,
    is_pacifica_buy: bool,
)
    requires
        pac_notional.finite(),
    ensures
        ({
            let r = hedge_profit(pac_notional, hl_notional, pac_fee, hl_fee, is_pacifica_buy);
            let part = r.net_profit.amount() * double::one();
            &&& pac_notional.amount() <= 0 ==> r.profit_bps.amount() == 0 && !r.profit_bps.nan()
            &&& pac_notional.amount() > 0 && r.net_profit.finite() ==> {
                &&& !r.profit_bps.nan()
                &&& r.net_profit.amount() >= 0 ==> r.profit_bps.amount() >= 0
                &&& r.net_profit.amount() <= 0 ==> r.profit_bps.amount() <= 0
                &&& r.profit_bps.finite() ==> laws::distance(
                    r.profit_bps.amount() * pac_notional.amount(),
                    10000 * part,
                ) * pow2(53) <= 30000 * laws::distance(part, 0) + 20000 * (pow2(53)
                    * pac_notional.amount())
            }
        }),
{
    let r = hedge_profit(pac_notional, hl_notional, pac_fee, hl_fee, is_pacifica_buy);
    arithmetic::lemma_zero();
    if pac_notional.positive() && r.net_profit.finite() {
        laws::law_basis_points_are_near(r.net_profit, pac_notional);
    }
}

/// The more is sold for, and the less is bought for, the more is earned before fees; and
/// selling on the maker exchange and buying on the other earns what the reverse would with
/// the two values exchanged.
pub proof fn law_better_prices_earn_more(
    pac_notional: Double,
    hl_notional: Double,
    better: Double,
    pac_fee: Double,
    hl_fee: Double,
    other_pac_fee: Double,
    other_hl_fee: Double,
)
    requires
        pac_notional.finite(),
        hl_notional.finite(),
        better.finite(),
    ensures
        hl_notional.at_most(better) ==> hedge_profit(
            pac_notional,
            hl_notional,
            pac_fee,
            hl_fee,
            true,
        ).gross_pnl.at_most(
            hedge_profit(pac_notional, better, other_pac_fee, other_hl_fee, true).gross_pnl,
        ),
        pac_notional.at_most(better) ==> hedge_profit(
            pac_notional,
            hl_notional,
            pac_fee,
            hl_fee,
            false,
        ).gross_pnl.at_most(
            hedge_profit(better, hl_notional, other_pac_fee, other_hl_fee, false).gross_pnl,
        ),
        hedge_profit(pac_notional, hl_notional, pac_fee, hl_fee, false).net_profit == hedge_profit(
            hl_notional,
            pac_notional,
            pac_fee,
            hl_fee,
            true,
        ).net_profit,
{
    if hl_notional.at_most(better) {
        arithmetic::lemma_difference_order(hl_notional, better, pac_notional);
    }
    if pac_notional.at_most(better) {
        arithmetic::lemma_difference_order(pac_notional, better, hl_notional);
    }
}

/// A trade as Pacifica lists it, its amounts read as numbers where they are such.
#[derive(Debug)]
pub struct PacificaTrade {
    pub client_order_id: Option<String>,
    pub event_type: String,
    pub entry_price: Option<Double>,
    pub amount: Option<Double>,
    pub fee: Option<Double>,
}

/// Price, amount and fee of a fill, where they are numbers.
#[derive(Debug, Clone, Copy, PartialEq, Eq, Structural)]
pub struct FillNumbers {
    pub price: Option<Double>,
    pub size: Option<Double>,
    pub fee: Option<Double>,
}

impl PacificaTrade {
    pub open spec fn is_fill_of(self, client_order_id: Seq<char>) -> bool {
        text::optional_text(self.client_order_id) == Some(client_order_id) && self.event_type@
            == "fulfill_maker"@
    }

    pub open spec fn numbers(self) -> FillNumbers {
        FillNumbers { price: self.entry_price, size: self.amount, fee: self.fee }
    }
}

/// The maker fills of an order among the trades.
pub open spec fn pacifica_fills_of(trades: Seq<PacificaTrade>, client_order_id: Seq<char>) -> Seq<
    FillNumbers,
>
    decreases trades.len(),
{
    if trades.len() == 0 {
        Seq::empty()
    } else {
        let before = pacifica_fills_of(trades.drop_last(), client_order_id);
        if trades.last().is_fill_of(client_order_id) {
            before.push(trades.last().numbers())
        } else {
            before
        }
    }
}

/// A trade counts for an order exactly where it has the order's id and tells of a maker
/// fill; the others are left out, and the order of the trades stays.
pub proof fn law_pacifica_fills_of_an_order(
    trades: Seq<PacificaTrade>,
    t: PacificaTrade,
    client_order_id: Seq<char>,
)
    ensures
        pacifica_fills_of(Seq::empty(), client_order_id).len() == 0,
        ({
            let before = pacifica_fills_of(trades, client_order_id);
            pacifica_fills_of(trades.push(t), client_order_id) == if t.client_order_id is Some
                && t.client_order_id->0@ == client_order_id && t.event_type@ == "fulfill_maker"@ {
                before.push(
                    FillNumbers { price: t.entry_price, size: t.amount, fee: t.fee },
                )
            } else {
                before
            }
        }),
{
    assert(trades.push(t).drop_last() =~= trades);
}

/// Picks the maker fills of an order; market orders are left out.
pub fn matching_pacifica_trades(trades: &Vec<PacificaTrade>, client_order_id: &str) -> (r: Vec<
    FillNumbers,
>)
    ensures
        r@ == pacifica_fills_of(trades@, client_order_id@),
{
    let mut r: Vec<FillNumbers> = Vec::new();
    let mut i: usize = 0;
    while i < trades.len()
        invariant
            i <= trades@.len(),
            r@ == pacifica_fills_of(trades@.take(i as int), client_order_id@),
        decreases trades@.len() - i,
    {
        let t = &trades[i];
        let ours = match &t.client_order_id {
            Some(id) => text::same(id.as_str(), client_order_id),
            None => false,
        };
        proof {
            assert(trades@.take(i + 1).drop_last() =~= trades@.take(i as int));
        }
        if ours && text::same(t.event_type.as_str(), "fulfill_maker") {
            r.push(FillNumbers { price: t.entry_price, size: t.amount, fee: t.fee });
        }
        i = i + 1;
    }
    assert(trades@.take(i as int) =~= trades@);
    r
}

/// What one fill comes to.
pub open spec fn single_result(f: FillNumbers) -> TradeFetchResult {
    TradeFetchResult {
        fill_price: f.price,
        actual_fee: f.fee,
        total_size: f.size,
        total_notional: match (f.price, f.size) {
            (Some(p), Some(s)) => Some(p.product(s)),
            _ => None,
        },
    }
}

fn one_fill(f: FillNumbers) -> (r: TradeFetchResult)
    ensures
        r == single_result(f),
{
    let total_notional = match (f.price, f.size) {
        (Some(p), Some(s)) => Some(p.times(&s)),
        _ => None,
    };
    TradeFetchResult { fill_price: f.price, actual_fee: f.fee, total_size: f.size, total_notional }
}

fn add_fee(total: Double, fee: Option<Double>) -> (d: Double)
    ensures
        d == fee_added(total, fee),
{
    match fee {
        Some(f) => total.plus(&f),
        None => total,
    }
}

pub open spec fn fee_added(total: Double, fee: Option<Double>) -> Double {
    match fee {
        Some(f) => total.sum(f),
        None => total,
    }
}

/// The fills added up at one price for all of them. What is not a number is left out.
pub open spec fn totals_at(price: Double, fills: Seq<FillNumbers>) -> Totals
    decreases fills.len(),
{
    if fills.len() == 0 {
        no_totals()
    } else {
        let before = totals_at(price, fills.drop_last());
        let f = fills.last();
        let fee = fee_added(before.fee, f.fee);
        match f.size {
            Some(s) => Totals {
                notional: before.notional.sum(price.product(s)),
                size: before.size.sum(s),
                fee,
            },
            None => Totals { fee, ..before },
        }
    }
}

/// A further fill of a readable size adds that size, and at the common price its value; a
/// readable fee is added in any case.
pub proof fn law_fills_add_up_at_one_price(price: Double, fills: Seq<FillNumbers>, f: FillNumbers)
    ensures
        ({
            let (before, after) = (totals_at(price, fills), totals_at(price, fills.push(f)));
            &&& f.size matches Some(s) ==> after.notional == before.notional.sum(price.product(s))
                && after.size == before.size.sum(s)
            &&& f.size is None ==> after.notional == before.notional && after.size == before.size
            &&& f.fee matches Some(x) ==> after.fee == before.fee.sum(x)
            &&& f.fee is None ==> after.fee == before.fee
        }),
        totals_at(price, Seq::empty()).notional.amount() == 0,
        totals_at(price, Seq::empty()).size.amount() == 0,
        totals_at(price, Seq::empty()).fee.amount() == 0,
{
    arithmetic::lemma_zero();
    assert(fills.push(f).drop_last() =~= fills);
}

/// What the fills of an order on Pacifica come to. One fill is taken as it is. More than
/// one come from the same limit order, and the price of the first holds for all: that
/// of a fill which closes a position may be wrong.
pub open spec fn pacifica_result(fills: Seq<FillNumbers>) -> TradeFetchResult {
    let price = fills[0].price;
    let t = match price {
        Some(p) => totals_at(p, fills),
        None => no_totals(),
    };
    if fills.len() == 1 {
        single_result(fills[0])
    } else {
        TradeFetchResult {
            fill_price: price,
            actual_fee: if_positive(t.fee, t.fee),
            total_size: if_positive(t.size, t.size),
            total_notional: if_positive(t.notional, t.notional),
        }
    }
}

/// One fill is taken as it is. Several have the price of the first, and what they come to
/// at that price is told where it is positive.
pub proof fn law_pacifica_results(fills: Seq<FillNumbers>)
    requires
        fills.len() > 0,
    ensures
        ({
            let r = pacifica_result(fills);
            &&& r.fill_price == fills[0].price
            &&& fills.len() == 1 ==> r.actual_fee == fills[0].fee && r.total_size == fills[0].size
            &&& fills.len() == 1 && fills[0].price is Some && fills[0].size is Some
                ==> r.total_notional == Some(fills[0].price->0.product(fills[0].size->0))
            &&& fills.len() > 1 && fills[0].price is Some ==> {
                let t = totals_at(fills[0].price->0, fills);
                &&& t.fee.positive() ==> r.actual_fee == Some(t.fee)
                &&& !t.fee.positive() ==> r.actual_fee is None
                &&& t.size.positive() ==> r.total_size == Some(t.size)
                &&& !t.size.positive() ==> r.total_size is None
                &&& t.notional.positive() ==> r.total_notional == Some(t.notional)
                &&& !t.notional.positive() ==> r.total_notional is None
            }
            &&& fills.len() > 1 && fills[0].price is None ==> r.actual_fee is None && r.total_size
                is None && r.total_notional is None
        }),
{
    arithmetic::lemma_zero();
}

pub fn calculate_pacifica_trade_result(trades: &Vec<FillNumbers>) -> (r: TradeFetchResult)
    requires
        trades@.len() > 0,
    ensures
        r == pacifica_result(trades@),
{
    if trades.len() == 1 {
        return one_fill(trades[0]);
    }
    let mut total_notional = Double::whole(0);
    let mut total_size = Double::whole(0);
    let mut total_fee = Double::whole(0);
    let reference_price = trades[0].price;
    if let Some(price) = reference_price {
        let mut i: usize = 0;
        while i < trades.len()
            invariant
                i <= trades@.len(),
                ({
                    let t = totals_at(price, trades@.take(i as int));
                    t.notional == total_notional && t.size == total_size && t.fee == total_fee
                }),
            decreases trades@.len() - i,
        {
            let f = trades[i];
            proof {
                assert(trades@.take(i + 1).drop_last() =~= trades@.take(i as int));
            }
            if let Some(size) = f.size {
                total_notional = total_notional.plus(&price.times(&size));
                total_size = total_size.plus(&size);
            }
            total_fee = add_fee(total_fee, f.fee);
            i = i + 1;
        }
        assert(trades@.take(i as int) =~= trades@);
    }
    TradeFetchResult {
        fill_price: reference_price,
        actual_fee: when_positive(total_fee, total_fee),
        total_size: when_positive(total_size, total_size),
        total_notional: when_positive(total_notional, total_notional),
    }
}

/// A fill as Hyperliquid lists it, its amounts read as numbers where they are such.
#[derive(Debug)]
pub struct HyperliquidFill {
    pub coin: String,
    /// In milliseconds since the Unix epoch.
    pub time: u64,
    pub px: Option<Double>,
    pub sz: Option<Double>,
    pub fee: Option<Double>,
}

impl HyperliquidFill {
    /// A fill of the coin that is less than `window_secs` seconds old at `now_ms`.
    pub open spec fn is_recent(self, coin: Seq<char>, now_ms: u64, window_secs: int) -> bool {
        &&& self.coin@ == coin
        &&& (if now_ms >= self.time {
            now_ms - self.time
        } else {
            0
        }) < 1000 * window_secs
    }

    pub open spec fn numbers(self) -> FillNumbers {
        FillNumbers { price: self.px, size: self.sz, fee: self.fee }
    }
}

/// The recent fills of the coin.
pub open spec fn recent_fills_of(
    fills: Seq<HyperliquidFill>,
    coin: Seq<char>,
    now_ms: u64,
    window_secs: int,
) -> Seq<FillNumbers>
    decreases fills.len(),
{
    if fills.len() == 0 {
        Seq::empty()
    } else {
        let before = recent_fills_of(fills.drop_last(), coin, now_ms, window_secs);
        if fills.last().is_recent(coin, now_ms, window_secs) {
            before.push(fills.last().numbers())
        } else {
            before
        }
    }
}

/// A fill is recent exactly where it is of the coin and not yet so many seconds old, a
/// time to come included; the others are left out, and the order stays.
pub proof fn law_recent_fills(
    fills: Seq<HyperliquidFill>,
    f: HyperliquidFill,
    coin: Seq<char>,
    now_ms: u64,
    window_secs: u64,
)
    requires
        window_secs > 0,
    ensures
        recent_fills_of(Seq::empty(), coin, now_ms, window_secs as int).len() == 0,
        ({
            let before = recent_fills_of(fills, coin, now_ms, window_secs as int);
            recent_fills_of(fills.push(f), coin, now_ms, window_secs as int) == if f.coin@ == coin
                && now_ms < f.time + window_secs * 1000 {
                before.push(FillNumbers { price: f.px, size: f.sz, fee: f.fee })
            } else {
                before
            }
        }),
{
    assert(fills.push(f).drop_last() =~= fills);
}

/// Picks the fills of a coin in the last `time_window_secs` seconds before `now_ms`.
pub fn recent_fills_at(
    fills: &Vec<HyperliquidFill>,
    symbol: &str,
    now_ms: u64,
    time_window_secs: u64,
) -> (r: Vec<FillNumbers>)
    requires
        time_window_secs * 1000 <= u64::MAX,
    ensures
        r@ == recent_fills_of(fills@, symbol@, now_ms, time_window_secs as int),
{
    let window_ms: u64 = time_window_secs * 1000;
    let mut r: Vec<FillNumbers> = Vec::new();
    let mut i: usize = 0;
    while i < fills.len()
        invariant
            i <= fills@.len(),
            window_ms == time_window_secs * 1000,
            r@ == recent_fills_of(
                fills@.take(i as int),
                symbol@,
                now_ms,
                time_window_secs as int,
            ),
        decreases fills@.len() - i,
    {
        let f = &fills[i];
        let age: u64 = if now_ms >= f.time {
            now_ms - f.time
        } else {
            0
        };
        proof {
            assert(fills@.take(i + 1).drop_last() =~= fills@.take(i as int));
        }
        if text::same(f.coin.as_str(), symbol) && age < window_ms {
            r.push(FillNumbers { price: f.px, size: f.sz, fee: f.fee });
        }
        i = i + 1;
    }
    assert(fills@.take(i as int) =~= fills@);
    r
}

/// Picks the fills of a coin in the last `time_window_secs` seconds.
pub fn recent_fills(fills: &Vec<HyperliquidFill>, symbol: &str, time_window_secs: u64) -> (r: Vec<
    FillNumbers,
>)
    requires
        time_window_secs * 1000 <= u64::MAX,
    ensures
        exists|now_ms: u64|
            r@ == recent_fills_of(fills@, symbol@, now_ms, time_window_secs as int),
{
    let reading: i64 = encoding::utc_millis();
    let now_ms: u64 = reading as u64;
    recent_fills_at(fills, symbol, now_ms, time_window_secs)
}

/// The fills added up, each at its own price. What is not a number is left out.
pub open spec fn totals(fills: Seq<FillNumbers>) -> Totals
    decreases fills.len(),
{
    if fills.len() == 0 {
        no_totals()
    } else {
        let before = totals(fills.drop_last());
        let f = fills.last();
        let fee = fee_added(before.fee, f.fee);
        match (f.price, f.size) {
            (Some(p), Some(s)) => Totals {
                notional: before.notional.sum(p.product(s)),
                size: before.size.sum(s),
                fee,
            },
            _ => Totals { fee, ..before },
        }
    }
}

/// A further fill of a readable price and size adds that size and its value; a readable fee
/// is added in any case.
pub proof fn law_fills_add_up(fills: Seq<FillNumbers>, f: FillNumbers)
    ensures
        ({
            let (before, after) = (totals(fills), totals(fills.push(f)));
            &&& f.price is Some && f.size is Some ==> after.notional == before.notional.sum(
                f.price->0.product(f.size->0),
            ) && after.size == before.size.sum(f.size->0)
            &&& f.price is None || f.size is None ==> after.notional == before.notional
                && after.size == before.size
            &&& f.fee matches Some(x) ==> after.fee == before.fee.sum(x)
            &&& f.fee is None ==> after.fee == before.fee
        }),
        totals(Seq::empty()).notional.amount() == 0,
        totals(Seq::empty()).size.amount() == 0,
        totals(Seq::empty()).fee.amount() == 0,
{
    arithmetic::lemma_zero();
    assert(fills.push(f).drop_last() =~= fills);
}

/// What fills on Hyperliquid come to. One fill is taken as it is; more than one are
/// added up, and their price is the average by size.
pub open spec fn hyperliquid_result(fills: Seq<FillNumbers>) -> TradeFetchResult {
    let t = totals(fills);
    if fills.len() == 1 {
        single_result(fills[0])
    } else {
        TradeFetchResult {
            fill_price: if_positive(t.notional.quotient(t.size), t.size),
            actual_fee: if_positive(t.fee, t.fee),
            total_size: if_positive(t.size, t.size),
            total_notional: if_positive(t.notional, t.notional),
        }
    }
}

/// One fill is taken as it is. Of several, the price is what they are worth over their
/// size, and what is not positive is not told.
pub proof fn law_hyperliquid_results(fills: Seq<FillNumbers>)
    ensures
        ({
            let r = hyperliquid_result(fills);
            let t = totals(fills);
            &&& fills.len() == 1 ==> r.fill_price == fills[0].price && r.actual_fee == fills[0].fee
                && r.total_size == fills[0].size
            &&& fills.len() == 1 && fills[0].price is Some && fills[0].size is Some
                ==> r.total_notional == Some(fills[0].price->0.product(fills[0].size->0))
            &&& fills.len() != 1 ==> {
                &&& t.size.positive() ==> r.fill_price == Some(t.notional.quotient(t.size))
                    && r.total_size == Some(t.size)
                &&& !t.size.positive() ==> r.fill_price is None && r.total_size is None
                &&& t.fee.positive() ==> r.actual_fee == Some(t.fee)
                &&& !t.fee.positive() ==> r.actual_fee is None
                &&& t.notional.positive() ==> r.total_notional == Some(t.notional)
                &&& !t.notional.positive() ==> r.total_notional is None
            }
        }),
{
}

pub fn calculate_hyperliquid_fill_result(fills: &Vec<FillNumbers>) -> (r: TradeFetchResult)
    ensures
        r == hyperliquid_result(fills@),
{
    if fills.len() == 1 {
        return one_fill(fills[0]);
    }
    let mut total_notional = Double::whole(0);
    let mut total_size = Double::whole(0);
    let mut total_fee = Double::whole(0);
    let mut i: usize = 0;
    while i < fills.len()
        invariant
            i <= fills@.len(),
            ({
                let t = totals(fills@.take(i as int));
                t.notional == total_notional && t.size == total_size && t.fee == total_fee
            }),
        decreases fills@.len() - i,
    {
        let f = fills[i];
        proof {
            assert(fills@.take(i + 1).drop_last() =~= fills@.take(i as int));
        }
        if let (Some(price), Some(size)) = (f.price, f.size) {
            total_notional = total_notional.plus(&price.times(&size));
            total_size = total_size.plus(&size);
        }
        total_fee = add_fee(total_fee, f.fee);
        i = i + 1;
    }
    assert(fills@.take(i as int) =~= fills@);
    TradeFetchResult {
        fill_price: when_positive(total_notional.over(&total_size), total_size),
        actual_fee: when_positive(total_fee, total_fee),
        total_size: when_positive(total_size, total_size),
        total_notional: when_positive(total_notional, total_notional),
    }
}

/// What to do after an attempt to fetch trades.
#[derive(Debug, Clone, Copy, PartialEq, Eq, Structural)]
pub enum Retry {
    /// The trades have been found.
    Done,
    /// Wait for so many seconds and try again.
    Wait(u64),
    /// That was the last attempt.
    GiveUp,
}

/// The wait between two attempts, in seconds.
pub const RETRY_DELAY_SECS: u64 = 10;

/// Whether there is an attempt with the given number, counted from 1.
pub fn may_attempt(attempt: u32, max_attempts: u32) -> (r: bool)
    ensures
        r == (attempt <= max_attempts),
{
    attempt <= max_attempts
}

/// What to do after the attempt with the given number, counted from 1.
pub fn after_attempt(found: bool, attempt: u32, max_attempts: u32) -> (r: Retry)
    ensures
        r == if found {
            Retry::Done
        } else if attempt < max_attempts {
            Retry::Wait(RETRY_DELAY_SECS)
        } else {
            Retry::GiveUp
        },
{
    if found {
        Retry::Done
    } else if attempt < max_attempts {
        Retry::Wait(RETRY_DELAY_SECS)
    } else {
        Retry::GiveUp
    }
}

} // verus!
