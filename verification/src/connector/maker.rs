//! The exchange on which the bot rests its orders.
use crate::double::arithmetic;
use crate::double::laws;
use crate::double::Double;
use crate::strategy::OrderSide;
use crate::text;
use vstd::arithmetic::power2::*;
use vstd::prelude::*;
use vstd::string::*;

verus! {

/// The exchange on which maker orders are placed.
#[derive(Debug, Clone, Copy, PartialEq, Eq, Structural)]
pub enum MakerExchangeKind {
    Pacifica,
    Binance,
}

impl MakerExchangeKind {
    pub open spec fn title(self) -> Seq<char> {
        match self {
            MakerExchangeKind::Pacifica => "Pacifica"@,
            MakerExchangeKind::Binance => "Binance"@,
        }
    }

    pub fn name(&self) -> (s: &'static str)
        ensures
            s@ == self.title(),
    {
        match self {
            MakerExchangeKind::Pacifica => "Pacifica",
            MakerExchangeKind::Binance => "Binance",
        }
    }
}

/// The side of an order on the maker exchange.
#[derive(Debug, Clone, Copy, PartialEq, Eq, Structural)]
pub enum MakerOrderSide {
    Buy,
    Sell,
}

impl MakerOrderSide {
    pub open spec fn of(side: OrderSide) -> MakerOrderSide {
        match side {
            OrderSide::Buy => MakerOrderSide::Buy,
            OrderSide::Sell => MakerOrderSide::Sell,
        }
    }

    pub fn from_strategy_side(side: OrderSide) -> (r: MakerOrderSide)
        ensures
            r == MakerOrderSide::of(side),
    {
        match side {
            OrderSide::Buy => MakerOrderSide::Buy,
            OrderSide::Sell => MakerOrderSide::Sell,
        }
    }

    pub fn as_str(&self) -> (s: &'static str)
        ensures
            s@ == match *self {
                MakerOrderSide::Buy => "buy"@,
                MakerOrderSide::Sell => "sell"@,
            },
    {
        match self {
            MakerOrderSide::Buy => "buy",
            MakerOrderSide::Sell => "sell",
        }
    }

    /// What Pacifica's words for a side mean: "bid" and "buy" are a buy, anything
    /// else is a sell.
    pub open spec fn pacifica_side(word: Seq<char>) -> MakerOrderSide {
        if word == "bid"@ || word == "buy"@ {
            MakerOrderSide::Buy
        } else {
            MakerOrderSide::Sell
        }
    }

    pub fn from_pacifica(word: &str) -> (r: MakerOrderSide)
        ensures
            r == MakerOrderSide::pacifica_side(word@),
    {
        if text::same(word, "bid") || text::same(word, "buy") {
            MakerOrderSide::Buy
        } else {
            MakerOrderSide::Sell
        }
    }
}

/// The steps in which an exchange counts the prices and sizes of a symbol.
#[derive(Debug, Clone, Copy, PartialEq, Eq, Structural)]
pub struct MakerSymbolInfo {
    pub tick_size: Double,
    pub lot_size: Double,
}

/// What an exchange says of an order that it has accepted.
#[derive(Debug, Clone)]
pub struct MakerOrderData {
    pub order_id: Option<String>,
    pub client_order_id: Option<String>,
    pub symbol: Option<String>,
}

impl MakerOrderData {
    /// The id under which the bot tracks the order: its own, or else the exchange's.
    pub open spec fn tracking_id(self) -> Option<Seq<char>> {
        match text::optional_text(self.client_order_id) {
            Some(id) => Some(id),
            None => text::optional_text(self.order_id),
        }
    }

    pub fn id(&self) -> (r: Option<String>)
        ensures
            text::optional_text(r) == self.tracking_id(),
    {
        match &self.client_order_id {
            Some(id) => Some(id.clone()),
            None => text::copy_optional(&self.order_id),
        }
    }
}

/// An order that rests on the exchange.
#[derive(Debug, Clone)]
pub struct MakerOpenOrder {
    pub order_id: Option<String>,
    pub client_order_id: String,
    pub symbol: String,
    pub side: MakerOrderSide,
    pub price: Double,
    pub initial_amount: Double,
    pub filled_amount: Double,
}

/// A position on the exchange.
#[derive(Debug, Clone)]
pub struct MakerPosition {
    pub symbol: String,
    pub side: MakerOrderSide,
    pub amount: Double,
}

#[verifier::ext_equal]
pub struct Position {
    pub symbol: Seq<char>,
    pub side: MakerOrderSide,
    pub amount: Double,
}

impl View for MakerPosition {
    type V = Position;

    open spec fn view(&self) -> Position {
        Position { symbol: self.symbol@, side: self.side, amount: self.amount }
    }
}

impl Position {
    /// The amount, negative when short.
    pub open spec fn signed(self) -> Double {
        match self.side {
            MakerOrderSide::Buy => self.amount,
            MakerOrderSide::Sell => self.amount.opposite(),
        }
    }
}

/// The positions added up in their order.
pub open spec fn total_signed(positions: Seq<Position>) -> Double
    decreases positions.len(),
{
    if positions.len() == 0 {
        Double::whole_number(0)
    } else {
        total_signed(positions.drop_last()).sum(positions.last().signed())
    }
}

/// A long position counts as its amount, a short one as the opposite of it, and each adds
/// what it counts to the others, up to rounding. Without positions there is nothing.
pub proof fn law_positions_add_up(positions: Seq<Position>, p: Position)
    ensures
        total_signed(Seq::empty()).amount() == 0,
        p.side == MakerOrderSide::Buy ==> p.signed().amount() == p.amount.amount(),
        p.side == MakerOrderSide::Sell ==> p.signed().amount() == -p.amount.amount(),
        total_signed(positions).finite() && p.amount.finite() ==> {
            let all = total_signed(positions.push(p));
            let exact = total_signed(positions).amount() + if p.side == MakerOrderSide::Buy {
                p.amount.amount()
            } else {
                -p.amount.amount()
            };
            &&& !all.nan()
            &&& all.amount() > 0 <==> exact > 0
            &&& all.amount() < 0 <==> exact < 0
            &&& all.finite() ==> laws::distance(all.amount(), exact) * pow2(53) <= laws::distance(
                exact,
                0,
            )
        },
{
    arithmetic::lemma_zero();
    assert(positions.push(p).drop_last() =~= positions);
    if total_signed(positions).finite() && p.amount.finite() {
        laws::law_sum_is_near(total_signed(positions), p.signed());
    }
}

/// An order keeps its side from one exchange's words to the other's.
pub proof fn law_sides_are_kept(side: OrderSide)
    ensures
        side == OrderSide::Buy <==> MakerOrderSide::of(side) == MakerOrderSide::Buy,
        MakerOrderSide::pacifica_side("bid"@) == MakerOrderSide::Buy,
        MakerOrderSide::pacifica_side("buy"@) == MakerOrderSide::Buy,
        MakerOrderSide::pacifica_side("ask"@) == MakerOrderSide::Sell,
        MakerOrderSide::pacifica_side("sell"@) == MakerOrderSide::Sell,
{
    reveal_strlit("bid");
    reveal_strlit("buy");
    reveal_strlit("ask");
    reveal_strlit("sell");
    assert("ask"@[0] != "bid"@[0] && "ask"@[0] != "buy"@[0]);
    assert("sell"@.len() != "bid"@.len() && "sell"@.len() != "buy"@.len());
}

pub open spec fn position_views(v: Seq<MakerPosition>) -> Seq<Position> {
    Seq::new(v.len(), |i: int| v[i]@)
}

impl MakerPosition {
    /// The amount, negative when short.
    pub fn signed_amount(&self) -> (d: Double)
        ensures
            d == self@.signed(),
    {
        match self.side {
            MakerOrderSide::Buy => self.amount,
            MakerOrderSide::Sell => self.amount.negated(),
        }
    }
}

/// The positions added up in their order.
pub fn total_signed_amount(positions: &Vec<MakerPosition>) -> (d: Double)
    ensures
        d == total_signed(position_views(positions@)),
{
    let mut d = Double::whole(0);
    let mut i: usize = 0;
    while i < positions.len()
        invariant
            i <= positions@.len(),
            d == total_signed(position_views(positions@).take(i as int)),
        decreases positions@.len() - i,
    {
        proof {
            let next = position_views(positions@).take(i + 1);
            assert(next.drop_last() =~= position_views(positions@).take(i as int));
        }
        d = d.plus(&positions[i].signed_amount());
        i = i + 1;
    }
    assert(position_views(positions@).take(i as int) =~= position_views(positions@));
    d
}

/// A fill out of the trade history.
#[derive(Debug, Clone)]
pub struct MakerTradeHistoryItem {
    pub order_id: Option<String>,
    pub client_order_id: Option<String>,
    pub symbol: String,
    pub amount: Double,
    pub entry_price: Double,
    pub fee: Double,
    pub is_maker_fill: bool,
    pub created_at_ms: u64,
}

/// A position as Pacifica lists it, its amount read as a number.
#[derive(Debug)]
pub struct PacificaPositionRow {
    pub symbol: String,
    pub side: String,
    pub amount: Double,
}

impl PacificaPositionRow {
    pub open spec fn position(self) -> Position {
        Position {
            symbol: self.symbol@,
            side: MakerOrderSide::pacifica_side(self.side@),
            amount: self.amount,
        }
    }

    /// For the symbol, or for any if none is given, and not empty.
    pub open spec fn counts(self, symbol: Option<Seq<char>>) -> bool {
        (symbol is None || symbol == Some(self.symbol@)) && self.amount.positive()
    }
}

/// The positions in the rows that count.
pub open spec fn listed_positions(rows: Seq<PacificaPositionRow>, symbol: Option<Seq<char>>) -> Seq<
    Position,
>
    decreases rows.len(),
{
    if rows.len() == 0 {
        Seq::empty()
    } else {
        let before = listed_positions(rows.drop_last(), symbol);
        if rows.last().counts(symbol) {
            before.push(rows.last().position())
        } else {
            before
        }
    }
}

/// What is listed is positive, and of the symbol where one is given; a row that counts adds
/// its amount on the side that it names, and one that does not adds nothing.
pub proof fn law_listed_positions(
    rows: Seq<PacificaPositionRow>,
    row: PacificaPositionRow,
    symbol: Option<Seq<char>>,
)
    ensures
        ({
            let (before, after) = (
                listed_positions(rows, symbol),
                listed_positions(rows.push(row), symbol),
            );
            if (symbol is None || symbol->0 == row.symbol@) && row.amount.positive() {
                &&& after.len() == before.len() + 1
                &&& after.drop_last() == before
                &&& after.last().amount == row.amount
                &&& after.last().symbol == row.symbol@
                &&& after.last().side == MakerOrderSide::Buy <==> row.side@ == "bid"@ || row.side@
                    == "buy"@
            } else {
                after == before
            }
        }),
        listed_positions(Seq::empty(), symbol).len() == 0,
{
    assert(rows.push(row).drop_last() =~= rows);
    let before = listed_positions(rows, symbol);
    assert(before.push(row.position()).drop_last() =~= before);
}

/// The positions that Pacifica lists, those for one symbol if it is given.
pub fn pacifica_positions(rows: &Vec<PacificaPositionRow>, symbol: Option<&str>) -> (r: Vec<
    MakerPosition,
>)
    ensures
        position_views(r@) == listed_positions(rows@, text::optional_str(symbol)),
{
    let mut r: Vec<MakerPosition> = Vec::new();
    let mut i: usize = 0;
    assert(position_views(r@) =~= Seq::empty());
    while i < rows.len()
        invariant
            i <= rows@.len(),
            position_views(r@) == listed_positions(
                rows@.take(i as int),
                text::optional_str(symbol),
            ),
        decreases rows@.len() - i,
    {
        let ghost so_far = r@;
        let wanted = match symbol {
            Some(s) => text::same(rows[i].symbol.as_str(), s),
            None => true,
        };
        if wanted && rows[i].amount.is_positive() {
            r.push(
                MakerPosition {
                    symbol: rows[i].symbol.clone(),
                    side: MakerOrderSide::from_pacifica(rows[i].side.as_str()),
                    amount: rows[i].amount,
                },
            );
            assert(position_views(r@) =~= position_views(so_far).push(rows@[i as int].position()));
        }
        proof {
            assert(rows@.take(i + 1).drop_last() =~= rows@.take(i as int));
        }
        i = i + 1;
    }
    assert(rows@.take(i as int) =~= rows@);
    r
}

/// Whether Pacifica's word for a trade tells of a maker fill.
pub fn is_pacifica_maker_fill(event_type: &str) -> (r: bool)
    ensures
        r == (event_type@ == "fulfill_maker"@),
{
    text::same(event_type, "fulfill_maker")
}

} // verus!
