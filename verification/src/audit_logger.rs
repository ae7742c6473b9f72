//! Records of orders and fills, and the files that they go to.
use crate::clock::UtcTime;
use crate::double::Double;
use crate::strategy::OrderSide;
use crate::text;
use vstd::prelude::*;
use vstd::string::*;

verus! {

/// An order that was placed.
#[derive(Debug)]
pub struct OrderRecord {
    pub timestamp: String,
    pub symbol: String,
    pub maker_exchange: String,
    pub side: String,
    pub size: Double,
    pub price: Double,
    pub notional_usd: Double,
    pub order_id: Option<String>,
    pub client_order_id: Option<String>,
    pub source: String,
}

pub open spec fn side_word(side: OrderSide) -> Seq<char> {
    match side {
        OrderSide::Buy => "BUY"@,
        OrderSide::Sell => "SELL"@,
    }
}

fn side_name(side: OrderSide) -> (s: String)
    ensures
        s@ == side_word(side),
{
    match side {
        OrderSide::Buy => "BUY".to_owned(),
        OrderSide::Sell => "SELL".to_owned(),
    }
}

impl OrderRecord {
    pub fn new(
        timestamp: &UtcTime,
        symbol: String,
        maker_exchange: String,
        side: OrderSide,
        size: Double,
        price: Double,
        order_id: Option<String>,
        client_order_id: Option<String>,
        source: String,
    ) -> (r: OrderRecord)
        ensures
            r.timestamp@ == timestamp.iso@,
            r.symbol == symbol,
            r.maker_exchange == maker_exchange,
            r.side@ == side_word(side),
            r.size == size,
            r.price == price,
            r.notional_usd == size.product(price),
            r.order_id == order_id,
            r.client_order_id == client_order_id,
            r.source == source,
    {
        OrderRecord {
            timestamp: timestamp.iso.clone(),
            symbol,
            maker_exchange,
            side: side_name(side),
            size,
            price,
            notional_usd: size.times(&price),
            order_id,
            client_order_id,
            source,
        }
    }
}

/// A fill that was detected.
#[derive(Debug)]
pub struct FillRecord {
    pub timestamp: String,
    pub symbol: String,
    pub maker_exchange: String,
    pub side: String,
    pub fill_size: Double,
    pub fill_price: Double,
    pub fill_notional_usd: Double,
    pub is_full_fill: bool,
    pub client_order_id: Option<String>,
    pub exchange_order_id: Option<String>,
    pub source: String,
}

impl FillRecord {
    pub fn new(
        timestamp: &UtcTime,
        symbol: String,
        maker_exchange: String,
        side: OrderSide,
        fill_size: Double,
        fill_price: Double,
        is_full_fill: bool,
        client_order_id: Option<String>,
        exchange_order_id: Option<String>,
        source: String,
    ) -> (r: FillRecord)
        ensures
            r.timestamp@ == timestamp.iso@,
            r.symbol == symbol,
            r.maker_exchange == maker_exchange,
            r.side@ == side_word(side),
            r.fill_size == fill_size,
            r.fill_price == fill_price,
            r.fill_notional_usd == fill_size.product(fill_price),
            r.is_full_fill == is_full_fill,
            r.client_order_id == client_order_id,
            r.exchange_order_id == exchange_order_id,
            r.source == source,
    {
        FillRecord {
            timestamp: timestamp.iso.clone(),
            symbol,
            maker_exchange,
            side: side_name(side),
            fill_size,
            fill_price,
            fill_notional_usd: fill_size.times(&fill_price),
            is_full_fill,
            client_order_id,
            exchange_order_id,
            source,
        }
    }
}

pub open spec fn is_alphanumeric(c: char) -> bool {
    text::is_digit(c) || ('a' <= c && c <= 'z') || ('A' <= c && c <= 'Z')
}

/// A symbol as part of a file name: trimmed, in lower case, and `_` for whatever is
/// neither an ASCII letter nor a digit.
pub open spec fn sanitized(symbol: Seq<char>) -> Seq<char> {
    let s = text::lower(text::trimmed(symbol));
    Seq::new(
        s.len(),
        |i: int|
            if is_alphanumeric(s[i]) {
                s[i]
            } else {
                '_'
            },
    )
}

/// A symbol as part of a file name.
pub fn sanitize_symbol(symbol: &str) -> (r: String)
    ensures
        r@ == sanitized(symbol@),
{
    let trimmed = text::trim(symbol);
    let lowered = text::to_ascii_lowercase(trimmed.as_str());
    let v = text::characters(lowered.as_str());
    let mut r = String::new();
    let mut i: usize = 0;
    while i < v.len()
        invariant
            i <= v@.len(),
            v@ == text::lower(text::trimmed(symbol@)),
            r@ == sanitized(symbol@).take(i as int),
        decreases v@.len() - i,
    {
        let c = v[i];
        let plain = ('0' <= c && c <= '9') || ('a' <= c && c <= 'z') || ('A' <= c && c <= 'Z');
        r.push(
            if plain {
                c
            } else {
                '_'
            },
        );
        i = i + 1;
        assert(r@ =~= sanitized(symbol@).take(i as int));
    }
    assert(sanitized(symbol@).take(i as int) =~= sanitized(symbol@));
    r
}

/// The file for the orders of a symbol.
pub fn order_file_for_symbol(symbol: &str) -> (s: String)
    ensures
        s@ == sanitized(symbol@) + "_orders.csv"@,
{
    sanitize_symbol(symbol).concat("_orders.csv")
}

/// The file for the fills of a symbol.
pub fn fill_file_for_symbol(symbol: &str) -> (s: String)
    ensures
        s@ == sanitized(symbol@) + "_fills.csv"@,
{
    sanitize_symbol(symbol).concat("_fills.csv")
}

/// Each character of the trimmed symbol stands in the file name in its place: a digit or
/// a small letter as it is, a capital letter as the small one, and whatever else as `_`.
pub proof fn law_file_names_follow_the_symbol(symbol: Seq<char>, i: int)
    requires
        0 <= i < text::trimmed(symbol).len(),
    ensures
        sanitized(symbol).len() == text::trimmed(symbol).len(),
        ({
            let (c, r) = (text::trimmed(symbol)[i], sanitized(symbol)[i]);
            &&& ('0' <= c && c <= '9') || ('a' <= c && c <= 'z') ==> r == c
            &&& 'A' <= c && c <= 'Z' ==> 'a' <= r && r <= 'z' && text::upper_letter(r) == c
            &&& !('0' <= c && c <= '9') && !('a' <= c && c <= 'z') && !('A' <= c && c <= 'Z')
                ==> r == '_'
        }),
{
    text::law_letters(text::trimmed(symbol)[i]);
}

/// A symbol in a file name has only small letters, digits and `_`.
pub proof fn law_file_names_are_plain(symbol: Seq<char>)
    ensures
        forall|i: int|
            0 <= i < sanitized(symbol).len() ==> {
                let c = #[trigger] sanitized(symbol)[i];
                text::is_digit(c) || ('a' <= c && c <= 'z') || c == '_'
            },
{
}

} // verus!
