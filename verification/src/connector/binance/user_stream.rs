//! The stream of an account's events on Binance futures.
use super::trading;
use crate::connector::maker::MakerOrderSide;
use crate::double::Double;
use crate::text;
use vstd::prelude::*;
use vstd::string::*;

verus! {

#[derive(Debug, Clone, Copy, PartialEq, Eq, Structural)]
pub struct BinanceUserStreamConfig {
    pub reconnect_attempts: u32,
    pub ping_interval_secs: u64,
    pub listen_key_keepalive_secs: u64,
}

impl Default for BinanceUserStreamConfig {
    fn default() -> (c: BinanceUserStreamConfig)
        ensures
            c == (BinanceUserStreamConfig {
                reconnect_attempts: 10,
                ping_interval_secs: 20,
                listen_key_keepalive_secs: 1800,
            }),
    {
        BinanceUserStreamConfig {
            reconnect_attempts: 10,
            ping_interval_secs: 20,
            listen_key_keepalive_secs: 1800,
        }
    }
}

impl BinanceUserStreamConfig {
    /// The time between two prolongations of the stream's key: the setting, but at
    /// least a minute.
    pub fn keepalive_interval_secs(&self) -> (secs: u64)
        ensures
            secs == if self.listen_key_keepalive_secs >= 60 {
                self.listen_key_keepalive_secs as int
            } else {
                60
            },
    {
        if self.listen_key_keepalive_secs >= 60 {
            self.listen_key_keepalive_secs
        } else {
            60
        }
    }
}

/// Where the stream comes from.
pub fn ws_base_url(is_testnet: bool) -> (s: &'static str)
    ensures
        s@ == if is_testnet {
            "wss://stream.binancefuture.com/ws"@
        } else {
            "wss://fstream.binance.com/ws"@
        },
{
    if is_testnet {
        "wss://stream.binancefuture.com/ws"
    } else {
        "wss://fstream.binance.com/ws"
    }
}

/// Something that happened to one of the account's orders.
#[derive(Debug, Clone)]
pub enum BinanceUserStreamEvent {
    Trade {
        symbol: String,
        side: MakerOrderSide,
        client_order_id: Option<String>,
        order_id: Option<String>,
        last_fill_qty: Double,
        cumulative_fill_qty: Double,
        fill_price: Double,
        order_status: String,
        trade_time_ms: u64,
    },
    Cancelled { symbol: String, client_order_id: Option<String>, order_id: Option<String> },
}

/// An event, its texts as sequences of characters.
#[verifier::ext_equal]
pub enum StreamEvent {
    Trade {
        symbol: Seq<char>,
        side: MakerOrderSide,
        client_order_id: Option<Seq<char>>,
        order_id: Option<Seq<char>>,
        last_fill_qty: Double,
        cumulative_fill_qty: Double,
        fill_price: Double,
        order_status: Seq<char>,
        trade_time_ms: u64,
    },
    Cancelled {
        symbol: Seq<char>,
        client_order_id: Option<Seq<char>>,
        order_id: Option<Seq<char>>,
    },
}

impl View for BinanceUserStreamEvent {
    type V = StreamEvent;

    open spec fn view(&self) -> StreamEvent {
        match self {
            BinanceUserStreamEvent::Trade {
                symbol,
                side,
                client_order_id,
                order_id,
                last_fill_qty,
                cumulative_fill_qty,
                fill_price,
                order_status,
                trade_time_ms,
            } => StreamEvent::Trade {
                symbol: symbol@,
                side: *side,
                client_order_id: text::optional_text(*client_order_id),
                order_id: text::optional_text(*order_id),
                last_fill_qty: *last_fill_qty,
                cumulative_fill_qty: *cumulative_fill_qty,
                fill_price: *fill_price,
                order_status: order_status@,
                trade_time_ms: *trade_time_ms,
            },
            BinanceUserStreamEvent::Cancelled { symbol, client_order_id, order_id } => {
                StreamEvent::Cancelled {
                    symbol: symbol@,
                    client_order_id: text::optional_text(*client_order_id),
                    order_id: text::optional_text(*order_id),
                }
            },
        }
    }
}

/// What a message says of an order, its amounts read as numbers.
#[derive(Debug)]
pub struct OrderUpdateData {
    pub symbol: String,
    pub side: String,
    pub order_status: String,
    pub execution_type: String,
    pub order_id: i64,
    pub client_order_id: String,
    pub last_fill_qty: Double,
    pub cumulative_fill_qty: Double,
    pub last_fill_price: Double,
    pub average_price: Double,
    pub trade_time: u64,
}

/// A message.
#[derive(Debug)]
pub struct StreamEnvelope {
    pub event_type: Option<String>,
    pub order: Option<OrderUpdateData>,
}

/// The key of the stream is no longer valid: it has to be opened anew.
#[derive(Debug, Clone, Copy, PartialEq, Eq, Structural)]
pub struct ListenKeyExpired;

impl OrderUpdateData {
    /// The price of the last fill, or else the average price.
    pub open spec fn fill_price(self) -> Double {
        if self.last_fill_price.positive() {
            self.last_fill_price
        } else {
            self.average_price
        }
    }

    /// The event that the update tells of: a trade if something was filled, or a
    /// cancellation.
    pub open spec fn event(self) -> Option<StreamEvent> {
        if self.execution_type@ == "TRADE"@ {
            if self.last_fill_qty.at_most(Double::whole_number(0)) {
                None
            } else {
                Some(
                    StreamEvent::Trade {
                        symbol: self.symbol@,
                        side: trading::side_of(self.side@),
                        client_order_id: Some(self.client_order_id@),
                        order_id: Some(text::signed_numeral(self.order_id as int)),
                        last_fill_qty: self.last_fill_qty,
                        cumulative_fill_qty: self.cumulative_fill_qty,
                        fill_price: self.fill_price(),
                        order_status: self.order_status@,
                        trade_time_ms: self.trade_time,
                    },
                )
            }
        } else if self.order_status@ == "CANCELED"@ || self.execution_type@ == "CANCELED"@ {
            Some(
                StreamEvent::Cancelled {
                    symbol: self.symbol@,
                    client_order_id: Some(self.client_order_id@),
                    order_id: Some(text::signed_numeral(self.order_id as int)),
                },
            )
        } else {
            None
        }
    }
}

/// An update tells of a trade exactly where it says so and something was filled: on the
/// side that its word names, in letters of either case, with the amounts, the ids, the
/// status and the time that it gives, at the price of the last fill or, where that has
/// none, at the average one. It tells of a cancellation exactly where it is no trade and
/// either of its two words says so.
pub proof fn law_updates(o: OrderUpdateData)
    requires
        !o.last_fill_qty.nan(),
    ensures
        match o.event() {
            Some(
                StreamEvent::Trade {
                    symbol,
                    side,
                    client_order_id,
                    order_id,
                    last_fill_qty,
                    cumulative_fill_qty,
                    fill_price,
                    order_status,
                    trade_time_ms,
                },
            ) => {
                &&& o.execution_type@ == "TRADE"@ && o.last_fill_qty.positive()
                &&& symbol == o.symbol@ && order_status == o.order_status@
                &&& side == MakerOrderSide::Buy <==> text::same_letters(o.side@, "BUY"@)
                &&& client_order_id == Some(o.client_order_id@)
                &&& order_id == Some(text::signed_numeral(o.order_id as int))
                &&& last_fill_qty == o.last_fill_qty
                &&& cumulative_fill_qty == o.cumulative_fill_qty
                &&& o.last_fill_price.positive() ==> fill_price == o.last_fill_price
                &&& !o.last_fill_price.positive() ==> fill_price == o.average_price
                &&& trade_time_ms == o.trade_time
            },
            Some(StreamEvent::Cancelled { symbol, client_order_id, order_id }) => {
                &&& o.execution_type@ != "TRADE"@
                &&& o.order_status@ == "CANCELED"@ || o.execution_type@ == "CANCELED"@
                &&& symbol == o.symbol@ && client_order_id == Some(o.client_order_id@)
                &&& order_id == Some(text::signed_numeral(o.order_id as int))
            },
            None => {
                &&& o.execution_type@ == "TRADE"@ ==> !o.last_fill_qty.positive()
                &&& o.execution_type@ != "TRADE"@ ==> o.order_status@ != "CANCELED"@
                    && o.execution_type@ != "CANCELED"@
            },
        },
{
    crate::double::arithmetic::lemma_zero();
}

/// What a message means: an event, nothing, or that the stream has to be opened anew.
pub fn handle_message(message: StreamEnvelope) -> (r: Result<
    Option<BinanceUserStreamEvent>,
    ListenKeyExpired,
>)
    ensures
        ({
            let expired = message.event_type is Some && message.event_type->0@
                == "listenKeyExpired"@;
            &&& r is Err <==> expired
            &&& r matches Ok(e) ==> ({
                let told = match message.order {
                    Some(order) => order.event(),
                    None => None,
                };
                match e {
                    Some(event) => told == Some(event@),
                    None => told is None,
                }
            })
        }),
{
    if let Some(event_type) = &message.event_type {
        if text::same(event_type.as_str(), "listenKeyExpired") {
            return Err(ListenKeyExpired);
        }
    }
    let order = match message.order {
        Some(v) => v,
        None => {
            return Ok(None);
        },
    };
    if text::same(order.execution_type.as_str(), "TRADE") {
        let fill_price = if order.last_fill_price.is_positive() {
            order.last_fill_price
        } else {
            order.average_price
        };
        if order.last_fill_qty.le(&Double::whole(0)) {
            return Ok(None);
        }
        let side = trading::read_side(order.side.as_str());
        Ok(
            Some(
                BinanceUserStreamEvent::Trade {
                    symbol: order.symbol,
                    side,
                    client_order_id: Some(order.client_order_id),
                    order_id: Some(text::signed_number(order.order_id)),
                    last_fill_qty: order.last_fill_qty,
                    cumulative_fill_qty: order.cumulative_fill_qty,
                    fill_price,
                    order_status: order.order_status,
                    trade_time_ms: order.trade_time,
                },
            ),
        )
    } else if text::same(order.order_status.as_str(), "CANCELED") || text::same(
        order.execution_type.as_str(),
        "CANCELED",
    ) {
        Ok(
            Some(
                BinanceUserStreamEvent::Cancelled {
                    symbol: order.symbol,
                    client_order_id: Some(order.client_order_id),
                    order_id: Some(text::signed_number(order.order_id)),
                },
            ),
        )
    } else {
        Ok(None)
    }
}

/// The wait before the stream is opened again after its `n`-th failure in a row, in
/// seconds: 1, 2, 4 and so on up to 30.
pub open spec fn reconnect_delay(n: nat) -> nat {
    if n >= 6 {
        30
    } else {
        vstd::arithmetic::power2::pow2((n - 1) as nat)
    }
}

/// The first failure asks for a second, each further one for twice as long, up to 30.
pub proof fn law_reconnect_delays()
    ensures
        reconnect_delay(1) == 1,
        reconnect_delay(2) == 2,
        reconnect_delay(3) == 4,
        reconnect_delay(4) == 8,
        reconnect_delay(5) == 16,
        forall|n: nat| n >= 6 ==> #[trigger] reconnect_delay(n) == 30,
{
    vstd::arithmetic::power2::lemma2_to64();
}

/// Counts the failures of the stream.
#[derive(Debug, Clone, Copy, PartialEq, Eq, Structural)]
pub struct Reconnector {
    pub failures: u32,
    pub attempts: u32,
}

impl Reconnector {
    pub fn new(attempts: u32) -> (r: Reconnector)
        ensures
            r == (Reconnector { failures: 0, attempts }),
    {
        Reconnector { failures: 0, attempts }
    }

    /// Counts one more failure: the seconds to wait before the next attempt, or none
    /// where there are no attempts left.
    pub fn failed(&mut self) -> (r: Option<u64>)
        requires
            old(self).failures < u32::MAX,
        ensures
            final(self).attempts == old(self).attempts,
            final(self).failures == old(self).failures + 1,
            r is None <==> final(self).failures >= old(self).attempts,
            r matches Some(secs) ==> secs == reconnect_delay(final(self).failures as nat),
    {
        self.failures = self.failures + 1;
        if self.failures >= self.attempts {
            return None;
        }
        proof {
            vstd::arithmetic::power2::lemma2_to64();
        }
        let secs: u64 = match self.failures {
            1 => 1,
            2 => 2,
            3 => 4,
            4 => 8,
            5 => 16,
            _ => 30,
        };
        Some(secs)
    }
}

/// The path at which a stream's key is asked for.
pub fn listen_key_url(rest_url: &str) -> (s: String)
    ensures
        s@ == rest_url@ + "/fapi/v1/listenKey"@,
{
    let mut s = rest_url.to_owned();
    s.append("/fapi/v1/listenKey");
    s
}

/// The address at which a stream's key is prolonged and given back.
pub fn listen_key_url_for(rest_url: &str, listen_key: &str) -> (s: String)
    ensures
        s@ == rest_url@ + "/fapi/v1/listenKey"@ + "?listenKey="@ + listen_key@,
{
    let mut s = listen_key_url(rest_url);
    s.append("?listenKey=");
    s.append(listen_key);
    s
}

/// The address of the stream.
pub fn stream_url(ws_base_url: &str, listen_key: &str) -> (s: String)
    ensures
        s@ == ws_base_url@ + "/"@ + listen_key@,
{
    let mut s = ws_base_url.to_owned();
    s.append("/");
    s.append(listen_key);
    s
}

} // verus!
