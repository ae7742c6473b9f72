//! The services around the main loop: each decides what to do, and leaves it to
//! its caller to do it.
pub mod binance_fill_detection;
pub mod fill_detection;
pub mod ledger;
pub mod order_monitor;
pub mod rest_fill_detection;
pub mod spread_recorder;

use crate::audit_logger;
use crate::audit_logger::FillRecord;
use crate::clock::{Moment, UtcTime};
use crate::double::Double;
use crate::strategy::OrderSide;
use crate::text;
use vstd::prelude::*;
use vstd::string::*;

verus! {

/// A fill to be hedged: side, size, average price, and when it was detected.
pub type HedgeEvent = (OrderSide, Double, Double, Moment);

/// A fill that has been detected and not been hedged before.
#[derive(Debug)]
pub struct DetectedFill {
    pub side: OrderSide,
    pub size: Double,
    pub price: Double,
    pub exchange_order_id: Option<String>,
    pub client_order_id: Option<String>,
    pub is_full_fill: bool,
    /// Which way of detection found it.
    pub source: String,
}

/// A detected fill, its texts as sequences of characters.
#[verifier::ext_equal]
pub struct Fill {
    pub side: OrderSide,
    pub size: Double,
    pub price: Double,
    pub exchange_order_id: Option<Seq<char>>,
    pub client_order_id: Option<Seq<char>>,
    pub is_full_fill: bool,
    pub source: Seq<char>,
}

impl View for DetectedFill {
    type V = Fill;

    open spec fn view(&self) -> Fill {
        Fill {
            side: self.side,
            size: self.size,
            price: self.price,
            exchange_order_id: text::optional_text(self.exchange_order_id),
            client_order_id: text::optional_text(self.client_order_id),
            is_full_fill: self.is_full_fill,
            source: self.source@,
        }
    }
}

impl DetectedFill {
    /// What is handed to who hedges.
    pub fn hedge_event(&self, detected_at: Moment) -> (e: HedgeEvent)
        ensures
            e == (self.side, self.size, self.price, detected_at),
    {
        (self.side, self.size, self.price, detected_at)
    }

    /// The record of the fill of a symbol's order, detected at the given time.
    pub fn record(&self, detected_at: &UtcTime, symbol: &str, maker_exchange: &str) -> (r: FillRecord)
        ensures
            r.timestamp@ == detected_at.iso@,
            r.symbol@ == symbol@,
            r.maker_exchange@ == maker_exchange@,
            r.side@ == audit_logger::side_word(self.side),
            r.fill_size == self.size,
            r.fill_price == self.price,
            r.fill_notional_usd == self.size.product(self.price),
            r.is_full_fill == self.is_full_fill,
            text::optional_text(r.client_order_id) == self@.client_order_id,
            text::optional_text(r.exchange_order_id) == self@.exchange_order_id,
            r.source@ == self.source@,
    {
        FillRecord::new(
            detected_at,
            symbol.to_owned(),
            maker_exchange.to_owned(),
            self.side,
            self.size,
            self.price,
            self.is_full_fill,
            text::copy_optional(&self.client_order_id),
            text::copy_optional(&self.exchange_order_id),
            self.source.clone(),
        )
    }
}

} // verus!
