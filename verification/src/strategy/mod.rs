//! When to trade, and in which direction.
pub mod funding;
pub mod regime;
pub mod spread_stats;

pub use regime::{EntryProfile, RegimeController, RegimeDecision, RegimeSettings};

use crate::double::laws;
use crate::double::Double;
use vstd::arithmetic::power2::*;
use vstd::prelude::*;

verus! {

/// The middle of two prices.
pub open spec fn middle(bid: Double, ask: Double) -> Double {
    bid.sum(ask).quotient(Double::whole_number(2))
}

/// The middle of two prices.
pub fn mid_price(bid: Double, ask: Double) -> (d: Double)
    ensures
        d == middle(bid, ask),
{
    bid.plus(&ask).over(&Double::whole(2))
}

/// The middle of two prices that are not negative lies between them, and is half of their
/// sum up to rounding.
pub proof fn law_middle_lies_between(bid: Double, ask: Double)
    requires
        bid.finite(),
        ask.finite(),
        bid.non_negative(),
        bid.at_most(ask),
        bid.sum(ask).finite(),
    ensures
        middle(bid, ask).finite(),
        bid.at_most(middle(bid, ask)),
        middle(bid, ask).at_most(ask),
        laws::distance(2 * middle(bid, ask).amount(), bid.amount() + ask.amount()) * pow2(53) <= 3 * (
        bid.amount() + ask.amount()) + pow2(53),
{
    laws::law_half_sum_lies_between(bid, ask);
}

/// The side of an order.
#[derive(Debug, Clone, Copy, PartialEq, Eq, Structural)]
pub enum OrderSide {
    Buy,
    Sell,
}

impl OrderSide {
    pub fn as_str(&self) -> (s: &'static str)
        ensures
            s@ == match *self {
                OrderSide::Buy => "buy"@,
                OrderSide::Sell => "sell"@,
            },
    {
        match self {
            OrderSide::Buy => "buy",
            OrderSide::Sell => "sell",
        }
    }
}

} // verus!
