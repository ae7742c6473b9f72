//! What the exchanges take and give.
pub mod binance;
pub mod hyperliquid;
pub mod maker;
