//! Binance futures.
pub mod trading;
pub mod user_stream;

pub use trading::BinanceCredentials;
pub use user_stream::{BinanceUserStreamConfig, BinanceUserStreamEvent};
