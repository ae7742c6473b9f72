//! Hyperliquid.
pub mod trading;
pub mod types;

pub use trading::HyperliquidCredentials;
