//! Cross-exchange market making: the trading rules, verified.
pub mod app;
pub mod audit_logger;
pub mod bot;
pub mod clock;
pub mod config;
pub mod connector;
pub mod double;
pub mod encoding;
pub mod json;
pub mod sequences;
pub mod services;
pub mod strategy;
pub mod text;
pub mod trade_fetcher;
pub mod util;

pub use config::Config;
