//! The bot's state and the decisions of its main loop.
pub mod state;

pub use state::{ActiveOrder, BotState, BotStatus, NormalModePosition, PendingOrder};
