//! Backing off from, and keeping track of, the exchanges' interfaces.
pub mod api_health;
pub mod rate_limit;
