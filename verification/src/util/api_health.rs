//! The state of the Binance interface, which every component that calls it shares.
use crate::clock;
use vstd::prelude::*;

verus! {

/// Whether fills can be detected through Binance, and until when it refuses calls.
#[derive(Debug, PartialEq, Eq, Structural)]
pub struct BinanceApiHealth {
    /// Whether the user stream is alive.
    pub stream_alive: bool,
    /// Whether polling for fills works.
    pub rest_available: bool,
    /// When the present ban ends, in milliseconds since the Unix epoch; 0 without one.
    pub banned_until_ms: u64,
}

impl BinanceApiHealth {
    /// No stream yet, polling works, no ban.
    pub fn new() -> (h: BinanceApiHealth)
        ensures
            h == (BinanceApiHealth { stream_alive: false, rest_available: true, banned_until_ms: 0 }),
    {
        BinanceApiHealth { stream_alive: false, rest_available: true, banned_until_ms: 0 }
    }

    /// A ban holds at `now_ms`.
    pub open spec fn banned_at(&self, now_ms: u64) -> bool {
        self.banned_until_ms != 0 && now_ms < self.banned_until_ms
    }

    /// No ban holds at `now_ms`, and one of the two ways to detect fills works.
    pub open spec fn healthy_at(&self, now_ms: u64) -> bool {
        !self.banned_at(now_ms) && (self.stream_alive || self.rest_available)
    }

    pub fn is_banned_at(&self, now_ms: u64) -> (r: bool)
        ensures
            r == self.banned_at(now_ms),
    {
        self.banned_until_ms != 0 && now_ms < self.banned_until_ms
    }

    pub fn is_healthy_at(&self, now_ms: u64) -> (r: bool)
        ensures
            r == self.healthy_at(now_ms),
    {
        !self.is_banned_at(now_ms) && (self.stream_alive || self.rest_available)
    }

    /// At least one way to detect fills works.
    pub fn is_healthy(&self) -> (r: bool)
        ensures
            exists|now_ms: u64| r == self.healthy_at(now_ms),
            !self.stream_alive && !self.rest_available ==> !r,
            self.banned_until_ms == 0 ==> r == (self.stream_alive || self.rest_available),
    {
        let now_ms: u64 = clock::epoch_millis();
        self.is_healthy_at(now_ms)
    }

    /// Binance refuses calls at present.
    pub fn is_banned(&self) -> (r: bool)
        ensures
            exists|now_ms: u64| r == self.banned_at(now_ms),
            self.banned_until_ms == 0 ==> !r,
    {
        let now_ms: u64 = clock::epoch_millis();
        self.is_banned_at(now_ms)
    }

    /// Whether calls are to be left out at present.
    pub fn should_skip_api_call(&self) -> (r: bool)
        ensures
            exists|now_ms: u64| r == self.banned_at(now_ms),
            self.banned_until_ms == 0 ==> !r,
    {
        self.is_banned()
    }

    pub fn mark_stream_alive(&mut self, alive: bool)
        ensures
            *final(self) == (BinanceApiHealth { stream_alive: alive, ..*old(self) }),
    {
        self.stream_alive = alive;
    }

    pub fn mark_rest_available(&mut self, available: bool)
        ensures
            *final(self) == (BinanceApiHealth { rest_available: available, ..*old(self) }),
    {
        self.rest_available = available;
    }

    /// Binance refuses calls until `until_ms`, in milliseconds since the Unix epoch.
    pub fn mark_banned(&mut self, until_ms: u64)
        ensures
            *final(self) == (BinanceApiHealth { banned_until_ms: until_ms, ..*old(self) }),
    {
        self.banned_until_ms = until_ms;
    }

    /// A ban lasts until its end and no longer, whatever the state of the two channels.
    pub proof fn law_ban_ends(self, now_ms: u64)
        ensures
            self.banned_at(now_ms) ==> !self.healthy_at(now_ms),
            now_ms >= self.banned_until_ms ==> self.healthy_at(now_ms) == (self.stream_alive
                || self.rest_available),
            now_ms < self.banned_until_ms ==> self.banned_at(now_ms),
            now_ms >= self.banned_until_ms ==> !self.banned_at(now_ms),
    {
    }
}

impl Default for BinanceApiHealth {
    fn default() -> (h: BinanceApiHealth)
        ensures
            h == (BinanceApiHealth { stream_alive: false, rest_available: true, banned_until_ms: 0 }),
    {
        BinanceApiHealth::new()
    }
}

} // verus!
