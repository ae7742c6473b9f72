//! The settings of the bot, and the ranges in which they are accepted.
use crate::connector::maker::MakerExchangeKind;
use crate::double;
use crate::double::arithmetic;
use crate::double::Double;
use crate::text;
use vstd::prelude::*;
use vstd::string::*;

verus! {

/// Which profiles the bot trades.
#[derive(Debug, Clone, Copy, PartialEq, Eq, Structural)]
pub enum StrategyMode {
    /// Only the normal profile.
    Normal,
    /// Only the event profile, once an event has been triggered.
    EventOnly,
    /// The normal profile, and the event profile during events.
    Dual,
}

/// The settings of one profile.
#[derive(Debug, Clone, Copy, PartialEq, Eq, Structural)]
pub struct ModeTradingConfig {
    /// Target profit rate in basis points (e.g., 10.0 = 0.1%)
    pub profit_rate_bps: Double,
    /// Order notional size in USD
    pub order_notional_usd: Double,
    /// Profit cancel threshold in basis points
    pub profit_cancel_threshold_bps: Double,
    /// Order refresh interval in seconds
    pub order_refresh_interval_secs: u64,
    /// Z-score threshold for entry (open position when spread spikes).
    pub entry_z_score: Double,
    /// Rolling spread window in seconds for Z-score calculation.
    pub spread_window_secs: u64,
    /// Max accumulated position in base units.
    pub max_position_units: Double,
    /// Stop-loss: close if spread moves against entry by this many bps.
    pub max_loss_bps: Double,
    /// Max holding time in hours before forced close.
    pub max_hold_hours: u64,
    /// Close position when spread narrows below this (low-cost exit window).
    pub close_spread_bps: Double,
    /// Funding rate poll interval in seconds.
    pub funding_poll_interval_secs: u64,
    /// Number of consecutive adverse carry observations before closing.
    pub funding_adverse_consecutive: u64,
    /// Threshold bps below which carry is considered adverse.
    pub funding_adverse_threshold_bps: Double,
    /// Timeout for maker limit close order before fallback to taker.
    pub close_limit_timeout_secs: u64,
}

/// The settings of the bot.
#[derive(Debug, Clone)]
pub struct Config {
    /// Maker exchange backend ("pacifica" or "binance")
    pub maker_exchange: String,
    /// Trading symbol (e.g., "SOL", "BTC", "ETH")
    /// Used as fallback when maker_symbol/hedge_symbol are not provided.
    pub symbol: String,
    /// Maker exchange symbol (e.g., "CLUSDT" on Binance futures)
    pub maker_symbol: Option<String>,
    /// Hedge exchange symbol (e.g., "xyz:CL" on Hyperliquid)
    pub hedge_symbol: Option<String>,
    /// Orderbook aggregation level (1, 2, 5, 10, 100, 1000)
    pub agg_level: u32,
    /// Maximum number of reconnection attempts
    pub reconnect_attempts: u32,
    /// Ping interval in seconds (keep below 60 to avoid timeout)
    pub ping_interval_secs: u64,
    /// Low-latency mode: minimal logging and processing
    pub low_latency_mode: bool,
    /// Pacifica maker fee in basis points (e.g., 1.0 = 0.01%)
    pub pacifica_maker_fee_bps: Double,
    /// Hyperliquid taker fee in basis points (e.g., 2.5 = 0.025%)
    pub hyperliquid_taker_fee_bps: Double,
    /// Strategy mode:
    /// - normal: only run normal profile
    /// - event_only: only trade event profile after event trigger
    /// - dual: normal + event switching
    pub strategy_mode: StrategyMode,
    /// Target profit rate in basis points (e.g., 10.0 = 0.1%)
    /// Used for normal_mode when that is missing.
    pub profit_rate_bps: Double,
    /// Order notional size in USD (e.g., 20.0 = $20)
    /// Used for normal_mode when that is missing.
    pub order_notional_usd: Double,
    /// Profit cancel threshold in basis points (cancel if profit drops by this much)
    /// Used for normal_mode when that is missing.
    pub profit_cancel_threshold_bps: Double,
    /// Order refresh interval in seconds (cancel and replace if order is this old)
    /// Used for normal_mode when that is missing.
    pub order_refresh_interval_secs: u64,
    /// Optional normal profile override. If omitted, the fields above are used.
    pub normal_mode: Option<ModeTradingConfig>,
    /// Optional event profile override. If omitted, derived from the fields above.
    pub event_mode: Option<ModeTradingConfig>,
    /// Event trigger threshold for |mid spread| in bps.
    pub event_trigger_mid_spread_bps: Double,
    /// Event trigger threshold for Hyperliquid bid-ask spread width in bps.
    pub event_trigger_hl_spread_bps: Double,
    /// Event trigger confirmation duration in seconds.
    pub event_trigger_confirm_secs: u64,
    /// Cooldown before re-arming event mode.
    pub event_rearm_cooldown_secs: u64,
    /// Whether to keep running after each hedge cycle.
    pub continuous_mode: bool,
    /// Main opportunity loop interval in milliseconds.
    /// Larger values reduce API pressure and order trigger frequency.
    pub evaluation_loop_interval_ms: u64,
    /// Generic cooldown after order placement failure (ms).
    pub order_failure_cooldown_ms: u64,
    /// Cooldown after Binance post-only reject (-5022) (ms).
    pub post_only_reject_cooldown_ms: u64,
    /// Enable event-mode exit/rebalance:
    /// 1) arm when |mid spread| >= entry threshold
    /// 2) flatten both exchanges when |mid spread| <= exit threshold for confirm duration
    pub enable_exit_rebalance: bool,
    /// Arm threshold for event-mode exit/rebalance (absolute mid spread bps).
    pub exit_rebalance_entry_spread_bps: Double,
    /// Exit trigger threshold for event-mode exit/rebalance (absolute mid spread bps).
    pub exit_rebalance_exit_spread_bps: Double,
    /// Require spread to stay under exit threshold for this many seconds before flattening.
    pub exit_rebalance_confirm_secs: u64,
    /// Cooldown between exit/rebalance attempts.
    pub exit_rebalance_cooldown_secs: u64,
    /// Minimum absolute position size to consider non-flat when flattening.
    pub exit_rebalance_min_abs_position: Double,
    /// Hyperliquid slippage tolerance for market orders (e.g., 0.05 = 5%)
    pub hyperliquid_slippage: Double,
    /// Use Hyperliquid WebSocket for hedge market orders (default: true).
    /// When disabled, REST API is used for hedge execution.
    pub hyperliquid_use_ws_for_hedge: bool,
    /// Pacifica REST API polling interval in seconds (complement to WebSocket)
    pub pacifica_rest_poll_interval_secs: u64,
    /// Pacifica REST poll interval for active orders (ms).
    /// Used by REST fill detection to poll more frequently when an order is active.
    pub pacifica_active_order_rest_poll_interval_ms: u64,
}

pub fn default_agg_level() -> (r: u32)
    ensures
        r == 1,
{
    1
}

pub fn default_maker_exchange() -> (r: String)
    ensures
        r@ == "pacifica"@,
{
    "pacifica".to_string()
}

pub fn default_reconnect_attempts() -> (r: u32)
    ensures
        r == 5,
{
    5
}

pub fn default_ping_interval() -> (r: u64)
    ensures
        r == 15,
{
    15
}

pub fn default_low_latency() -> (r: bool)
    ensures
        r == false,
{
    false
}

pub fn default_pacifica_maker_fee() -> (r: Double)
    ensures
        r == Double::fraction(3, 2),
{
    Double::ratio(3, 2)
}

pub fn default_hyperliquid_taker_fee() -> (r: Double)
    ensures
        r == Double::whole_number(4),
{
    Double::whole(4)
}

pub fn default_strategy_mode() -> (r: StrategyMode)
    ensures
        r == StrategyMode::Dual,
{
    StrategyMode::Dual
}

pub fn default_profit_rate() -> (r: Double)
    ensures
        r == Double::whole_number(15),
{
    Double::whole(15)
}

pub fn default_order_notional() -> (r: Double)
    ensures
        r == Double::whole_number(20),
{
    Double::whole(20)
}

pub fn default_profit_cancel_threshold() -> (r: Double)
    ensures
        r == Double::whole_number(3),
{
    Double::whole(3)
}

pub fn default_order_refresh_interval() -> (r: u64)
    ensures
        r == 60,
{
    60
}

pub fn default_event_trigger_mid_spread_bps() -> (r: Double)
    ensures
        r == Double::whole_number(100),
{
    Double::whole(100)
}

pub fn default_event_trigger_hl_spread_bps() -> (r: Double)
    ensures
        r == Double::whole_number(4),
{
    Double::whole(4)
}

pub fn default_event_trigger_confirm_secs() -> (r: u64)
    ensures
        r == 2,
{
    2
}

pub fn default_event_rearm_cooldown_secs() -> (r: u64)
    ensures
        r == 120,
{
    120
}

pub fn default_continuous_mode() -> (r: bool)
    ensures
        r == true,
{
    true
}

pub fn default_evaluation_loop_interval_ms() -> (r: u64)
    ensures
        r == 50,
{
    50
}

pub fn default_order_failure_cooldown_ms() -> (r: u64)
    ensures
        r == 1500,
{
    1500
}

pub fn default_post_only_reject_cooldown_ms() -> (r: u64)
    ensures
        r == 6000,
{
    6000
}

pub fn default_enable_exit_rebalance() -> (r: bool)
    ensures
        r == false,
{
    false
}

pub fn default_exit_rebalance_entry_spread_bps() -> (r: Double)
    ensures
        r == Double::whole_number(100),
{
    Double::whole(100)
}

pub fn default_exit_rebalance_exit_spread_bps() -> (r: Double)
    ensures
        r == Double::whole_number(40),
{
    Double::whole(40)
}

pub fn default_exit_rebalance_confirm_secs() -> (r: u64)
    ensures
        r == 15,
{
    15
}

pub fn default_exit_rebalance_cooldown_secs() -> (r: u64)
    ensures
        r == 120,
{
    120
}

pub fn default_exit_rebalance_min_abs_position() -> (r: Double)
    ensures
        r == Double::fraction(1, 100),
{
    Double::ratio(1, 100)
}

pub fn default_hyperliquid_slippage() -> (r: Double)
    ensures
        r == Double::fraction(1, 20),
{
    Double::ratio(1, 20)
}

pub fn default_hyperliquid_use_ws_for_hedge() -> (r: bool)
    ensures
        r == true,
{
    true
}

pub fn default_pacifica_rest_poll_interval() -> (r: u64)
    ensures
        r == 2,
{
    2
}

pub fn default_pacifica_active_order_rest_poll_interval() -> (r: u64)
    ensures
        r == 500,
{
    500
}

pub fn default_spread_window_secs() -> (r: u64)
    ensures
        r == 1800,
{
    1800
}

pub fn default_max_position_units() -> (r: Double)
    ensures
        r == Double::whole_number(10),
{
    Double::whole(10)
}

pub fn default_max_loss_bps() -> (r: Double)
    ensures
        r == Double::whole_number(50),
{
    Double::whole(50)
}

pub fn default_max_hold_hours() -> (r: u64)
    ensures
        r == 168,
{
    168
}

pub fn default_funding_poll_interval_secs() -> (r: u64)
    ensures
        r == 60,
{
    60
}

pub fn default_funding_adverse_consecutive() -> (r: u64)
    ensures
        r == 3,
{
    3
}

pub fn default_funding_adverse_threshold_bps() -> (r: Double)
    ensures
        r == Double::whole_number(2).opposite(),
{
    Double::whole(2).negated()
}

pub fn default_close_limit_timeout_secs() -> (r: u64)
    ensures
        r == 30,
{
    30
}

impl Default for Config {
    fn default() -> (c: Config)
        ensures
            c.maker_exchange@ == "pacifica"@,
            c.symbol@ == "SOL"@,
            c.maker_symbol is None,
            c.hedge_symbol is None,
            c.agg_level == 1,
            c.reconnect_attempts == 5,
            c.ping_interval_secs == 15,
            c.low_latency_mode == false,
            c.pacifica_maker_fee_bps == Double::fraction(3, 2),
            c.hyperliquid_taker_fee_bps == Double::whole_number(4),
            c.strategy_mode == StrategyMode::Dual,
            c.profit_rate_bps == Double::whole_number(15),
            c.order_notional_usd == Double::whole_number(20),
            c.profit_cancel_threshold_bps == Double::whole_number(3),
            c.order_refresh_interval_secs == 60,
            c.normal_mode is None,
            c.event_mode is None,
            c.event_trigger_mid_spread_bps == Double::whole_number(100),
            c.event_trigger_hl_spread_bps == Double::whole_number(4),
            c.event_trigger_confirm_secs == 2,
            c.event_rearm_cooldown_secs == 120,
            c.continuous_mode == true,
            c.evaluation_loop_interval_ms == 50,
            c.order_failure_cooldown_ms == 1500,
            c.post_only_reject_cooldown_ms == 6000,
            c.enable_exit_rebalance == false,
            c.exit_rebalance_entry_spread_bps == Double::whole_number(100),
            c.exit_rebalance_exit_spread_bps == Double::whole_number(40),
            c.exit_rebalance_confirm_secs == 15,
            c.exit_rebalance_cooldown_secs == 120,
            c.exit_rebalance_min_abs_position == Double::fraction(1, 100),
            c.hyperliquid_slippage == Double::fraction(1, 20),
            c.hyperliquid_use_ws_for_hedge == true,
            c.pacifica_rest_poll_interval_secs == 2,
            c.pacifica_active_order_rest_poll_interval_ms == 500,
            c.valid(),
    {
        let c = Config {
            maker_exchange: default_maker_exchange(),
            symbol: "SOL".to_string(),
            maker_symbol: None,
            hedge_symbol: None,
            agg_level: default_agg_level(),
            reconnect_attempts: default_reconnect_attempts(),
            ping_interval_secs: default_ping_interval(),
            low_latency_mode: default_low_latency(),
            pacifica_maker_fee_bps: default_pacifica_maker_fee(),
            hyperliquid_taker_fee_bps: default_hyperliquid_taker_fee(),
            strategy_mode: default_strategy_mode(),
            profit_rate_bps: default_profit_rate(),
            order_notional_usd: default_order_notional(),
            profit_cancel_threshold_bps: default_profit_cancel_threshold(),
            order_refresh_interval_secs: default_order_refresh_interval(),
            normal_mode: None,
            event_mode: None,
            event_trigger_mid_spread_bps: default_event_trigger_mid_spread_bps(),
            event_trigger_hl_spread_bps: default_event_trigger_hl_spread_bps(),
            event_trigger_confirm_secs: default_event_trigger_confirm_secs(),
            event_rearm_cooldown_secs: default_event_rearm_cooldown_secs(),
            continuous_mode: default_continuous_mode(),
            evaluation_loop_interval_ms: default_evaluation_loop_interval_ms(),
            order_failure_cooldown_ms: default_order_failure_cooldown_ms(),
            post_only_reject_cooldown_ms: default_post_only_reject_cooldown_ms(),
            enable_exit_rebalance: default_enable_exit_rebalance(),
            exit_rebalance_entry_spread_bps: default_exit_rebalance_entry_spread_bps(),
            exit_rebalance_exit_spread_bps: default_exit_rebalance_exit_spread_bps(),
            exit_rebalance_confirm_secs: default_exit_rebalance_confirm_secs(),
            exit_rebalance_cooldown_secs: default_exit_rebalance_cooldown_secs(),
            exit_rebalance_min_abs_position: default_exit_rebalance_min_abs_position(),
            hyperliquid_slippage: default_hyperliquid_slippage(),
            hyperliquid_use_ws_for_hedge: default_hyperliquid_use_ws_for_hedge(),
            pacifica_rest_poll_interval_secs: default_pacifica_rest_poll_interval(),
            pacifica_active_order_rest_poll_interval_ms: default_pacifica_active_order_rest_poll_interval(),
        };
        proof {
            lemma_default_is_valid(c);
        }
        c
    }
}

/// The default settings pass every check.
proof fn lemma_default_is_valid(c: Config)
    requires
        c.maker_exchange@ == "pacifica"@,
        c.symbol@ == "SOL"@,
        c.maker_symbol is None,
        c.hedge_symbol is None,
        c.agg_level == 1,
        c.reconnect_attempts == 5,
        c.ping_interval_secs == 15,
        c.pacifica_maker_fee_bps == Double::fraction(3, 2),
        c.hyperliquid_taker_fee_bps == Double::whole_number(4),
        c.profit_rate_bps == Double::whole_number(15),
        c.order_notional_usd == Double::whole_number(20),
        c.profit_cancel_threshold_bps == Double::whole_number(3),
        c.order_refresh_interval_secs == 60,
        c.normal_mode is None,
        c.event_mode is None,
        c.event_trigger_mid_spread_bps == Double::whole_number(100),
        c.event_trigger_hl_spread_bps == Double::whole_number(4),
        c.event_trigger_confirm_secs == 2,
        c.event_rearm_cooldown_secs == 120,
        c.evaluation_loop_interval_ms == 50,
        c.order_failure_cooldown_ms == 1500,
        c.post_only_reject_cooldown_ms == 6000,
        c.exit_rebalance_entry_spread_bps == Double::whole_number(100),
        c.exit_rebalance_exit_spread_bps == Double::whole_number(40),
        c.exit_rebalance_confirm_secs == 15,
        c.exit_rebalance_cooldown_secs == 120,
        c.exit_rebalance_min_abs_position == Double::fraction(1, 100),
        c.hyperliquid_slippage == Double::fraction(1, 20),
    ensures
        c.valid(),
{
    let one = double::one();
    vstd::arithmetic::power2::lemma_pow2_pos(1074);
    reveal_strlit("SOL");
    reveal_strlit("pacifica");
    assert(!text::is_space(c.symbol@[0]));
    assert(text::lower("pacifica"@) =~= "pacifica"@);
    // Whole numbers
    arithmetic::lemma_whole_exact(2);
    arithmetic::lemma_whole_exact(3);
    arithmetic::lemma_whole_exact(4);
    arithmetic::lemma_whole_exact(5);
    arithmetic::lemma_whole_exact(10);
    arithmetic::lemma_whole_exact(15);
    arithmetic::lemma_whole_exact(20);
    arithmetic::lemma_whole_exact(25);
    arithmetic::lemma_whole_exact(40);
    arithmetic::lemma_whole_exact(100);
    // Fractions
    arithmetic::lemma_nearest_up_to(3 * one, 2, 2);
    arithmetic::lemma_nearest_up_to(1 * one, 100, 1);
    arithmetic::lemma_nearest_up_to(8 * one, 5, 2);
    arithmetic::lemma_twentieth();
    // The event profile
    let sum = Double::whole_number(15).sum(Double::whole_number(10));
    assert(sum == Double::whole_number(25));
    let f = Double::fraction(8, 5);
    let p = Double::whole_number(15).product(f);
    let (a, b) = (15 * one, f.amount());
    assert(0 <= a * b <= (30 * one) * one) by (nonlinear_arith)
        requires
            a == 15 * one,
            0 <= b <= 2 * one,
            one > 0,
    ;
    double::lemma_units_order(f.magnitude(), 0);
    lemma_finite(f, 2);
    arithmetic::lemma_nearest_up_to(a * b, one, 30);
    let cancel = Double::whole_number(3).sum(Double::whole_number(2));
    assert(cancel == Double::whole_number(5));
}

/// A number that is at most a whole number is not infinite.
proof fn lemma_finite(d: Double, limit: int)
    requires
        !d.nan(),
        !d.negative(),
        d.amount() <= limit * double::one(),
        0 < limit < 0x20_0000_0000_0000,
    ensures
        !d.infinite(),
{
    arithmetic::lemma_whole_exact(limit);
    let top = Double::whole_number(limit);
    double::lemma_units_order(top.magnitude(), d.magnitude());
    double::lemma_units_order(d.magnitude(), top.magnitude());
}

/// What a profile can get wrong, in the order in which it is checked.
#[derive(Debug, Clone, Copy, PartialEq, Eq, Structural)]
pub enum ModeError {
    /// `profit_rate_bps` is not in (0, 500].
    ProfitRate,
    /// `order_notional_usd` is not in (0, 1_000_000].
    OrderNotional,
    /// `profit_cancel_threshold_bps` is not in [0, 500].
    ProfitCancelThreshold,
    /// `order_refresh_interval_secs` is not in [1, 3600].
    OrderRefreshInterval,
}

impl ModeError {
    /// The place in the order of the checks.
    pub open spec fn rank(self) -> int {
        match self {
            ModeError::ProfitRate => 0,
            ModeError::OrderNotional => 1,
            ModeError::ProfitCancelThreshold => 2,
            ModeError::OrderRefreshInterval => 3,
        }
    }
}

impl ModeTradingConfig {
    pub open spec fn violates(self, e: ModeError) -> bool {
        match e {
            ModeError::ProfitRate => !self.profit_rate_bps.positive_up_to(500),
            ModeError::OrderNotional => !self.order_notional_usd.positive_up_to(1_000_000),
            ModeError::ProfitCancelThreshold => !self.profit_cancel_threshold_bps.between_zero_and(
                500,
            ),
            ModeError::OrderRefreshInterval => !(0 < self.order_refresh_interval_secs <= 3600),
        }
    }

    /// All settings of the profile are in their ranges.
    pub open spec fn in_range(self) -> bool {
        let one = double::one();
        &&& !self.profit_rate_bps.nan() && 0 < self.profit_rate_bps.amount() <= 500 * one
        &&& !self.order_notional_usd.nan() && 0 < self.order_notional_usd.amount() <= 1_000_000
            * one
        &&& !self.profit_cancel_threshold_bps.nan() && 0
            <= self.profit_cancel_threshold_bps.amount() <= 500 * one
        &&& 1 <= self.order_refresh_interval_secs <= 3600
    }

    /// The first check that fails.
    fn first_fault(&self) -> (r: Option<ModeError>)
        ensures
            r is None ==> forall|e: ModeError| !#[trigger] self.violates(e),
            r matches Some(e) ==> self.violates(e) && forall|f: ModeError|
                #[trigger] self.violates(f) ==> f.rank() >= e.rank(),
    {
        if !self.profit_rate_bps.is_positive_up_to(500) {
            return Some(ModeError::ProfitRate);
        }
        if !self.order_notional_usd.is_positive_up_to(1_000_000) {
            return Some(ModeError::OrderNotional);
        }
        if !self.profit_cancel_threshold_bps.is_between_zero_and(500) {
            return Some(ModeError::ProfitCancelThreshold);
        }
        if !(0 < self.order_refresh_interval_secs && self.order_refresh_interval_secs <= 3600) {
            return Some(ModeError::OrderRefreshInterval);
        }
        None
    }

    /// Fails with the first check that does not pass, if any.
    pub fn validate(&self) -> (r: Result<(), ModeError>)
        ensures
            r is Ok <==> forall|e: ModeError| !#[trigger] self.violates(e),
            r matches Err(e) ==> self.violates(e) && forall|f: ModeError|
                #[trigger] self.violates(f) ==> f.rank() >= e.rank(),
    {
        match self.first_fault() {
            Some(e) => Err(e),
            None => Ok(()),
        }
    }
}

/// What the settings can get wrong, in the order in which it is checked.
#[derive(Debug, Clone, Copy, PartialEq, Eq, Structural)]
pub enum ConfigError {
    /// `symbol` is empty.
    EmptySymbol,
    /// The maker symbol is blank.
    BlankMakerSymbol,
    /// The hedge symbol is blank.
    BlankHedgeSymbol,
    /// `maker_exchange` is neither "pacifica" nor "binance".
    MakerExchange,
    /// `agg_level` is none of 1, 2, 5, 10, 100, 1000.
    AggLevel,
    /// `ping_interval_secs` is not in [1, 30].
    PingInterval,
    /// `reconnect_attempts` is 0.
    ReconnectAttempts,
    /// `pacifica_maker_fee_bps` is negative.
    MakerFee,
    /// `hyperliquid_taker_fee_bps` is negative.
    TakerFee,
    /// `hyperliquid_slippage` is not in (0, 0.5).
    Slippage,
    /// `profit_rate_bps` is not in (0, 500].
    ProfitRate,
    /// `order_notional_usd` is not in (0, 1_000_000].
    OrderNotional,
    /// `profit_cancel_threshold_bps` is not in [0, 500].
    ProfitCancelThreshold,
    /// `order_refresh_interval_secs` is not in [1, 3600].
    OrderRefreshInterval,
    /// The normal profile is at fault.
    NormalMode(ModeError),
    /// The event profile is at fault.
    EventMode(ModeError),
    /// `event_trigger_mid_spread_bps` is not in (0, 5000].
    EventTriggerMidSpread,
    /// `event_trigger_hl_spread_bps` is not in (0, 1000].
    EventTriggerHlSpread,
    /// `event_trigger_confirm_secs` is not in [1, 120].
    EventTriggerConfirm,
    /// `event_rearm_cooldown_secs` is over 7200.
    EventRearmCooldown,
    /// `evaluation_loop_interval_ms` is not in [1, 5000].
    EvaluationLoopInterval,
    /// `order_failure_cooldown_ms` is over 120000.
    OrderFailureCooldown,
    /// `post_only_reject_cooldown_ms` is over 120000.
    PostOnlyRejectCooldown,
    /// `exit_rebalance_entry_spread_bps` is not positive.
    ExitEntrySpread,
    /// `exit_rebalance_exit_spread_bps` is not positive.
    ExitSpread,
    /// `exit_rebalance_entry_spread_bps` is not greater than `exit_rebalance_exit_spread_bps`.
    ExitSpreadOrder,
    /// `exit_rebalance_confirm_secs` is over 600.
    ExitConfirm,
    /// `exit_rebalance_cooldown_secs` is over 3600.
    ExitCooldown,
    /// `exit_rebalance_min_abs_position` is not in [0, 1000].
    ExitMinAbsPosition,
}

impl ConfigError {
    /// The place in the order of the checks.
    pub open spec fn rank(self) -> int {
        match self {
            ConfigError::EmptySymbol => 0,
            ConfigError::BlankMakerSymbol => 10,
            ConfigError::BlankHedgeSymbol => 20,
            ConfigError::MakerExchange => 30,
            ConfigError::AggLevel => 40,
            ConfigError::PingInterval => 50,
            ConfigError::ReconnectAttempts => 60,
            ConfigError::MakerFee => 70,
            ConfigError::TakerFee => 80,
            ConfigError::Slippage => 90,
            ConfigError::ProfitRate => 100,
            ConfigError::OrderNotional => 110,
            ConfigError::ProfitCancelThreshold => 120,
            ConfigError::OrderRefreshInterval => 130,
            ConfigError::NormalMode(e) => 140 + e.rank(),
            ConfigError::EventMode(e) => 150 + e.rank(),
            ConfigError::EventTriggerMidSpread => 160,
            ConfigError::EventTriggerHlSpread => 170,
            ConfigError::EventTriggerConfirm => 180,
            ConfigError::EventRearmCooldown => 190,
            ConfigError::EvaluationLoopInterval => 200,
            ConfigError::OrderFailureCooldown => 210,
            ConfigError::PostOnlyRejectCooldown => 220,
            ConfigError::ExitEntrySpread => 230,
            ConfigError::ExitSpread => 240,
            ConfigError::ExitSpreadOrder => 250,
            ConfigError::ExitConfirm => 260,
            ConfigError::ExitCooldown => 270,
            ConfigError::ExitMinAbsPosition => 280,
        }
    }
}

/// The order book depths that the exchange aggregates to.
pub open spec fn valid_agg_level(level: int) -> bool {
    level == 1 || level == 2 || level == 5 || level == 10 || level == 100 || level == 1000
}

fn is_valid_agg_level(level: u32) -> (r: bool)
    ensures
        r == valid_agg_level(level as int),
{
    level == 1 || level == 2 || level == 5 || level == 10 || level == 100 || level == 1000
}

impl Config {
    pub open spec fn maker_symbol_text(&self) -> Seq<char> {
        match self.maker_symbol {
            Some(s) => s@,
            None => self.symbol@,
        }
    }

    pub open spec fn hedge_symbol_text(&self) -> Seq<char> {
        match self.hedge_symbol {
            Some(s) => s@,
            None => self.symbol@,
        }
    }

    /// The maker exchange that `maker_exchange` names, in letters of either case.
    pub open spec fn maker(&self) -> Option<MakerExchangeKind> {
        if text::lower(self.maker_exchange@) == "pacifica"@ {
            Some(MakerExchangeKind::Pacifica)
        } else if text::lower(self.maker_exchange@) == "binance"@ {
            Some(MakerExchangeKind::Binance)
        } else {
            None
        }
    }

    /// The four settings that a profile cannot do without, with the carry settings at
    /// their defaults.
    pub open spec fn plain_profile(
        profit_rate_bps: Double,
        order_notional_usd: Double,
        profit_cancel_threshold_bps: Double,
        order_refresh_interval_secs: u64,
    ) -> ModeTradingConfig {
        ModeTradingConfig {
            profit_rate_bps,
            order_notional_usd,
            profit_cancel_threshold_bps,
            order_refresh_interval_secs,
            entry_z_score: Double::whole_number(0),
            spread_window_secs: 1800,
            max_position_units: Double::whole_number(10),
            max_loss_bps: Double::whole_number(50),
            max_hold_hours: 168,
            close_spread_bps: Double::whole_number(0),
            funding_poll_interval_secs: 60,
            funding_adverse_consecutive: 3,
            funding_adverse_threshold_bps: Double::whole_number(2).opposite(),
            close_limit_timeout_secs: 30,
        }
    }

    pub open spec fn normal_profile(&self) -> ModeTradingConfig {
        match self.normal_mode {
            Some(m) => m,
            None => Config::plain_profile(
                self.profit_rate_bps,
                self.order_notional_usd,
                self.profit_cancel_threshold_bps,
                self.order_refresh_interval_secs,
            ),
        }
    }

    /// Without one of its own, the event profile asks for 10 bps more profit or
    /// 1.6 times as much, whichever is larger, lets go 2 bps later, and keeps an
    /// order for at least 30 seconds.
    pub open spec fn event_profile(&self) -> ModeTradingConfig {
        match self.event_mode {
            Some(m) => m,
            None => Config::plain_profile(
                self.profit_rate_bps.sum(Double::whole_number(10)).larger(
                    self.profit_rate_bps.product(Double::fraction(8, 5)),
                ),
                self.order_notional_usd,
                self.profit_cancel_threshold_bps.sum(Double::whole_number(2)).larger(
                    self.profit_cancel_threshold_bps,
                ),
                if self.order_refresh_interval_secs >= 30 {
                    self.order_refresh_interval_secs
                } else {
                    30
                },
            ),
        }
    }

    pub open spec fn violates(&self, e: ConfigError) -> bool {
        match e {
            ConfigError::EmptySymbol => self.symbol@.len() == 0,
            ConfigError::BlankMakerSymbol => text::blank(self.maker_symbol_text()),
            ConfigError::BlankHedgeSymbol => text::blank(self.hedge_symbol_text()),
            ConfigError::MakerExchange => self.maker() is None,
            ConfigError::AggLevel => !valid_agg_level(self.agg_level as int),
            ConfigError::PingInterval => !(0 < self.ping_interval_secs <= 30),
            ConfigError::ReconnectAttempts => self.reconnect_attempts == 0,
            ConfigError::MakerFee => !self.pacifica_maker_fee_bps.non_negative(),
            ConfigError::TakerFee => !self.hyperliquid_taker_fee_bps.non_negative(),
            ConfigError::Slippage => !(self.hyperliquid_slippage.positive() && 2
                * self.hyperliquid_slippage.amount() < double::one()),
            ConfigError::ProfitRate => !self.profit_rate_bps.positive_up_to(500),
            ConfigError::OrderNotional => !self.order_notional_usd.positive_up_to(1_000_000),
            ConfigError::ProfitCancelThreshold => !self.profit_cancel_threshold_bps.between_zero_and(500),
            ConfigError::OrderRefreshInterval => !(0 < self.order_refresh_interval_secs <= 3600),
            ConfigError::NormalMode(e) => self.normal_profile().violates(e),
            ConfigError::EventMode(e) => self.event_profile().violates(e),
            ConfigError::EventTriggerMidSpread => !self.event_trigger_mid_spread_bps.positive_up_to(5000),
            ConfigError::EventTriggerHlSpread => !self.event_trigger_hl_spread_bps.positive_up_to(1000),
            ConfigError::EventTriggerConfirm => !(0 < self.event_trigger_confirm_secs <= 120),
            ConfigError::EventRearmCooldown => self.event_rearm_cooldown_secs > 7200,
            ConfigError::EvaluationLoopInterval => !(1 <= self.evaluation_loop_interval_ms <= 5000),
            ConfigError::OrderFailureCooldown => self.order_failure_cooldown_ms > 120_000,
            ConfigError::PostOnlyRejectCooldown => self.post_only_reject_cooldown_ms > 120_000,
            ConfigError::ExitEntrySpread => !self.exit_rebalance_entry_spread_bps.positive(),
            ConfigError::ExitSpread => !self.exit_rebalance_exit_spread_bps.positive(),
            ConfigError::ExitSpreadOrder => !self.exit_rebalance_exit_spread_bps.below(
                self.exit_rebalance_entry_spread_bps,
            ),
            ConfigError::ExitConfirm => self.exit_rebalance_confirm_secs > 600,
            ConfigError::ExitCooldown => self.exit_rebalance_cooldown_secs > 3600,
            ConfigError::ExitMinAbsPosition => !self.exit_rebalance_min_abs_position.between_zero_and(1000),
        }
    }

    /// Every check passes.
    pub open spec fn valid(&self) -> bool {
        forall|e: ConfigError| !#[trigger] self.violates(e)
    }

    /// The maker symbol: `maker_symbol` if set, otherwise `symbol`.
    pub fn maker_symbol_str(&self) -> (s: &str)
        ensures
            s@ == self.maker_symbol_text(),
    {
        match &self.maker_symbol {
            Some(s) => s.as_str(),
            None => self.symbol.as_str(),
        }
    }

    /// The hedge symbol: `hedge_symbol` if set, otherwise `symbol`.
    pub fn hedge_symbol_str(&self) -> (s: &str)
        ensures
            s@ == self.hedge_symbol_text(),
    {
        match &self.hedge_symbol {
            Some(s) => s.as_str(),
            None => self.symbol.as_str(),
        }
    }

    /// The maker exchange.
    pub fn maker_kind(&self) -> (r: Option<MakerExchangeKind>)
        ensures
            r == self.maker(),
    {
        let name = text::to_ascii_lowercase(self.maker_exchange.as_str());
        if text::same(name.as_str(), "pacifica") {
            Some(MakerExchangeKind::Pacifica)
        } else if text::same(name.as_str(), "binance") {
            Some(MakerExchangeKind::Binance)
        } else {
            None
        }
    }

    fn profile(
        profit_rate_bps: Double,
        order_notional_usd: Double,
        profit_cancel_threshold_bps: Double,
        order_refresh_interval_secs: u64,
    ) -> (m: ModeTradingConfig)
        ensures
            m == Config::plain_profile(
                profit_rate_bps,
                order_notional_usd,
                profit_cancel_threshold_bps,
                order_refresh_interval_secs,
            ),
    {
        ModeTradingConfig {
            profit_rate_bps,
            order_notional_usd,
            profit_cancel_threshold_bps,
            order_refresh_interval_secs,
            entry_z_score: Double::whole(0),
            spread_window_secs: default_spread_window_secs(),
            max_position_units: default_max_position_units(),
            max_loss_bps: default_max_loss_bps(),
            max_hold_hours: default_max_hold_hours(),
            close_spread_bps: Double::whole(0),
            funding_poll_interval_secs: default_funding_poll_interval_secs(),
            funding_adverse_consecutive: default_funding_adverse_consecutive(),
            funding_adverse_threshold_bps: default_funding_adverse_threshold_bps(),
            close_limit_timeout_secs: default_close_limit_timeout_secs(),
        }
    }

    /// The normal profile.
    pub fn normal_mode_config(&self) -> (m: ModeTradingConfig)
        ensures
            m == self.normal_profile(),
    {
        match &self.normal_mode {
            Some(m) => *m,
            None => Config::profile(
                self.profit_rate_bps,
                self.order_notional_usd,
                self.profit_cancel_threshold_bps,
                self.order_refresh_interval_secs,
            ),
        }
    }

    /// The event profile.
    pub fn event_mode_config(&self) -> (m: ModeTradingConfig)
        ensures
            m == self.event_profile(),
    {
        match &self.event_mode {
            Some(m) => *m,
            None => {
                let more = self.profit_rate_bps.plus(&Double::whole(10));
                let times = self.profit_rate_bps.times(&Double::ratio(8, 5));
                let cancel = self.profit_cancel_threshold_bps.plus(&Double::whole(2));
                let refresh: u64 = if self.order_refresh_interval_secs >= 30 {
                    self.order_refresh_interval_secs
                } else {
                    30
                };
                Config::profile(
                    more.max(&times),
                    self.order_notional_usd,
                    cancel.max(&self.profit_cancel_threshold_bps),
                    refresh,
                )
            },
        }
    }

    /// The first check that fails.
    fn first_fault(&self) -> (r: Option<ConfigError>)
        ensures
            r is None ==> self.valid(),
            r matches Some(e) ==> self.violates(e) && forall|f: ConfigError|
                #[trigger] self.violates(f) ==> f.rank() >= e.rank(),
    {
        if self.symbol.as_str().is_empty() {
            return Some(ConfigError::EmptySymbol);
        }
        if text::is_blank(self.maker_symbol_str()) {
            return Some(ConfigError::BlankMakerSymbol);
        }
        if text::is_blank(self.hedge_symbol_str()) {
            return Some(ConfigError::BlankHedgeSymbol);
        }
        if self.maker_kind().is_none() {
            return Some(ConfigError::MakerExchange);
        }
        if !is_valid_agg_level(self.agg_level) {
            return Some(ConfigError::AggLevel);
        }
        if !(0 < self.ping_interval_secs && self.ping_interval_secs <= 30) {
            return Some(ConfigError::PingInterval);
        }
        if self.reconnect_attempts == 0 {
            return Some(ConfigError::ReconnectAttempts);
        }
        if !self.pacifica_maker_fee_bps.is_non_negative() {
            return Some(ConfigError::MakerFee);
        }
        if !self.hyperliquid_taker_fee_bps.is_non_negative() {
            return Some(ConfigError::TakerFee);
        }
        if !(self.hyperliquid_slippage.is_positive() && self.hyperliquid_slippage.lt(&Double::halves(1))) {
            return Some(ConfigError::Slippage);
        }
        if !self.profit_rate_bps.is_positive_up_to(500) {
            return Some(ConfigError::ProfitRate);
        }
        if !self.order_notional_usd.is_positive_up_to(1_000_000) {
            return Some(ConfigError::OrderNotional);
        }
        if !self.profit_cancel_threshold_bps.is_between_zero_and(500) {
            return Some(ConfigError::ProfitCancelThreshold);
        }
        if !(0 < self.order_refresh_interval_secs && self.order_refresh_interval_secs <= 3600) {
            return Some(ConfigError::OrderRefreshInterval);
        }
        if let Err(e) = self.normal_mode_config().validate() {
            return Some(ConfigError::NormalMode(e));
        }
        if let Err(e) = self.event_mode_config().validate() {
            return Some(ConfigError::EventMode(e));
        }
        if !self.event_trigger_mid_spread_bps.is_positive_up_to(5000) {
            return Some(ConfigError::EventTriggerMidSpread);
        }
        if !self.event_trigger_hl_spread_bps.is_positive_up_to(1000) {
            return Some(ConfigError::EventTriggerHlSpread);
        }
        if !(0 < self.event_trigger_confirm_secs && self.event_trigger_confirm_secs <= 120) {
            return Some(ConfigError::EventTriggerConfirm);
        }
        if self.event_rearm_cooldown_secs > 7200 {
            return Some(ConfigError::EventRearmCooldown);
        }
        if !(1 <= self.evaluation_loop_interval_ms && self.evaluation_loop_interval_ms <= 5000) {
            return Some(ConfigError::EvaluationLoopInterval);
        }
        if self.order_failure_cooldown_ms > 120_000 {
            return Some(ConfigError::OrderFailureCooldown);
        }
        if self.post_only_reject_cooldown_ms > 120_000 {
            return Some(ConfigError::PostOnlyRejectCooldown);
        }
        if !self.exit_rebalance_entry_spread_bps.is_positive() {
            return Some(ConfigError::ExitEntrySpread);
        }
        if !self.exit_rebalance_exit_spread_bps.is_positive() {
            return Some(ConfigError::ExitSpread);
        }
        if !self.exit_rebalance_exit_spread_bps.lt(&self.exit_rebalance_entry_spread_bps) {
            return Some(ConfigError::ExitSpreadOrder);
        }
        if self.exit_rebalance_confirm_secs > 600 {
            return Some(ConfigError::ExitConfirm);
        }
        if self.exit_rebalance_cooldown_secs > 3600 {
            return Some(ConfigError::ExitCooldown);
        }
        if !self.exit_rebalance_min_abs_position.is_between_zero_and(1000) {
            return Some(ConfigError::ExitMinAbsPosition);
        }
        None
    }

    /// Fails with the first check that does not pass, if any.
    pub fn validate(&self) -> (r: Result<(), ConfigError>)
        ensures
            r is Ok <==> self.valid(),
            r matches Err(e) ==> self.violates(e) && forall|f: ConfigError|
                #[trigger] self.violates(f) ==> f.rank() >= e.rank(),
    {
        match self.first_fault() {
            Some(e) => Err(e),
            None => Ok(()),
        }
    }

    /// Accepted settings name a maker exchange and two symbols, and both profiles are
    /// accepted as well.
    pub proof fn law_valid_is_complete(&self)
        requires
            self.valid(),
        ensures
            self.maker() is Some,
            !text::blank(self.maker_symbol_text()),
            !text::blank(self.hedge_symbol_text()),
            forall|e: ModeError| !#[trigger] self.normal_profile().violates(e),
            forall|e: ModeError| !#[trigger] self.event_profile().violates(e),
            self.exit_rebalance_exit_spread_bps.below(self.exit_rebalance_entry_spread_bps),
    {
        assert(!self.violates(ConfigError::MakerExchange));
        assert(!self.violates(ConfigError::BlankMakerSymbol));
        assert(!self.violates(ConfigError::BlankHedgeSymbol));
        assert(!self.violates(ConfigError::ExitSpreadOrder));
        assert forall|e: ModeError| !#[trigger] self.normal_profile().violates(e) by {
            assert(!self.violates(ConfigError::NormalMode(e)));
        }
        assert forall|e: ModeError| !#[trigger] self.event_profile().violates(e) by {
            assert(!self.violates(ConfigError::EventMode(e)));
        }
    }

    /// What each of the checks asks for, in numbers: the settings are accepted exactly where
    /// all of it holds, of the settings themselves and of both profiles.
    pub proof fn law_accepted_settings(&self)
        ensures
            self.valid() <==> {
                let one = double::one();
                &&& self.symbol@.len() > 0
                &&& !text::blank(self.maker_symbol_text())
                &&& !text::blank(self.hedge_symbol_text())
                &&& self.maker() is Some
                &&& self.agg_level == 1 || self.agg_level == 2 || self.agg_level == 5
                    || self.agg_level == 10 || self.agg_level == 100 || self.agg_level == 1000
                &&& 1 <= self.ping_interval_secs <= 30
                &&& self.reconnect_attempts >= 1
                &&& !self.pacifica_maker_fee_bps.nan() && self.pacifica_maker_fee_bps.amount() >= 0
                &&& !self.hyperliquid_taker_fee_bps.nan() && self.hyperliquid_taker_fee_bps.amount()
                    >= 0
                &&& !self.hyperliquid_slippage.nan() && 0 < 2 * self.hyperliquid_slippage.amount()
                    < one
                &&& !self.profit_rate_bps.nan() && 0 < self.profit_rate_bps.amount() <= 500 * one
                &&& !self.order_notional_usd.nan() && 0 < self.order_notional_usd.amount()
                    <= 1_000_000 * one
                &&& !self.profit_cancel_threshold_bps.nan() && 0
                    <= self.profit_cancel_threshold_bps.amount() <= 500 * one
                &&& 1 <= self.order_refresh_interval_secs <= 3600
                &&& self.normal_profile().in_range()
                &&& self.event_profile().in_range()
                &&& !self.event_trigger_mid_spread_bps.nan() && 0
                    < self.event_trigger_mid_spread_bps.amount() <= 5000 * one
                &&& !self.event_trigger_hl_spread_bps.nan() && 0
                    < self.event_trigger_hl_spread_bps.amount() <= 1000 * one
                &&& 1 <= self.event_trigger_confirm_secs <= 120
                &&& self.event_rearm_cooldown_secs <= 7200
                &&& 1 <= self.evaluation_loop_interval_ms <= 5000
                &&& self.order_failure_cooldown_ms <= 120_000
                &&& self.post_only_reject_cooldown_ms <= 120_000
                &&& !self.exit_rebalance_entry_spread_bps.nan()
                    && !self.exit_rebalance_exit_spread_bps.nan() && 0
                    < self.exit_rebalance_exit_spread_bps.amount()
                    < self.exit_rebalance_entry_spread_bps.amount()
                &&& self.exit_rebalance_confirm_secs <= 600
                &&& self.exit_rebalance_cooldown_secs <= 3600
                &&& !self.exit_rebalance_min_abs_position.nan() && 0
                    <= self.exit_rebalance_min_abs_position.amount() <= 1000 * one
            },
    {
        if self.valid() {
            assert(!self.violates(ConfigError::EmptySymbol));
            assert(!self.violates(ConfigError::BlankMakerSymbol));
            assert(!self.violates(ConfigError::BlankHedgeSymbol));
            assert(!self.violates(ConfigError::MakerExchange));
            assert(!self.violates(ConfigError::AggLevel));
            assert(!self.violates(ConfigError::PingInterval));
            assert(!self.violates(ConfigError::ReconnectAttempts));
            assert(!self.violates(ConfigError::MakerFee));
            assert(!self.violates(ConfigError::TakerFee));
            assert(!self.violates(ConfigError::Slippage));
            assert(!self.violates(ConfigError::ProfitRate));
            assert(!self.violates(ConfigError::OrderNotional));
            assert(!self.violates(ConfigError::ProfitCancelThreshold));
            assert(!self.violates(ConfigError::OrderRefreshInterval));
            assert(!self.violates(ConfigError::NormalMode(ModeError::ProfitRate)));
            assert(!self.violates(ConfigError::NormalMode(ModeError::OrderNotional)));
            assert(!self.violates(ConfigError::NormalMode(ModeError::ProfitCancelThreshold)));
            assert(!self.violates(ConfigError::NormalMode(ModeError::OrderRefreshInterval)));
            assert(!self.violates(ConfigError::EventMode(ModeError::ProfitRate)));
            assert(!self.violates(ConfigError::EventMode(ModeError::OrderNotional)));
            assert(!self.violates(ConfigError::EventMode(ModeError::ProfitCancelThreshold)));
            assert(!self.violates(ConfigError::EventMode(ModeError::OrderRefreshInterval)));
            assert(!self.violates(ConfigError::EventTriggerMidSpread));
            assert(!self.violates(ConfigError::EventTriggerHlSpread));
            assert(!self.violates(ConfigError::EventTriggerConfirm));
            assert(!self.violates(ConfigError::EventRearmCooldown));
            assert(!self.violates(ConfigError::EvaluationLoopInterval));
            assert(!self.violates(ConfigError::OrderFailureCooldown));
            assert(!self.violates(ConfigError::PostOnlyRejectCooldown));
            assert(!self.violates(ConfigError::ExitEntrySpread));
            assert(!self.violates(ConfigError::ExitSpread));
            assert(!self.violates(ConfigError::ExitSpreadOrder));
            assert(!self.violates(ConfigError::ExitConfirm));
            assert(!self.violates(ConfigError::ExitCooldown));
            assert(!self.violates(ConfigError::ExitMinAbsPosition));
        }
    }

    /// The checks come in the order of the settings: that of the error of each is the one
    /// in which they are listed.
    pub proof fn law_order_of_the_checks(e: ModeError, f: ModeError)
        ensures
            ModeError::ProfitRate.rank() < ModeError::OrderNotional.rank(),
            ModeError::OrderNotional.rank() < ModeError::ProfitCancelThreshold.rank(),
            ModeError::ProfitCancelThreshold.rank() < ModeError::OrderRefreshInterval.rank(),
            ConfigError::EmptySymbol.rank() < ConfigError::BlankMakerSymbol.rank()
                < ConfigError::BlankHedgeSymbol.rank() < ConfigError::MakerExchange.rank()
                < ConfigError::AggLevel.rank() < ConfigError::PingInterval.rank()
                < ConfigError::ReconnectAttempts.rank() < ConfigError::MakerFee.rank()
                < ConfigError::TakerFee.rank() < ConfigError::Slippage.rank()
                < ConfigError::ProfitRate.rank() < ConfigError::OrderNotional.rank()
                < ConfigError::ProfitCancelThreshold.rank()
                < ConfigError::OrderRefreshInterval.rank() < ConfigError::NormalMode(e).rank()
                < ConfigError::EventMode(f).rank() < ConfigError::EventTriggerMidSpread.rank()
                < ConfigError::EventTriggerHlSpread.rank() < ConfigError::EventTriggerConfirm.rank()
                < ConfigError::EventRearmCooldown.rank() < ConfigError::EvaluationLoopInterval.rank()
                < ConfigError::OrderFailureCooldown.rank()
                < ConfigError::PostOnlyRejectCooldown.rank() < ConfigError::ExitEntrySpread.rank()
                < ConfigError::ExitSpread.rank() < ConfigError::ExitSpreadOrder.rank()
                < ConfigError::ExitConfirm.rank() < ConfigError::ExitCooldown.rank()
                < ConfigError::ExitMinAbsPosition.rank(),
            e.rank() < f.rank() ==> ConfigError::NormalMode(e).rank() < ConfigError::NormalMode(
                f,
            ).rank() && ConfigError::EventMode(e).rank() < ConfigError::EventMode(f).rank(),
    {
    }

    /// A profile that is given is taken as it is. One that is missing takes the size of
    /// orders from the settings; the normal one takes their profit, threshold and interval
    /// as well. The event profile then asks for the larger of 10 basis points more and 1.6
    /// times as much, lets go 2 basis points later, and keeps an order for at least 30 seconds.
    pub proof fn law_profiles(&self)
        requires
            self.valid(),
        ensures
            self.normal_mode is Some ==> self.normal_profile() == self.normal_mode->0,
            self.event_mode is Some ==> self.event_profile() == self.event_mode->0,
            self.normal_mode is None ==> {
                let m = self.normal_profile();
                &&& m.profit_rate_bps == self.profit_rate_bps
                &&& m.order_notional_usd == self.order_notional_usd
                &&& m.profit_cancel_threshold_bps == self.profit_cancel_threshold_bps
                &&& m.order_refresh_interval_secs == self.order_refresh_interval_secs
            },
            self.event_mode is None ==> {
                let m = self.event_profile();
                let more = self.profit_rate_bps.sum(Double::whole_number(10));
                let times = self.profit_rate_bps.product(Double::fraction(8, 5));
                &&& m.profit_rate_bps == more || m.profit_rate_bps == times
                &&& !times.nan() ==> more.at_most(m.profit_rate_bps) && times.at_most(
                    m.profit_rate_bps,
                )
                &&& m.order_notional_usd == self.order_notional_usd
                &&& m.profit_cancel_threshold_bps == self.profit_cancel_threshold_bps.sum(
                    Double::whole_number(2),
                )
                &&& self.order_refresh_interval_secs >= 30 ==> m.order_refresh_interval_secs
                    == self.order_refresh_interval_secs
                &&& self.order_refresh_interval_secs < 30 ==> m.order_refresh_interval_secs == 30
            },
    {
        assert(!self.violates(ConfigError::ProfitRate));
        assert(!self.violates(ConfigError::ProfitCancelThreshold));
        vstd::arithmetic::power2::lemma_pow2_pos(1074);
        arithmetic::lemma_whole_exact(10);
        arithmetic::lemma_whole_exact(2);
        arithmetic::lemma_sum_no_smaller(self.profit_rate_bps, Double::whole_number(10));
        arithmetic::lemma_sum_no_smaller(
            self.profit_cancel_threshold_bps,
            Double::whole_number(2),
        );
    }

    /// The symbol of an exchange is its own where it is given, and otherwise the common one.
    pub proof fn law_symbols(&self)
        ensures
            self.maker_symbol is Some ==> self.maker_symbol_text() == self.maker_symbol->0@,
            self.maker_symbol is None ==> self.maker_symbol_text() == self.symbol@,
            self.hedge_symbol is Some ==> self.hedge_symbol_text() == self.hedge_symbol->0@,
            self.hedge_symbol is None ==> self.hedge_symbol_text() == self.symbol@,
    {
    }

    /// The event profile that stands in for a missing one asks for no less profit than
    /// the settings it is derived from, and is no quicker to cancel.
    pub proof fn law_derived_event_profile_is_stricter(&self)
        requires
            self.event_mode is None,
            self.valid(),
        ensures
            self.profit_rate_bps.at_most(self.event_profile().profit_rate_bps),
            self.profit_cancel_threshold_bps.at_most(
                self.event_profile().profit_cancel_threshold_bps,
            ),
            self.event_profile().order_refresh_interval_secs >= self.order_refresh_interval_secs,
            self.event_profile().order_refresh_interval_secs >= 30,
            self.event_profile().order_notional_usd == self.order_notional_usd,
    {
        assert(!self.violates(ConfigError::ProfitRate));
        assert(!self.violates(ConfigError::ProfitCancelThreshold));
        vstd::arithmetic::power2::lemma_pow2_pos(1074);
        arithmetic::lemma_whole_exact(10);
        arithmetic::lemma_whole_exact(2);
        arithmetic::lemma_sum_no_smaller(self.profit_rate_bps, Double::whole_number(10));
        arithmetic::lemma_sum_no_smaller(
            self.profit_cancel_threshold_bps,
            Double::whole_number(2),
        );
    }

    /// Without a normal profile of its own, the checks on the fields that stand in for
    /// it are the checks on the profile.
    pub proof fn law_plain_normal_profile(&self)
        requires
            self.normal_mode is None,
        ensures
            self.violates(ConfigError::NormalMode(ModeError::ProfitRate)) == self.violates(
                ConfigError::ProfitRate,
            ),
            self.violates(ConfigError::NormalMode(ModeError::OrderNotional)) == self.violates(
                ConfigError::OrderNotional,
            ),
            self.violates(ConfigError::NormalMode(ModeError::ProfitCancelThreshold))
                == self.violates(ConfigError::ProfitCancelThreshold),
            self.violates(ConfigError::NormalMode(ModeError::OrderRefreshInterval))
                == self.violates(ConfigError::OrderRefreshInterval),
    {
    }
}

} // verus!
