use xemm_rust::config::{Config, ConfigError, ModeError, ModeTradingConfig, StrategyMode};
use xemm_rust::connector::maker::MakerExchangeKind;
use xemm_rust::double::Double;

fn d(x: f64) -> Double {
    Double::from_bits(x.to_bits())
}

fn f(x: Double) -> f64 {
    f64::from_bits(x.to_bits())
}

#[test]
fn test_default_config() {
    let config = Config::default();
    assert_eq!(config.maker_exchange, "pacifica");
    assert_eq!(config.symbol, "SOL");
    assert_eq!(config.agg_level, 1);
    assert_eq!(config.reconnect_attempts, 5);
    assert_eq!(config.ping_interval_secs, 15);
}

#[test]
fn test_config_validation() {
    let mut config = Config::default();
    assert!(config.validate().is_ok());

    // Test invalid aggregation level
    config.agg_level = 3;
    assert!(config.validate().is_err());

    // Test invalid ping interval
    config.agg_level = 1;
    config.ping_interval_secs = 0;
    assert!(config.validate().is_err());

    config.ping_interval_secs = 60;
    assert!(config.validate().is_err());
}

#[test]
fn test_financial_param_validation() {
    let mut config = Config::default();

    // Negative fee should fail
    config.pacifica_maker_fee_bps = d(-1.0);
    assert!(config.validate().is_err());
    config.pacifica_maker_fee_bps = d(1.5);

    // Zero profit rate should fail
    config.profit_rate_bps = d(0.0);
    assert!(config.validate().is_err());
    config.profit_rate_bps = d(15.0);

    // Zero notional should fail
    config.order_notional_usd = d(0.0);
    assert!(config.validate().is_err());
    config.order_notional_usd = d(20.0);

    // Slippage out of range should fail
    config.hyperliquid_slippage = d(0.5);
    assert!(config.validate().is_err());
    config.hyperliquid_slippage = d(0.0);
    assert!(config.validate().is_err());
    config.hyperliquid_slippage = d(0.05);

    // Valid config should pass
    assert!(config.validate().is_ok());
}

#[test]
fn default_values() {
    let c = Config::default();
    assert_eq!(f(c.pacifica_maker_fee_bps), 1.5);
    assert_eq!(f(c.hyperliquid_taker_fee_bps), 4.0);
    assert_eq!(c.strategy_mode, StrategyMode::Dual);
    assert_eq!(f(c.profit_rate_bps), 15.0);
    assert_eq!(f(c.order_notional_usd), 20.0);
    assert_eq!(f(c.profit_cancel_threshold_bps), 3.0);
    assert_eq!(c.order_refresh_interval_secs, 60);
    assert_eq!(f(c.event_trigger_mid_spread_bps), 100.0);
    assert_eq!(f(c.event_trigger_hl_spread_bps), 4.0);
    assert_eq!(c.event_rearm_cooldown_secs, 120);
    assert!(c.continuous_mode);
    assert_eq!(c.evaluation_loop_interval_ms, 50);
    assert_eq!(c.order_failure_cooldown_ms, 1500);
    assert_eq!(c.post_only_reject_cooldown_ms, 6000);
    assert!(!c.enable_exit_rebalance);
    assert_eq!(f(c.exit_rebalance_min_abs_position), 0.01);
    assert_eq!(f(c.hyperliquid_slippage), 0.05);
    assert_eq!(c.pacifica_active_order_rest_poll_interval_ms, 500);
    assert_eq!(f(c.normal_mode_config().funding_adverse_threshold_bps), -2.0);
}

#[test]
fn symbols_fall_back() {
    let mut c = Config::default();
    assert_eq!(c.maker_symbol_str(), "SOL");
    assert_eq!(c.hedge_symbol_str(), "SOL");
    c.maker_symbol = Some("CLUSDT".to_string());
    c.hedge_symbol = Some("xyz:CL".to_string());
    assert_eq!(c.maker_symbol_str(), "CLUSDT");
    assert_eq!(c.hedge_symbol_str(), "xyz:CL");
    assert_eq!(c.maker_kind(), Some(MakerExchangeKind::Pacifica));
    c.maker_exchange = "BiNance".to_string();
    assert_eq!(c.maker_kind(), Some(MakerExchangeKind::Binance));
    assert_eq!(c.maker_kind().unwrap().name(), "Binance");
}

#[test]
fn profiles() {
    let mut c = Config::default();
    let n = c.normal_mode_config();
    assert_eq!(f(n.profit_rate_bps), 15.0);
    assert_eq!(n.order_refresh_interval_secs, 60);
    assert_eq!(n.spread_window_secs, 1800);
    let e = c.event_mode_config();
    assert_eq!(f(e.profit_rate_bps), 25.0);
    assert_eq!(f(e.profit_cancel_threshold_bps), 5.0);
    assert_eq!(e.order_refresh_interval_secs, 60);
    c.profit_rate_bps = d(100.0);
    c.order_refresh_interval_secs = 10;
    let e = c.event_mode_config();
    assert_eq!(f(e.profit_rate_bps), 100.0 * 1.6);
    assert_eq!(e.order_refresh_interval_secs, 30);
    let own = ModeTradingConfig { profit_rate_bps: d(7.0), ..e };
    c.event_mode = Some(own);
    c.normal_mode = Some(own);
    assert_eq!(c.event_mode_config(), own);
    assert_eq!(c.normal_mode_config(), own);
}

fn error_after(change: fn(&mut Config)) -> ConfigError {
    let mut c = Config::default();
    change(&mut c);
    c.validate().unwrap_err()
}

#[test]
fn every_error() {
    assert_eq!(error_after(|c| c.symbol = String::new()), ConfigError::EmptySymbol);
    assert_eq!(
        error_after(|c| c.maker_symbol = Some(" ".to_string())),
        ConfigError::BlankMakerSymbol
    );
    assert_eq!(
        error_after(|c| c.hedge_symbol = Some("\t".to_string())),
        ConfigError::BlankHedgeSymbol
    );
    assert_eq!(error_after(|c| c.maker_exchange = "x".to_string()), ConfigError::MakerExchange);
    assert_eq!(error_after(|c| c.agg_level = 3), ConfigError::AggLevel);
    assert_eq!(error_after(|c| c.ping_interval_secs = 31), ConfigError::PingInterval);
    assert_eq!(error_after(|c| c.reconnect_attempts = 0), ConfigError::ReconnectAttempts);
    assert_eq!(error_after(|c| c.pacifica_maker_fee_bps = d(-0.1)), ConfigError::MakerFee);
    assert_eq!(error_after(|c| c.hyperliquid_taker_fee_bps = d(f64::NAN)), ConfigError::TakerFee);
    assert_eq!(error_after(|c| c.hyperliquid_slippage = d(0.5)), ConfigError::Slippage);
    assert_eq!(error_after(|c| c.profit_rate_bps = d(500.5)), ConfigError::ProfitRate);
    assert_eq!(error_after(|c| c.order_notional_usd = d(1e7)), ConfigError::OrderNotional);
    assert_eq!(
        error_after(|c| c.profit_cancel_threshold_bps = d(-1.0)),
        ConfigError::ProfitCancelThreshold
    );
    assert_eq!(
        error_after(|c| c.order_refresh_interval_secs = 3601),
        ConfigError::OrderRefreshInterval
    );
    assert_eq!(
        error_after(|c| {
            let m = ModeTradingConfig { profit_rate_bps: d(0.0), ..c.normal_mode_config() };
            c.normal_mode = Some(m)
        }),
        ConfigError::NormalMode(ModeError::ProfitRate)
    );
    assert_eq!(
        error_after(|c| c.profit_rate_bps = d(495.0)),
        ConfigError::EventMode(ModeError::ProfitRate)
    );
    assert_eq!(
        error_after(|c| {
            let m = ModeTradingConfig { order_notional_usd: d(0.0), ..c.normal_mode_config() };
            c.event_mode = Some(m)
        }),
        ConfigError::EventMode(ModeError::OrderNotional)
    );
    assert_eq!(
        error_after(|c| c.profit_cancel_threshold_bps = d(499.0)),
        ConfigError::EventMode(ModeError::ProfitCancelThreshold)
    );
    assert_eq!(
        error_after(|c| {
            let m = ModeTradingConfig {
                order_refresh_interval_secs: 0,
                ..c.normal_mode_config()
            };
            c.event_mode = Some(m)
        }),
        ConfigError::EventMode(ModeError::OrderRefreshInterval)
    );
    assert_eq!(
        error_after(|c| c.event_trigger_mid_spread_bps = d(5000.5)),
        ConfigError::EventTriggerMidSpread
    );
    assert_eq!(
        error_after(|c| c.event_trigger_hl_spread_bps = d(0.0)),
        ConfigError::EventTriggerHlSpread
    );
    assert_eq!(
        error_after(|c| c.event_trigger_confirm_secs = 121),
        ConfigError::EventTriggerConfirm
    );
    assert_eq!(
        error_after(|c| c.event_rearm_cooldown_secs = 7201),
        ConfigError::EventRearmCooldown
    );
    assert_eq!(
        error_after(|c| c.evaluation_loop_interval_ms = 0),
        ConfigError::EvaluationLoopInterval
    );
    assert_eq!(
        error_after(|c| c.order_failure_cooldown_ms = 120_001),
        ConfigError::OrderFailureCooldown
    );
    assert_eq!(
        error_after(|c| c.post_only_reject_cooldown_ms = 120_001),
        ConfigError::PostOnlyRejectCooldown
    );
    assert_eq!(
        error_after(|c| c.exit_rebalance_entry_spread_bps = d(0.0)),
        ConfigError::ExitEntrySpread
    );
    assert_eq!(
        error_after(|c| c.exit_rebalance_exit_spread_bps = d(-1.0)),
        ConfigError::ExitSpread
    );
    assert_eq!(
        error_after(|c| c.exit_rebalance_exit_spread_bps = d(100.0)),
        ConfigError::ExitSpreadOrder
    );
    assert_eq!(error_after(|c| c.exit_rebalance_confirm_secs = 601), ConfigError::ExitConfirm);
    assert_eq!(error_after(|c| c.exit_rebalance_cooldown_secs = 3601), ConfigError::ExitCooldown);
    assert_eq!(
        error_after(|c| c.exit_rebalance_min_abs_position = d(1000.5)),
        ConfigError::ExitMinAbsPosition
    );
}

#[test]
fn plain_profile_is_checked_like_its_fields() {
    let mut c = Config::default();
    c.profit_rate_bps = d(0.0);
    assert_eq!(c.normal_mode_config().validate(), Err(ModeError::ProfitRate));
    assert_eq!(c.validate(), Err(ConfigError::ProfitRate));
    c.profit_rate_bps = d(1.0);
    assert_eq!(c.normal_mode_config().validate(), Ok(()));
}

#[test]
fn first_error_wins() {
    let e = error_after(|c| {
        c.agg_level = 3;
        c.ping_interval_secs = 0;
        c.exit_rebalance_cooldown_secs = 9999;
    });
    assert_eq!(e, ConfigError::AggLevel);
}
