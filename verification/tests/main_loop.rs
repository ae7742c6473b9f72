use xemm_rust::app::{
    entry_record, exit_record, is_open, is_post_only_reject_error, maker_limit_price,
    maker_side_to_strategy_side, plan_exit, profile_label, shutdown_result, signed_positions,
    spread_file_name, spread_history_file, start_up, symbol_pair, Entry, ExitLeg, Gate, OrderTerms,
    Quotes, Refusal, Step, TradingLoop,
};
use xemm_rust::bot::{BotState, BotStatus};
use xemm_rust::clock::{Moment, UtcTime};
use xemm_rust::config::{Config, ConfigError};
use xemm_rust::connector::maker::{
    is_pacifica_maker_fill, pacifica_positions, MakerExchangeKind, MakerOrderData, MakerOrderSide,
    MakerPosition, PacificaPositionRow,
};
use xemm_rust::double::Double;
use xemm_rust::services::order_monitor::SharedOrderSnapshot;
use xemm_rust::strategy::{EntryProfile, OrderSide};

fn d(x: f64) -> Double {
    Double::from_bits(x.to_bits())
}

fn f(x: Double) -> f64 {
    f64::from_bits(x.to_bits())
}

fn at(secs: u64) -> Moment {
    Moment { nanos: 0 }.plus_secs(secs)
}

fn quotes(maker_bid: f64, maker_ask: f64, hl_bid: f64, hl_ask: f64) -> Quotes {
    Quotes {
        maker_bid: d(maker_bid),
        maker_ask: d(maker_ask),
        hl_bid: d(hl_bid),
        hl_ask: d(hl_ask),
    }
}

#[test]
fn starting_up() {
    let mut c = Config::default();
    c.maker_exchange = "Binance".to_string();
    c.hedge_symbol = Some("xyz:CL".to_string());
    let s = start_up(&c).unwrap();
    assert_eq!(s.maker_symbol, "SOL");
    assert_eq!(s.hedge_symbol, "xyz:CL");
    assert_eq!(s.maker_kind, MakerExchangeKind::Binance);
    assert_eq!(s.event_mode, c.event_mode_config());
    assert_eq!(s.mode(EntryProfile::Event), c.event_mode_config());
    assert_eq!(s.mode(EntryProfile::Normal), c.normal_mode_config());
    assert_ne!(s.mode(EntryProfile::Normal), s.mode(EntryProfile::Event));
    c.maker_exchange = "nowhere".to_string();
    assert_eq!(start_up(&c).unwrap_err(), ConfigError::MakerExchange);
}

#[test]
fn names() {
    assert_eq!(symbol_pair("SOL", "xyz:CL"), "SOL|xyz:CL");
    assert_eq!(spread_history_file("SOLUSDT", "XYZ:CL"), "solusdt_xyz_cl_spread_history.csv");
    assert_eq!(spread_file_name("a", "b:c"), "a_b_c_spread_history.csv");
    assert_eq!(profile_label(EntryProfile::Normal), "normal");
    assert_eq!(profile_label(EntryProfile::Event), "event");
}

#[test]
fn post_only_messages() {
    assert!(is_post_only_reject_error("code -5022"));
    assert!(is_post_only_reject_error("Post Only order would match"));
    assert!(is_post_only_reject_error("POST-ONLY"));
    assert!(is_post_only_reject_error("could not be executed as maker"));
    assert!(!is_post_only_reject_error("insufficient margin"));
}

#[test]
fn gate() {
    let c = Config::default();
    let l = TradingLoop::new(&c, at(10));
    let mut bot = BotState::new();
    assert_eq!(l.gate(&bot, at(9)), Gate::Wait);
    assert_eq!(l.gate(&bot, at(10)), Gate::Go);
    bot.mark_filled(d(1.0), OrderSide::Buy);
    assert_eq!(l.gate(&bot, at(10)), Gate::Wait);
    bot.clear_active_order_at(at(10));
    assert_eq!(l.gate(&bot, at(12)), Gate::Wait);
    assert_eq!(l.gate(&bot, at(13)), Gate::Go);
    bot.mark_complete();
    assert_eq!(l.gate(&bot, at(13)), Gate::Stop);
}

#[test]
fn quotes_without_prices() {
    let c = Config::default();
    let mut l = TradingLoop::new(&c, at(0));
    for q in [
        quotes(0.0, 1.0, 1.0, 1.0),
        quotes(1.0, 0.0, 1.0, 1.0),
        quotes(1.0, 1.0, 0.0, 1.0),
        quotes(1.0, 1.0, 1.0, -0.0),
        quotes(1.0, 1.0, -3.0, 1.0),
    ] {
        assert_eq!(l.observe(&c, q, at(1)).step, Step::NoPrices);
    }
}

#[test]
fn normal_entries() {
    let c = Config::default();
    let mut l = TradingLoop::new(&c, at(0));
    let (mb, ma, hb, ha) = (20.0, 20.02, 19.99, 20.01);
    let o = l.observe(&c, quotes(mb, ma, hb, ha), at(1));
    let (maker_mid, hl_mid) = ((mb + ma) / 2.0, (hb + ha) / 2.0);
    assert_eq!(f(o.mid_spread_bps), ((maker_mid - hl_mid) / hl_mid) * 10000.0);
    assert_eq!(f(o.hl_spread_bps), ((ha - hb) / hl_mid) * 10000.0);
    assert_eq!(
        o.step,
        Step::Enter(Entry {
            profile: EntryProfile::Normal,
            direction_filter: None,
            maker_mid: d(maker_mid),
        })
    );
}

/// 2% above the hedge exchange, whose book is 10 bps wide.
fn far() -> Quotes {
    quotes(102.0, 102.0, 99.95, 100.05)
}

fn near() -> Quotes {
    quotes(100.1, 100.1, 99.95, 100.05)
}

#[test]
fn event_with_flattening() {
    let mut c = Config::default();
    c.enable_exit_rebalance = true;
    let mut l = TradingLoop::new(&c, at(0));
    l.observe(&c, far(), at(1));
    let o = l.observe(&c, far(), at(3));
    assert!(o.event_started);
    match o.step {
        Step::Enter(e) => {
            assert_eq!(e.profile, EntryProfile::Event);
            assert_eq!(e.direction_filter, Some(OrderSide::Sell));
        }
        other => panic!("{:?}", other),
    }
    assert_eq!(l.observe(&c, near(), at(10)).step, Step::Hold);
    assert_eq!(l.observe(&c, near(), at(24)).step, Step::Hold);
    assert_eq!(l.observe(&c, near(), at(25)).step, Step::Flatten);
    l.exit_finished(&c, false, at(26));
    // The failed attempt is not repeated before the cooldown is over.
    assert_eq!(l.observe(&c, near(), at(30)).step, Step::Hold);
    assert_eq!(l.observe(&c, near(), at(100)).step, Step::Hold);
    assert_eq!(l.observe(&c, near(), at(146)).step, Step::Flatten);
    l.exit_finished(&c, true, at(146));
    let bot = BotState::new();
    assert_eq!(l.gate(&bot, at(147)), Gate::Wait);
    assert_eq!(l.gate(&bot, at(148)), Gate::Go);
    let o = l.observe(&c, near(), at(148));
    assert!(o.event_ended);
    assert!(matches!(o.step, Step::Enter(e) if e.profile == EntryProfile::Normal));
    // The next event waits for its cooldown.
    l.observe(&c, far(), at(200));
    assert!(!l.observe(&c, far(), at(260)).event_started);
    l.observe(&c, far(), at(266));
    assert!(l.observe(&c, far(), at(268)).event_started);
}

#[test]
fn flattening_waits_for_a_wide_spread() {
    let mut c = Config::default();
    c.enable_exit_rebalance = true;
    c.event_trigger_mid_spread_bps = d(50.0);
    c.exit_rebalance_confirm_secs = 5;
    let mut l = TradingLoop::new(&c, at(0));
    // 60 bps: an event, but not wide enough
    let medium = quotes(100.6, 100.6, 99.95, 100.05);
    l.observe(&c, medium, at(1));
    assert!(l.observe(&c, medium, at(3)).event_started);
    assert_eq!(l.observe(&c, near(), at(10)).step, Step::Hold);
    assert!(matches!(l.observe(&c, far(), at(14)).step, Step::Enter(_)));
    assert_eq!(l.observe(&c, near(), at(20)).step, Step::Hold);
    assert_eq!(l.observe(&c, near(), at(25)).step, Step::Flatten);
    l.exit_finished(&c, false, at(25));
    // Still armed for the next attempt
    assert_eq!(l.observe(&c, near(), at(140)).step, Step::Hold);
    assert_eq!(l.observe(&c, near(), at(145)).step, Step::Flatten);
}

#[test]
fn narrow_event_is_given_up() {
    let mut c = Config::default();
    c.enable_exit_rebalance = true;
    c.event_trigger_mid_spread_bps = d(50.0);
    c.exit_rebalance_confirm_secs = 5;
    let mut l = TradingLoop::new(&c, at(0));
    let medium = quotes(100.6, 100.6, 99.95, 100.05);
    l.observe(&c, medium, at(1));
    assert!(l.observe(&c, medium, at(3)).event_started);
    assert_eq!(l.observe(&c, near(), at(10)).step, Step::Hold);
    let o = l.observe(&c, near(), at(15));
    assert_eq!(o.step, Step::Hold);
    assert!(o.event_released);
    let o = l.observe(&c, near(), at(16));
    assert!(o.event_ended);
    assert!(matches!(o.step, Step::Enter(e) if e.profile == EntryProfile::Normal));
}

#[test]
fn event_without_flattening() {
    let mut c = Config::default();
    c.exit_rebalance_confirm_secs = 0;
    let mut l = TradingLoop::new(&c, at(0));
    l.observe(&c, far(), at(1));
    assert!(l.observe(&c, far(), at(3)).event_started);
    let o = l.observe(&c, near(), at(4));
    assert!(o.event_released);
    assert!(matches!(o.step, Step::Enter(e) if e.profile == EntryProfile::Event));
    assert!(l.observe(&c, near(), at(5)).event_ended);
    let c = Config::default();
    let mut l = TradingLoop::new(&c, at(0));
    l.observe(&c, far(), at(1));
    l.observe(&c, far(), at(3));
    assert!(!l.observe(&c, near(), at(4)).event_released);
    assert!(!l.observe(&c, near(), at(18)).event_released);
    // A wide spread in between starts the time anew
    assert!(!l.observe(&c, far(), at(19)).event_released);
    assert!(!l.observe(&c, near(), at(20)).event_released);
    assert!(!l.observe(&c, near(), at(34)).event_released);
    assert!(l.observe(&c, near(), at(35)).event_released);
    assert!(l.observe(&c, near(), at(36)).event_ended);
    // No other event before the cooldown
    let after = 35 + c.event_rearm_cooldown_secs;
    for secs in 37..after {
        assert!(!l.observe(&c, far(), at(secs)).event_started);
    }
}

fn data(order_id: Option<&str>, client: Option<&str>) -> MakerOrderData {
    MakerOrderData {
        order_id: order_id.map(|s| s.to_string()),
        client_order_id: client.map(|s| s.to_string()),
        symbol: None,
    }
}

fn terms() -> OrderTerms {
    OrderTerms {
        side: OrderSide::Sell,
        price: d(20.5),
        size: d(2.0),
        initial_profit_bps: d(16.0),
    }
}

#[test]
fn accepted_orders() {
    let c = Config::default();
    let profile = c.normal_mode_config();
    let mut l = TradingLoop::new(&c, at(0));
    let mut bot = BotState::new();
    let (mut status, mut shared) = (0u8, SharedOrderSnapshot::new());
    let ok = l.order_accepted(
        &c, &mut bot, &mut status, &mut shared, "SOL", &data(Some("9"), None), terms(), &profile,
        at(5),
    );
    assert!(ok);
    let o = bot.active_order.as_ref().unwrap();
    assert_eq!(o.client_order_id, "9");
    assert_eq!(o.exchange_order_id.as_deref(), Some("9"));
    assert_eq!(o.placed_at, at(5));
    assert_eq!(status, 1);
    let s = shared.get().unwrap();
    assert_eq!(s.client_order_id, "9");
    assert_eq!(s.order_refresh_interval_secs, 60);
    assert_eq!(l.gate(&bot, at(100)), Gate::Wait);
    let mut bot = BotState::new();
    let ok = l.order_accepted(
        &c, &mut bot, &mut status, &mut shared, "SOL", &data(None, None), terms(), &profile, at(5),
    );
    assert!(!ok);
    assert!(bot.is_idle());
    assert_eq!(l.gate(&bot, at(5).plus_millis(1499)), Gate::Wait);
    assert_eq!(l.gate(&bot, at(5).plus_millis(1500)), Gate::Go);
}

#[test]
fn refused_orders() {
    let c = Config::default();
    let mut l = TradingLoop::new(&c, at(0));
    let bot = BotState::new();
    assert_eq!(
        l.order_refused(&c, "insufficient margin", at(10)),
        Refusal::Other { cooldown_ms: 1500 }
    );
    assert_eq!(l.gate(&bot, at(11)), Gate::Wait);
    assert_eq!(l.gate(&bot, at(12)), Gate::Go);
    assert_eq!(
        l.order_refused(&c, "-5022 post only", at(20)),
        Refusal::PostOnly { cooldown_ms: 6000 }
    );
    assert_eq!(l.gate(&bot, at(25)), Gate::Wait);
    assert_eq!(l.gate(&bot, at(26)), Gate::Go);
    for (n, secs) in [(0u64, 1u64), (1, 2), (2, 4)] {
        let t = at(100 + 50 * n);
        assert_eq!(l.order_refused(&c, "429", t), Refusal::RateLimit { backoff_secs: secs });
        assert!(l.remaining_backoff_nanos(t) == secs * 1_000_000_000);
        assert_eq!(l.gate(&bot, t.plus_secs(secs - 1)), Gate::Wait);
        assert_eq!(l.gate(&bot, t.plus_secs(secs)), Gate::Go);
    }
}

#[test]
fn passive_prices() {
    let (bid, ask) = (d(20.0), d(20.1));
    assert_eq!(maker_limit_price(OrderSide::Buy, d(20.05), bid, ask), bid);
    assert_eq!(maker_limit_price(OrderSide::Buy, d(19.9), bid, ask), d(19.9));
    assert_eq!(maker_limit_price(OrderSide::Sell, d(20.05), bid, ask), ask);
    assert_eq!(maker_limit_price(OrderSide::Sell, d(20.3), bid, ask), d(20.3));
    assert!(is_open(None, OrderSide::Buy));
    assert!(is_open(Some(OrderSide::Buy), OrderSide::Buy));
    assert!(!is_open(Some(OrderSide::Sell), OrderSide::Buy));
}

#[test]
fn flattening() {
    let c = Config::default();
    let q = quotes(20.0, 20.1, 19.9, 20.2);
    assert!(plan_exit(&c, d(0.005), d(-0.009), q).is_none());
    let p = plan_exit(&c, d(2.0), d(-1.5), q).unwrap();
    assert_eq!(
        p.maker,
        Some(ExitLeg { side: OrderSide::Sell, size: d(2.0), price_hint: d(20.0) })
    );
    assert_eq!(
        p.hedge,
        Some(ExitLeg { side: OrderSide::Buy, size: d(1.5), price_hint: d(20.2) })
    );
    let p = plan_exit(&c, d(-2.0), d(0.0), q).unwrap();
    assert_eq!(p.maker.unwrap().side, OrderSide::Buy);
    assert_eq!(p.maker.unwrap().price_hint, d(20.1));
    assert!(p.hedge.is_none());
    let r = exit_record(
        &UtcTime::at(0, 0).unwrap(),
        "SOL",
        "Hyperliquid",
        &p.maker.unwrap(),
        None,
        None,
    );
    assert_eq!(r.side, "BUY");
    assert_eq!(r.source, "exit_rebalance_market_flatten");
    assert_eq!(r.notional_usd, d(2.0 * 20.1));
}

#[test]
fn records_of_entries() {
    let t = UtcTime::at(1_700_000_000, 0).unwrap();
    let r = entry_record(
        &t,
        "SOL",
        MakerExchangeKind::Pacifica,
        terms(),
        &data(Some("9"), Some("c")),
        EntryProfile::Event,
    );
    assert_eq!(r.timestamp, "2023-11-14T22:13:20+00:00");
    assert_eq!(r.maker_exchange, "Pacifica");
    assert_eq!(r.client_order_id.as_deref(), Some("c"));
    assert_eq!(r.order_id.as_deref(), Some("9"));
    assert_eq!(r.source, "main_loop_limit_order_event");
    assert_eq!(r.notional_usd, d(41.0));
}

#[test]
fn positions_are_signed() {
    let p = |side: MakerOrderSide, amount: f64| MakerPosition {
        symbol: "SOL".to_string(),
        side,
        amount: d(amount),
    };
    let maker = vec![p(MakerOrderSide::Buy, 3.0), p(MakerOrderSide::Sell, 1.25)];
    let hedge = vec![
        ("ETH".to_string(), Some(d(7.0))),
        ("SOL".to_string(), Some(d(-2.0))),
        ("SOL".to_string(), Some(d(9.0))),
    ];
    assert_eq!(signed_positions(&maker, &hedge, "SOL"), (d(1.75), d(-2.0)));
    assert_eq!(signed_positions(&Vec::new(), &hedge, "BTC"), (d(0.0), d(0.0)));
    let bad = vec![("SOL".to_string(), None)];
    assert_eq!(signed_positions(&Vec::new(), &bad, "SOL").1, d(0.0));
    let row = |symbol: &str, side: &str, amount: f64| PacificaPositionRow {
        symbol: symbol.to_string(),
        side: side.to_string(),
        amount: d(amount),
    };
    let rows = vec![row("SOL", "bid", 2.0), row("SOL", "ask", 0.0), row("ETH", "ask", 1.0)];
    let listed = pacifica_positions(&rows, Some("SOL"));
    assert_eq!(listed.len(), 1);
    assert_eq!(listed[0].side, MakerOrderSide::Buy);
    let all = pacifica_positions(&rows, None);
    assert_eq!(all.len(), 2);
    assert_eq!(all[1].signed_amount(), d(-1.0));
    assert!(is_pacifica_maker_fill("fulfill_maker"));
    assert!(!is_pacifica_maker_fill("fulfill_taker"));
}

#[test]
fn sides_convert() {
    for side in [OrderSide::Buy, OrderSide::Sell] {
        assert_eq!(maker_side_to_strategy_side(MakerOrderSide::from_strategy_side(side)), side);
    }
    assert_eq!(MakerOrderSide::Buy.as_str(), "buy");
    assert_eq!(MakerOrderSide::Sell.as_str(), "sell");
    assert_eq!(MakerOrderSide::from_pacifica("bid"), MakerOrderSide::Buy);
    assert_eq!(MakerOrderSide::from_pacifica("ask"), MakerOrderSide::Sell);
}

#[test]
fn shutting_down() {
    assert_eq!(shutdown_result(&BotStatus::Complete), Ok(()));
    assert_eq!(shutdown_result(&BotStatus::OrderPlaced), Ok(()));
    assert_eq!(
        shutdown_result(&BotStatus::Error("x".to_string())),
        Err("Bot failed: x".to_string())
    );
}
