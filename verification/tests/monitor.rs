use xemm_rust::bot::{ActiveOrder, BotState, BotStatus};
use xemm_rust::clock::Moment;
use xemm_rust::connector::maker::{MakerOpenOrder, MakerOrderSide};
use xemm_rust::double::Double;
use xemm_rust::services::order_monitor::{
    check_for_fills, hedge_price, may_cancel, profit_change, sync_atomic_status,
    update_order_snapshot, AgeReason, AtomicBotStatus, CancelRequest, CancelStep,
    CancellationHandler, FillCheckResult, OrderMonitor, OrderSnapshot, SharedOrderSnapshot,
};
use xemm_rust::strategy::OrderSide;

fn d(x: f64) -> Double {
    Double::from_bits(x.to_bits())
}

fn at(secs: u64) -> Moment {
    Moment { nanos: 0 }.plus_secs(secs)
}

fn snapshot(id: &str) -> OrderSnapshot {
    OrderSnapshot {
        client_order_id: id.to_string(),
        side: OrderSide::Buy,
        price: d(20.0),
        size: d(1.0),
        initial_profit_bps: d(15.0),
        placed_at: at(0),
        profit_cancel_threshold_bps: d(3.0),
        order_refresh_interval_secs: 60,
    }
}

fn is_age(r: &Option<CancelRequest>) -> bool {
    matches!(r, Some(CancelRequest::AgeExpiry { .. }))
}

#[test]
fn nothing_to_judge() {
    let mut m = OrderMonitor::new();
    let s = Some(snapshot("a"));
    assert!(!m.turn_to(0, &s, d(1.0), d(1.0)));
    assert!(!m.turn_to(1, &None, d(1.0), d(1.0)));
    assert!(!m.turn_to(1, &s, d(0.0), d(1.0)));
    assert!(!m.turn_to(1, &s, d(1.0), d(-0.0)));
    assert!(m.turn_to(1, &s, d(1.0), d(1.0)));
}

#[test]
fn dropped_profit_cancels() {
    let mut m = OrderMonitor::new();
    let s = snapshot("a");
    assert!(m.judge("SOL", &s, d(12.0), at(1)).is_none());
    assert!(m.judge("SOL", &s, d(40.0), at(1)).is_none());
    match m.judge("SOL", &s, d(11.5), at(1)) {
        Some(CancelRequest::ProfitDeviation {
            symbol,
            current_profit_bps,
            deviation_bps,
            client_order_id,
            placed_at,
        }) => {
            assert_eq!(symbol, "SOL");
            assert_eq!(current_profit_bps, d(11.5));
            assert_eq!(deviation_bps, d(3.5));
            assert_eq!(client_order_id, "a");
            assert_eq!(placed_at, at(0));
        }
        other => panic!("{:?}", other),
    }
}

#[test]
fn old_order_waits_for_the_grace_and_is_cancelled_once() {
    let mut m = OrderMonitor::new();
    let s = snapshot("a");
    assert!(m.turn_to(1, &Some(s.clone()), d(1.0), d(1.0)));
    assert!(m.judge("SOL", &s, d(0.0), at(60)).is_some()); // profit, not age
    assert!(m.judge("SOL", &s, d(0.0), at(61)).is_none());
    assert!(m.judge("SOL", &s, d(0.0), at(63)).is_none());
    // Hardly moved: keep waiting
    assert!(m.judge("SOL", &s, d(5.0), at(64)).is_none());
    match m.judge("SOL", &s, d(4.0), at(64)) {
        Some(CancelRequest::AgeExpiry { reason, .. }) => assert_eq!(
            reason,
            AgeReason::Threshold {
                threshold_secs: 60,
                age_ms: 64_000,
                deviation_bps: d(11.0),
            }
        ),
        other => panic!("{:?}", other),
    }
    assert!(m.judge("SOL", &s, d(-50.0), at(500)).is_none());
    // A new order starts afresh
    assert!(m.turn_to(1, &Some(snapshot("b")), d(1.0), d(1.0)));
    assert!(m.judge("SOL", &snapshot("b"), d(-50.0), at(500)).is_none());
    assert!(is_age(&m.judge("SOL", &snapshot("b"), d(-50.0), at(503))));
}

#[test]
fn hard_cap() {
    let mut m = OrderMonitor::new();
    let s = snapshot("a");
    m.judge("SOL", &s, d(15.0), at(100));
    assert!(m.judge("SOL", &s, d(15.0), at(179)).is_none());
    match m.judge("SOL", &s, d(15.0), at(180)) {
        Some(CancelRequest::AgeExpiry { reason, .. }) => assert_eq!(
            reason,
            AgeReason::HardCap { cap_secs: 180, age_ms: 180_000, deviation_bps: d(0.0) }
        ),
        other => panic!("{:?}", other),
    }
}

fn request(id: &str, placed: Moment) -> CancelRequest {
    CancelRequest::ProfitDeviation {
        symbol: "SOL".to_string(),
        current_profit_bps: d(0.0),
        deviation_bps: d(0.0),
        client_order_id: id.to_string(),
        placed_at: placed,
    }
}

#[test]
fn requests_are_checked() {
    let mut h = CancellationHandler::new();
    let s = Some(snapshot("a"));
    let r = request("a", at(0));
    assert_eq!(r.symbol(), "SOL");
    assert_eq!(h.take_up(at(1), 1, &s, &r), CancelStep::CheckFills);
    assert_eq!(h.take_up(at(1), 2, &s, &r), CancelStep::StatusChanged);
    assert_eq!(h.take_up(at(1), 1, &None, &r), CancelStep::NoOrder);
    assert_eq!(h.take_up(at(1), 1, &s, &request("b", at(0))), CancelStep::Stale);
    assert_eq!(h.take_up(at(1), 1, &s, &request("a", at(9))), CancelStep::Stale);
    assert!(!h.failed("broken pipe", at(1)));
    assert_eq!(h.take_up(at(1), 1, &s, &r), CancelStep::CheckFills);
    assert!(h.failed("HTTP 429", at(1)));
    assert_eq!(h.take_up(at(1), 1, &s, &r), CancelStep::BackingOff);
    assert_eq!(h.take_up(at(2), 1, &s, &r), CancelStep::CheckFills);
}

fn active(id: &str) -> ActiveOrder {
    ActiveOrder {
        client_order_id: id.to_string(),
        exchange_order_id: None,
        symbol: "SOL".to_string(),
        side: OrderSide::Buy,
        price: d(20.0),
        size: d(1.0),
        initial_profit_bps: d(15.0),
        placed_at: at(0),
    }
}

#[test]
fn cancelled_order_is_released() {
    let mut h = CancellationHandler::new();
    let mut bot = BotState::new();
    let mut status = 1u8;
    let mut shared = SharedOrderSnapshot::new();
    shared.set(Some(snapshot("a")));
    bot.set_active_order(active("a"));
    assert!(!h.cancelled(&mut bot, &mut status, &mut shared, &request("b", at(0)), at(5)));
    assert_eq!(status, 1);
    assert!(shared.get().is_some());
    assert!(h.cancelled(&mut bot, &mut status, &mut shared, &request("a", at(0)), at(5)));
    assert_eq!(status, 0);
    assert!(shared.get().is_none());
    assert!(bot.is_idle());
    assert!(bot.pending_orders[0].cancel_requested);
    assert_eq!(bot.last_cancellation_time, Some(at(5)));
    // A filled order stays as it is
    bot.set_active_order(active("a"));
    bot.mark_filled(d(1.0), OrderSide::Buy);
    assert!(!h.cancelled(&mut bot, &mut status, &mut shared, &request("a", at(0)), at(6)));
    assert!(matches!(bot.status, BotStatus::Filled));
}

fn open(id: &str, filled: f64) -> MakerOpenOrder {
    MakerOpenOrder {
        order_id: None,
        client_order_id: id.to_string(),
        symbol: "SOL".to_string(),
        side: MakerOrderSide::Buy,
        price: d(20.0),
        initial_amount: d(1.0),
        filled_amount: d(filled),
    }
}

#[test]
fn fills_are_looked_for() {
    let listed = Ok(vec![open("a", 0.0), open("b", 0.5), open("b", 0.0)]);
    let r = check_for_fills(&listed, "a");
    assert!(matches!(r, FillCheckResult::NoFills) && may_cancel(&r));
    let r = check_for_fills(&listed, "b");
    assert!(matches!(r, FillCheckResult::HasFills(x) if x == d(0.5)) && !may_cancel(&r));
    let r = check_for_fills(&listed, "c");
    assert!(matches!(r, FillCheckResult::NotFound) && !may_cancel(&r));
    let r = check_for_fills(&Err("down".to_string()), "a");
    assert!(matches!(&r, FillCheckResult::CheckFailed(m) if m == "down") && may_cancel(&r));
}

#[test]
fn numbers_and_snapshots() {
    let mut cell = 9u8;
    for (s, n) in [
        (BotStatus::Idle, 0),
        (BotStatus::OrderPlaced, 1),
        (BotStatus::Filled, 2),
        (BotStatus::Hedging, 3),
        (BotStatus::Complete, 4),
        (BotStatus::Error(String::new()), 5),
    ] {
        sync_atomic_status(&mut cell, &s);
        assert_eq!(cell, n);
        assert_eq!(AtomicBotStatus::from(&s).code(), n);
    }
    let mut shared = SharedOrderSnapshot::new();
    update_order_snapshot(
        &mut shared,
        "a".to_string(),
        OrderSide::Sell,
        d(1.0),
        d(2.0),
        d(3.0),
        at(4),
        d(5.0),
        6,
    );
    let s = shared.get().unwrap();
    assert_eq!(s.client_order_id, "a");
    assert_eq!((s.price, s.size, s.initial_profit_bps), (d(1.0), d(2.0), d(3.0)));
    assert_eq!(s.order_refresh_interval_secs, 6);
    assert_eq!(hedge_price(OrderSide::Buy, d(1.0), d(2.0)), d(1.0));
    assert_eq!(hedge_price(OrderSide::Sell, d(1.0), d(2.0)), d(2.0));
    assert_eq!(profit_change(&s, d(7.5)), d(4.5));
}
