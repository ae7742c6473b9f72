use xemm_rust::bot::{ActiveOrder, BotState, BotStatus, PendingOrder};
use xemm_rust::clock::{Clock, Moment};
use xemm_rust::double::Double;
use xemm_rust::strategy::OrderSide;

fn d(x: f64) -> Double {
    Double::from_bits(x.to_bits())
}

fn f(x: Double) -> f64 {
    f64::from_bits(x.to_bits())
}

fn order(client: &str, exchange: Option<&str>, symbol: &str) -> ActiveOrder {
    ActiveOrder {
        client_order_id: client.to_string(),
        exchange_order_id: exchange.map(|s| s.to_string()),
        symbol: symbol.to_string(),
        side: OrderSide::Buy,
        price: d(20.0),
        size: d(1.0),
        initial_profit_bps: d(15.0),
        placed_at: Moment { nanos: 0 },
    }
}

fn ids(v: &[PendingOrder]) -> Vec<&str> {
    v.iter().map(|p| p.order.client_order_id.as_str()).collect()
}

#[test]
fn fresh_state() {
    let s = BotState::new();
    assert!(s.is_idle() && s.is_idle_fast());
    assert!(!s.is_terminal());
    assert_eq!(s.get_status_atomic(), 0);
    assert!(s.grace_period_elapsed(1000));
    assert_eq!(f(s.position), 0.0);
    assert!(BotState::default().is_idle());
}

#[test]
fn status_and_its_number_agree() {
    let mut s = BotState::with_clock(Clock::start());
    s.set_active_order(order("a", Some("1"), "SOL"));
    assert_eq!(s.get_status_atomic(), 1);
    assert!(s.has_active_order_fast() && !s.is_idle_fast());
    s.mark_filled(d(1.5), OrderSide::Buy);
    assert_eq!(s.get_status_atomic(), 2);
    s.mark_filled(d(0.5), OrderSide::Sell);
    assert_eq!(f(s.position), 1.0);
    s.mark_hedging();
    assert_eq!(s.get_status_atomic(), 3);
    s.mark_complete();
    assert_eq!(s.get_status_atomic(), 4);
    assert!(s.is_terminal());
    assert!(s.active_order.is_none() && s.pending_orders.is_empty());
    s.set_error("boom".to_string());
    assert_eq!(s.get_status_atomic(), 5);
    assert!(s.is_terminal());
    assert_eq!(s.status.code(), 5);
    assert!(matches!(s.status.clone(), BotStatus::Error(m) if m == "boom"));
    assert!(s.status == BotStatus::Error("boom".to_string()));
    assert!(s.status != BotStatus::Error("bang".to_string()));
    s.mark_cycle_complete_continue();
    assert!(s.status == BotStatus::Idle);
    assert!(s.is_idle());
    assert!(s.last_cancellation_time.is_none());
}

#[test]
fn placed_order_is_found() {
    let mut s = BotState::new();
    s.set_active_order(order("a", Some("1"), "SOL"));
    s.mark_cancel_requested_for_symbol("sol");
    s.set_active_order(order("b", Some("1"), "SOL"));
    assert_eq!(ids(&s.pending_orders), vec!["b"]);
    assert!(!s.pending_orders[0].cancel_requested);
    s.upsert_pending_order(order("c", None, "ETH"));
    assert_eq!(s.find_pending_order(Some("c"), None).unwrap().order.symbol, "ETH");
    assert_eq!(s.find_pending_order(None, Some("1")).unwrap().order.client_order_id, "b");
    assert!(s.find_pending_order(Some("x"), Some("9")).is_none());
    assert!(s.find_pending_order(None, None).is_none());
    assert!(!s.pending_orders[1].matches_ids(None, Some("9")));
}

#[test]
fn removing_undoes_tracking() {
    let mut s = BotState::new();
    s.upsert_pending_order(order("a", None, "SOL"));
    s.upsert_pending_order(order("b", Some("2"), "SOL"));
    s.upsert_pending_order(order("c", None, "SOL"));
    let gone = s.remove_pending_order(None, Some("2")).unwrap();
    assert_eq!(gone.order.client_order_id, "b");
    assert_eq!(ids(&s.pending_orders), vec!["a", "c"]);
    assert!(s.remove_pending_order(Some("b"), Some("2")).is_none());
    assert_eq!(s.pending_orders.len(), 2);
}

#[test]
fn symbols_are_kept_apart() {
    let mut s = BotState::new();
    for (c, sym) in [("a", "SOL"), ("b", "ETH"), ("c", "sol"), ("d", "BTC")] {
        s.upsert_pending_order(order(c, None, sym));
    }
    assert_eq!(ids(&s.pending_orders_for_symbol("Sol")), vec!["a", "c"]);
    s.mark_cancel_requested_for_symbol("SOL");
    let marked: Vec<bool> = s.pending_orders.iter().map(|p| p.cancel_requested).collect();
    assert_eq!(marked, vec![true, false, true, false]);
    s.clear_pending_orders_for_symbol("sOL");
    assert_eq!(ids(&s.pending_orders), vec!["b", "d"]);
    assert!(s.pending_orders_for_symbol("SOL").is_empty());
}

#[test]
fn grace_period() {
    let mut s = BotState::new();
    s.set_active_order(order("a", None, "SOL"));
    let t = Moment { nanos: 5_000_000_000 };
    s.clear_active_order_at(t);
    assert!(s.is_idle());
    assert_eq!(s.pending_orders.len(), 1);
    assert!(!s.grace_period_elapsed_at(t.plus_millis(2999), 3));
    assert!(s.grace_period_elapsed_at(t.plus_secs(3), 3));
    s.clear_active_order();
    assert!(!s.grace_period_elapsed(3600));
    assert!(s.grace_period_elapsed(0));
    let now = s.now();
    assert!(now.reached(&s.last_cancellation_time.unwrap()));
}
