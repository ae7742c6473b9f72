use xemm_rust::bot::{ActiveOrder, BotState, BotStatus};
use xemm_rust::clock::{Moment, UtcTime};
use xemm_rust::connector::maker::{MakerOpenOrder, MakerOrderSide, MakerTradeHistoryItem};
use xemm_rust::double::Double;
use xemm_rust::services::binance_fill_detection::{
    prepare_stream, stream_ended, symbol_matches, BinanceFillDetector, StreamAction, StreamTrade,
};
use xemm_rust::services::fill_detection::{
    handle_event, is_our_order, read_side, FillAction, FillEvent,
};
use xemm_rust::services::ledger::{Amounts, ProcessedFills};
use xemm_rust::services::order_monitor::SharedOrderSnapshot;
use xemm_rust::services::rest_fill_detection::{
    history_window, is_fill_already_processed, mark_fill_processed, open_order_matches_tracked,
    tracked_order_key, Finding, ListFailure, RestFillDetector, Round,
};
use xemm_rust::strategy::OrderSide;
use xemm_rust::util::api_health::BinanceApiHealth;

fn d(x: f64) -> Double {
    Double::from_bits(x.to_bits())
}

fn at(secs: u64) -> Moment {
    Moment { nanos: 0 }.plus_secs(secs)
}

fn order(client: &str, exchange: Option<&str>, size: f64) -> ActiveOrder {
    ActiveOrder {
        client_order_id: client.to_string(),
        exchange_order_id: exchange.map(|s| s.to_string()),
        symbol: "SOL".to_string(),
        side: OrderSide::Sell,
        price: d(20.0),
        size: d(size),
        initial_profit_bps: d(15.0),
        placed_at: at(0),
    }
}

fn open(client: &str, exchange: Option<&str>, initial: f64, filled: f64) -> MakerOpenOrder {
    MakerOpenOrder {
        order_id: exchange.map(|s| s.to_string()),
        client_order_id: client.to_string(),
        symbol: "SOL".to_string(),
        side: MakerOrderSide::Sell,
        price: d(20.0),
        initial_amount: d(initial),
        filled_amount: d(filled),
    }
}

#[test]
fn ledgers() {
    let mut p = ProcessedFills::new();
    assert!(!p.contains("a"));
    p.insert("a".to_string());
    p.insert("a".to_string());
    assert!(p.contains("a"));
    let mut m = Amounts::new();
    assert_eq!(m.get("x"), None);
    assert_eq!(m.get_or_zero("x"), d(0.0));
    m.insert("x", d(1.0));
    m.insert("y", d(2.0));
    m.insert("x", d(3.0));
    assert_eq!(m.get("x"), Some(d(3.0)));
    m.retain(&vec!["x".to_string(), "z".to_string()]);
    assert_eq!(m.get("y"), None);
    assert_eq!(m.get("x"), Some(d(3.0)));
    m.remove("x");
    m.remove("x");
    assert_eq!(m.get("x"), None);
    m.insert("x", d(1.0));
    m.clear();
    assert_eq!(m.get("x"), None);
}

#[test]
fn fill_names() {
    let mut p = ProcessedFills::new();
    mark_fill_processed(&mut p, Some("1"), Some("a"), false, "rest");
    assert!(!is_fill_already_processed(&p, Some("1"), Some("a")));
    assert!(p.contains("partial_1") && p.contains("partial_a"));
    assert!(p.contains("partial_1_rest") && p.contains("partial_a_rest"));
    mark_fill_processed(&mut p, None, Some("a"), true, "rest");
    assert!(is_fill_already_processed(&p, None, Some("a")));
    assert!(!is_fill_already_processed(&p, Some("1"), None));
    assert!(is_fill_already_processed(&p, Some("1"), Some("a")));
    assert!(!is_fill_already_processed(&p, None, None));
}

#[test]
fn orders_and_their_keys() {
    assert_eq!(tracked_order_key(&order("a", Some("1"), 1.0)), "1");
    assert_eq!(tracked_order_key(&order("a", None, 1.0)), "a");
    assert!(open_order_matches_tracked(&order("a", None, 1.0), &open("a", Some("9"), 1.0, 0.0)));
    assert!(open_order_matches_tracked(&order("a", Some("9"), 1.0), &open("b", Some("9"), 1.0, 0.0)));
    assert!(!open_order_matches_tracked(&order("a", None, 1.0), &open("b", None, 1.0, 0.0)));
    assert_eq!(history_window(1_000_000), (400_000, 1_000_000));
    assert_eq!(history_window(5), (0, 5));
}

fn detector() -> RestFillDetector {
    RestFillDetector::new("SOL".to_string(), d(10.0), 500)
}

#[test]
fn rounds_of_polling() {
    let mut det = detector();
    let mut bot = BotState::new();
    assert_eq!(det.poll_delay_ms(&bot), 1000);
    assert!(matches!(det.begin_round(&bot), Round::Nothing));
    bot.set_active_order(order("a", Some("1"), 5.0));
    assert_eq!(det.poll_delay_ms(&bot), 500);
    assert!(matches!(det.begin_round(&bot), Round::Look(v) if v.len() == 1));
    bot.mark_filled(d(1.0), OrderSide::Sell);
    bot.clear_pending_orders_for_symbol("SOL");
    assert_eq!(det.poll_delay_ms(&bot), 500);
    assert!(matches!(det.begin_round(&bot), Round::Nothing));
    bot.mark_complete();
    assert!(matches!(det.begin_round(&bot), Round::Pause));
}

#[test]
fn partial_fills_add_up_to_the_full_one() {
    let mut det = detector();
    let mut bot = BotState::new();
    let mut processed = ProcessedFills::new();
    let mut status = 1u8;
    bot.set_active_order(order("a", Some("1"), 5.0));
    let pending = bot.pending_orders_for_symbol("SOL").remove(0);
    let mut look = |det: &mut RestFillDetector, bot: &mut BotState, filled: f64| {
        det.examine(bot, &mut processed, &mut status, &pending, &vec![open("a", Some("1"), 5.0, filled)])
    };
    assert!(matches!(look(&mut det, &mut bot, 0.0), Finding::Nothing));
    // $8 is too little
    assert!(matches!(look(&mut det, &mut bot, 0.4), Finding::Nothing));
    // $16 in all: what is not hedged counts
    match look(&mut det, &mut bot, 0.8) {
        Finding::Hedge(x) => {
            assert_eq!((x.side, x.size, x.price), (OrderSide::Sell, d(0.8), d(20.0)));
            assert!(!x.is_full_fill);
            assert_eq!(x.source, "rest_fill_detection");
            assert_eq!(x.hedge_event(at(3)), (OrderSide::Sell, d(0.8), d(20.0), at(3)));
            let r = x.record(&UtcTime::at(0, 0).unwrap(), "SOL", "Binance");
            assert_eq!(r.side, "SELL");
            assert_eq!(r.fill_notional_usd, d(16.0));
            assert_eq!(r.client_order_id.as_deref(), Some("a"));
            assert_eq!(r.exchange_order_id.as_deref(), Some("1"));
        }
        other => panic!("{:?}", other),
    }
    assert!(matches!(bot.status, BotStatus::Filled));
    assert_eq!(bot.position, d(-0.8));
    assert_eq!(bot.pending_orders.len(), 1);
    assert!(matches!(look(&mut det, &mut bot, 0.8), Finding::Nothing));
    match look(&mut det, &mut bot, 5.0) {
        Finding::Hedge(x) => {
            assert_eq!(x.size, d(5.0 - 0.8));
            assert!(x.is_full_fill);
        }
        other => panic!("{:?}", other),
    }
    assert!(bot.pending_orders.is_empty());
    assert_eq!(bot.position, d(-0.8 - (5.0 - 0.8)));
    // Full fills are hedged once
    assert!(matches!(look(&mut det, &mut bot, 5.0), Finding::Nothing));
    assert_eq!(status, 2);
    let pending2 = pending.clone();
    assert!(matches!(
        det.examine(&mut bot, &mut ProcessedFills::new(), &mut status, &pending2, &Vec::new()),
        Finding::NotOpen
    ));
}

fn trade(order_id: &str, amount: f64, price: f64, maker: bool) -> MakerTradeHistoryItem {
    MakerTradeHistoryItem {
        order_id: Some(order_id.to_string()),
        client_order_id: None,
        symbol: "SOL".to_string(),
        amount: d(amount),
        entry_price: d(price),
        fee: d(0.0),
        is_maker_fill: maker,
        created_at_ms: 0,
    }
}

#[test]
fn fills_are_recovered_from_history() {
    let mut det = detector();
    let mut bot = BotState::new();
    let mut processed = ProcessedFills::new();
    let mut status = 1u8;
    let o = order("a", Some("1"), 5.0);
    bot.set_active_order(o.clone());
    assert!(det.wants_history(&processed, &o));
    assert!(!det.wants_history(&processed, &order("a", None, 5.0)));
    let few = vec![trade("1", 0.1, 20.0, true), trade("2", 9.0, 20.0, true)];
    assert!(det
        .recover_fill_via_trade_history(&mut bot, &mut processed, &mut status, &o, &few)
        .is_none());
    assert!(det
        .recover_fill_via_trade_history(&mut bot, &mut processed, &mut status, &o, &Vec::new())
        .is_none());
    assert_eq!(status, 1);
    let trades = vec![
        trade("1", 1.0, 20.0, true),
        trade("1", 3.0, 21.0, true),
        trade("1", 7.0, 1.0, false),
    ];
    let x = det.recover_fill_via_trade_history(&mut bot, &mut processed, &mut status, &o, &trades).unwrap();
    assert_eq!(x.size, d(4.0));
    assert_eq!(status, 2);
    assert_eq!(x.price, d((20.0 + 63.0) / 4.0));
    assert!(x.is_full_fill);
    assert_eq!(x.source, "rest_trade_history_recovery");
    assert!(bot.pending_orders.is_empty());
    assert!(bot.active_order.is_some());
    assert!(!det.wants_history(&processed, &o));
    assert!(det.recover_fill_via_trade_history(&mut bot, &mut processed, &mut status, &o, &trades).is_none());
}

#[test]
fn failures_to_list_orders() {
    let mut det = detector();
    let mut h = BinanceApiHealth::new();
    for errors in 1..5 {
        assert_eq!(det.listing_failed(&mut h, "timeout"), ListFailure::Failed { errors });
        assert!(h.rest_available);
    }
    assert_eq!(det.listing_failed(&mut h, "timeout"), ListFailure::Repeated { errors: 5 });
    assert!(!h.rest_available);
    det.listing_succeeded(&mut h);
    assert!(h.rest_available);
    assert_eq!(
        det.listing_failed(&mut h, "418: banned until 123"),
        ListFailure::RateLimited { backoff_secs: 1, banned_until_ms: Some(123) }
    );
    assert!(!h.rest_available);
    assert_eq!(h.banned_until_ms, 123);
    assert_eq!(
        det.listing_failed(&mut h, "rate limit"),
        ListFailure::RateLimited { backoff_secs: 2, banned_until_ms: None }
    );
    assert_eq!(h.banned_until_ms, 123);
}

fn full(id: Option<&str>, side: &str) -> FillEvent {
    FillEvent::FullFill {
        symbol: "SOL".to_string(),
        side: side.to_string(),
        filled_amount: d(2.0),
        avg_price: d(20.0),
        client_order_id: id.map(|s| s.to_string()),
    }
}

fn partial(id: &str, amount: f64) -> FillEvent {
    FillEvent::PartialFill {
        symbol: "SOL".to_string(),
        side: "ask".to_string(),
        filled_amount: d(amount),
        original_amount: d(5.0),
        avg_price: d(20.0),
        client_order_id: Some(id.to_string()),
    }
}

fn cancelled(id: &str) -> FillEvent {
    FillEvent::Cancelled { client_order_id: Some(id.to_string()), reason: "user".to_string() }
}

#[test]
fn streamed_fills() {
    let mut bot = BotState::new();
    let mut processed = ProcessedFills::new();
    let mut status = 1u8;
    let mut shared = SharedOrderSnapshot::new();
    bot.set_active_order(order("a", None, 5.0));
    let mut handle = |bot: &mut BotState, e: &FillEvent| {
        handle_event(bot, &mut processed, &mut status, &mut shared, e, at(7))
    };
    assert!(matches!(handle(&mut bot, &full(Some("x"), "sell")), FillAction::Ignore));
    assert!(matches!(handle(&mut bot, &full(None, "sell")), FillAction::Ignore));
    assert!(matches!(handle(&mut bot, &partial("a", 0.5)), FillAction::TooSmall));
    match handle(&mut bot, &partial("a", 0.75)) {
        FillAction::Hedge(e) => assert_eq!(e, (OrderSide::Sell, d(0.75), d(20.0), at(7))),
        other => panic!("{:?}", other),
    }
    assert!(matches!(handle(&mut bot, &partial("a", 0.75)), FillAction::Duplicate));
    match handle(&mut bot, &full(Some("a"), "sell")) {
        FillAction::Hedge(e) => assert_eq!(e, (OrderSide::Sell, d(2.0), d(20.0), at(7))),
        other => panic!("{:?}", other),
    }
    assert!(matches!(handle(&mut bot, &full(Some("a"), "sell")), FillAction::Duplicate));
    assert_eq!(bot.position, d(-2.75));
    // The cancellation of the rest changes nothing
    assert!(matches!(handle(&mut bot, &cancelled("a")), FillAction::Ignore));
    assert!(matches!(bot.status, BotStatus::Filled));
    assert!(matches!(handle(&mut bot, &FillEvent::PositionFill), FillAction::Ignore));
    assert_eq!(status, 2);
}

#[test]
fn streamed_cancellations() {
    let mut bot = BotState::new();
    let mut processed = ProcessedFills::new();
    let mut status = 1u8;
    let mut shared = SharedOrderSnapshot::new();
    bot.set_active_order(order("a", None, 5.0));
    assert!(is_our_order(&bot, &Some("a".to_string())));
    let r = handle_event(&mut bot, &mut processed, &mut status, &mut shared, &cancelled("b"), at(7));
    assert!(matches!(r, FillAction::Ignore));
    let r = handle_event(&mut bot, &mut processed, &mut status, &mut shared, &cancelled("a"), at(7));
    assert!(matches!(r, FillAction::Released));
    assert_eq!(status, 0);
    assert!(bot.is_idle());
    bot.set_active_order(order("a", None, 5.0));
    let r = handle_event(
        &mut bot,
        &mut processed,
        &mut status,
        &mut shared,
        &full(Some("a"), "sideways"),
        at(8),
    );
    assert!(matches!(r, FillAction::UnknownSide));
    assert!(processed.contains("full_a"));
    assert_eq!(read_side("bid"), Some(OrderSide::Buy));
    assert_eq!(read_side("Buy"), None);
}

#[test]
fn the_ways_of_detection_share_their_memory() {
    let mut bot = BotState::new();
    let mut processed = ProcessedFills::new();
    let (mut status, mut shared) = (1u8, SharedOrderSnapshot::new());
    bot.set_active_order(order("a", Some("1"), 5.0));
    let pending = bot.pending_orders_for_symbol("SOL").remove(0);
    let e = full(Some("a"), "sell");
    let r = handle_event(&mut bot, &mut processed, &mut status, &mut shared, &e, at(1));
    assert!(matches!(r, FillAction::Hedge(_)));
    assert_eq!(status, 2);
    let mut det = detector();
    let orders = vec![open("a", Some("1"), 5.0, 5.0)];
    assert!(matches!(
        det.examine(&mut bot, &mut processed, &mut status, &pending, &orders),
        Finding::Nothing
    ));
    assert!(!det.wants_history(&processed, &pending.order));
}

#[test]
fn polling_first_then_the_stream() {
    let mut bot = BotState::new();
    let mut processed = ProcessedFills::new();
    let (mut status, mut shared) = (1u8, SharedOrderSnapshot::new());
    bot.set_active_order(order("a", Some("1"), 5.0));
    let pending = bot.pending_orders_for_symbol("SOL").remove(0);
    let mut det = detector();
    let orders = vec![open("a", Some("1"), 5.0, 5.0)];
    assert!(matches!(
        det.examine(&mut bot, &mut processed, &mut status, &pending, &orders),
        Finding::Hedge(_)
    ));
    let e = full(Some("a"), "sell");
    let r = handle_event(&mut bot, &mut processed, &mut status, &mut shared, &e, at(1));
    assert!(matches!(r, FillAction::Duplicate));
    assert_eq!(bot.position, d(-5.0));
}

#[test]
fn accounts_of_orders_are_kept_apart() {
    let mut det = detector();
    let mut bot = BotState::new();
    let mut processed = ProcessedFills::new();
    let mut status = 1u8;
    bot.upsert_pending_order(order("a", Some("1"), 5.0));
    bot.upsert_pending_order(order("b", Some("2"), 5.0));
    let pending = bot.pending_orders_for_symbol("SOL");
    let orders = vec![open("a", Some("1"), 5.0, 1.0), open("b", Some("2"), 5.0, 2.0)];
    for (p, size) in pending.iter().zip([1.0, 2.0]) {
        match det.examine(&mut bot, &mut processed, &mut status, p, &orders) {
            Finding::Hedge(x) => assert_eq!(x.size, d(size)),
            other => panic!("{:?}", other),
        }
    }
    let orders = vec![open("a", Some("1"), 5.0, 4.0)];
    match det.examine(&mut bot, &mut processed, &mut status, &pending[0], &orders) {
        Finding::Hedge(x) => assert_eq!(x.size, d(3.0)),
        other => panic!("{:?}", other),
    }
}

#[test]
fn hedges_add_up_to_the_fills() {
    let mut det = detector();
    let mut bot = BotState::new();
    let mut processed = ProcessedFills::new();
    let mut status = 1u8;
    bot.set_active_order(order("a", Some("1"), 5.0));
    let pending = bot.pending_orders_for_symbol("SOL").remove(0);
    let mut sent = 0.0;
    for filled in [0.25, 1.0, 1.25, 2.5, 2.5, 4.75, 5.0] {
        let orders = vec![open("a", Some("1"), 5.0, filled)];
        let found = det.examine(&mut bot, &mut processed, &mut status, &pending, &orders);
        if let Finding::Hedge(x) = found {
            sent += f64::from_bits(x.size.to_bits());
        }
        assert!(sent <= filled);
    }
    assert_eq!(sent, 5.0);
}

#[test]
fn event_symbols() {
    assert!(symbol_matches("SOLUSDT", "sol"));
    assert!(symbol_matches("solusdc", "SOL"));
    assert!(symbol_matches("SOLBUSD", "SOL"));
    assert!(symbol_matches("SOLFDUSD", "SOL"));
    assert!(symbol_matches("sol", "SOL"));
    assert!(!symbol_matches("SOLEUR", "SOL"));
    assert!(!symbol_matches("SOL", "SOLUSDT"));
}

fn stream_trade(cumulative: f64, status: &str, side: MakerOrderSide) -> StreamTrade {
    StreamTrade {
        symbol: "SOLUSDT".to_string(),
        side,
        client_order_id: Some("a".to_string()),
        order_id: Some("1".to_string()),
        cumulative_fill_qty: d(cumulative),
        cumulative_fill_text: format!("{}", cumulative),
        fill_price: d(20.0),
        order_status: status.to_string(),
    }
}

#[test]
fn binance_trades() {
    let mut det = BinanceFillDetector::new("SOL".to_string(), d(10.0));
    let mut bot = BotState::new();
    let mut processed = ProcessedFills::new();
    let mut status = 1u8;
    let sell = MakerOrderSide::Sell;
    let t = stream_trade(1.0, "PARTIALLY_FILLED", sell);
    assert!(matches!(det.handle_trade(&mut bot, &mut processed, &mut status, &t), StreamAction::Ignore));
    bot.set_active_order(order("a", Some("1"), 5.0));
    let wrong = stream_trade(0.1, "PARTIALLY_FILLED", MakerOrderSide::Buy);
    assert!(matches!(
        det.handle_trade(&mut bot, &mut processed, &mut status, &wrong),
        StreamAction::SideMismatch
    ));
    let small = stream_trade(0.2, "PARTIALLY_FILLED", sell);
    assert!(matches!(det.handle_trade(&mut bot, &mut processed, &mut status, &small), StreamAction::Ignore));
    assert_eq!(status, 1);
    match det.handle_trade(&mut bot, &mut processed, &mut status, &t) {
        StreamAction::Hedge(x) => {
            assert_eq!(x.size, d(1.0 - 0.2));
            assert!(!x.is_full_fill);
            assert_eq!(x.source, "binance_user_stream");
        }
        other => panic!("{:?}", other),
    }
    assert!(processed.contains("partial_a"));
    assert!(processed.contains("binance_stream_a_1"));
    assert_eq!(status, 2);
    assert!(matches!(det.handle_trade(&mut bot, &mut processed, &mut status, &t), StreamAction::Ignore));
    let end = stream_trade(5.0, "PARTIALLY_FILLED", sell);
    match det.handle_trade(&mut bot, &mut processed, &mut status, &end) {
        StreamAction::Hedge(x) => assert!(x.is_full_fill && x.size == d(4.0)),
        other => panic!("{:?}", other),
    }
    assert!(processed.contains("full_a"));
    assert!(bot.pending_orders.is_empty());
    assert!(matches!(bot.status, BotStatus::Filled));
}

#[test]
fn binance_trades_after_the_end() {
    let mut det = BinanceFillDetector::new("SOL".to_string(), d(10.0));
    let mut bot = BotState::new();
    let mut processed = ProcessedFills::new();
    let mut status = 1u8;
    bot.upsert_pending_order(order("a", Some("1"), 5.0));
    bot.set_error("stop".to_string());
    let t = stream_trade(0.1, "FILLED", MakerOrderSide::Sell);
    assert!(matches!(
        det.handle_trade(&mut bot, &mut processed, &mut status, &t),
        StreamAction::RecordOnly(x) if x.is_full_fill
    ));
    assert!(bot.is_terminal());
    assert_eq!(status, 1);
    assert_eq!(bot.pending_orders.len(), 1);
    let mut other = stream_trade(0.2, "FILLED", MakerOrderSide::Sell);
    other.symbol = "ETHUSDT".to_string();
    assert!(matches!(det.handle_trade(&mut bot, &mut processed, &mut status, &other), StreamAction::Ignore));
}

#[test]
fn binance_cancellations() {
    let det = BinanceFillDetector::new("SOL".to_string(), d(10.0));
    let mut bot = BotState::new();
    let mut status = 1u8;
    bot.set_active_order(order("a", Some("1"), 5.0));
    let id = Some("1".to_string());
    assert!(!det.handle_cancelled(&mut bot, &mut status, "ETHUSDT", &None, &id, at(1)));
    assert_eq!(bot.pending_orders.len(), 1);
    assert!(det.handle_cancelled(&mut bot, &mut status, "SOLUSDT", &None, &id, at(1)));
    assert!(bot.is_idle() && bot.pending_orders.is_empty());
    assert_eq!(status, 0);
    bot.set_active_order(order("b", Some("2"), 5.0));
    bot.mark_filled(d(1.0), OrderSide::Sell);
    assert!(!det.handle_cancelled(&mut bot, &mut status, "SOL", &Some("b".to_string()), &None, at(2)));
    assert!(bot.pending_orders.is_empty());
    assert!(matches!(bot.status, BotStatus::Filled));
}

#[test]
fn stream_and_bans() {
    let mut h = BinanceApiHealth::new();
    h.mark_banned(100);
    assert!(!prepare_stream(&mut h, 50));
    assert!(!h.stream_alive);
    assert!(prepare_stream(&mut h, 100));
    assert!(h.stream_alive);
    assert_eq!(stream_ended(&mut h, false), None);
    assert!(h.stream_alive);
    assert_eq!(stream_ended(&mut h, true), Some(60));
    assert!(!h.stream_alive);
}

#[test]
fn streamed_hedges_stay_within_the_fills() {
    let mut det = BinanceFillDetector::new("SOL".to_string(), d(10.0));
    let mut bot = BotState::new();
    let mut processed = ProcessedFills::new();
    let mut status = 1u8;
    bot.set_active_order(order("a", Some("1"), 5.0));
    let (mut sent, mut largest) = (0.0, 0.0f64);
    // Out of date, repeated, too small, unreadable
    for told in [1.0, 0.5, 1.0, 1.25, f64::NAN, 3.0, 2.0, 3.5, 5.0, 5.0] {
        let t = stream_trade(told, "PARTIALLY_FILLED", MakerOrderSide::Sell);
        if let StreamAction::Hedge(x) =
            det.handle_trade(&mut bot, &mut processed, &mut status, &t)
        {
            assert!(told > largest);
            sent += f64::from_bits(x.size.to_bits());
        }
        largest = largest.max(told);
        assert!(sent <= largest);
    }
    // 0.25 at 20 was counted, and too little to be sent
    assert_eq!(sent, 4.75);
}
