use xemm_rust::audit_logger::{
    fill_file_for_symbol, order_file_for_symbol, sanitize_symbol, FillRecord, OrderRecord,
};
use xemm_rust::clock::UtcTime;
use xemm_rust::connector::maker::MakerTradeHistoryItem;
use xemm_rust::double::Double;
use xemm_rust::services::spread_recorder::{
    are_sampled, compact_every_ticks, is_compaction_tick, sample_interval, SpreadCsvRecorder,
    SpreadSampleRow,
};
use xemm_rust::strategy::OrderSide;
use xemm_rust::trade_fetcher::{
    after_attempt, calculate_hedge_profit, calculate_hyperliquid_fill_result,
    calculate_maker_trade_result, calculate_pacifica_trade_result, matching_maker_trades,
    matching_pacifica_trades, may_attempt, recent_fills, recent_fills_at, FillNumbers,
    HyperliquidFill, PacificaTrade, Retry, TradeFetchResult,
};

fn d(x: f64) -> Double {
    Double::from_bits(x.to_bits())
}

fn f(x: Double) -> f64 {
    f64::from_bits(x.to_bits())
}

fn item(client: Option<&str>, order: Option<&str>, maker: bool) -> MakerTradeHistoryItem {
    MakerTradeHistoryItem {
        order_id: order.map(|s| s.to_string()),
        client_order_id: client.map(|s| s.to_string()),
        symbol: "SOL".to_string(),
        amount: d(2.0),
        entry_price: d(20.0),
        fee: d(0.01),
        is_maker_fill: maker,
        created_at_ms: 1,
    }
}

#[test]
fn maker_trades() {
    let trades = vec![
        item(Some("a"), Some("1"), true),
        item(Some("a"), Some("1"), false),
        item(None, Some("1"), true),
        item(Some("b"), None, true),
    ];
    assert_eq!(matching_maker_trades(&trades, Some("a"), None).len(), 1);
    assert_eq!(matching_maker_trades(&trades, Some("a"), Some("1")).len(), 2);
    assert!(matching_maker_trades(&trades, None, None).is_empty());
    let numbers = |price: f64, amount: f64, fee: f64| MakerTradeHistoryItem {
        entry_price: d(price),
        amount: d(amount),
        fee: d(fee),
        ..item(None, None, true)
    };
    let (a, b) = (numbers(20.0, 1.0, 0.1), numbers(21.0, 3.0, 0.2));
    let r = calculate_maker_trade_result(&[&a, &b]);
    assert_eq!(r.fill_price, Some(d((20.0 + 63.0) / 4.0)));
    assert_eq!(r.actual_fee, Some(d(0.1 + 0.2)));
    assert_eq!(r.total_size, Some(d(4.0)));
    assert_eq!(r.total_notional, Some(d(83.0)));
    let one = calculate_maker_trade_result(&[&numbers(20.0, -1.0, 0.0)]);
    assert_eq!(one.fill_price, Some(d(20.0)));
    assert_eq!(one.total_size, Some(d(-1.0)));
    assert_eq!(one.total_notional, Some(d(-20.0)));
    assert_eq!(calculate_maker_trade_result(&[]), TradeFetchResult::empty());
}

fn numbers(price: Option<f64>, size: Option<f64>, fee: Option<f64>) -> FillNumbers {
    FillNumbers { price: price.map(d), size: size.map(d), fee: fee.map(d) }
}

#[test]
fn pacifica_trades() {
    let trade = |id: &str, event: &str| PacificaTrade {
        client_order_id: Some(id.to_string()),
        event_type: event.to_string(),
        entry_price: Some(d(20.0)),
        amount: Some(d(1.0)),
        fee: None,
    };
    let trades = vec![trade("a", "fulfill_maker"), trade("a", "fulfill_taker"), trade("b", "fulfill_maker")];
    assert_eq!(matching_pacifica_trades(&trades, "a").len(), 1);
    // The price of the first fill holds for all.
    let r = calculate_pacifica_trade_result(&vec![
        numbers(Some(20.0), Some(1.0), Some(0.1)),
        numbers(Some(99.0), Some(3.0), None),
        numbers(None, None, Some(0.2)),
    ]);
    assert_eq!(r.fill_price, Some(d(20.0)));
    assert_eq!(r.total_size, Some(d(4.0)));
    assert_eq!(r.total_notional, Some(d(80.0)));
    assert_eq!(r.actual_fee, Some(d(0.1 + 0.2)));
    let r = calculate_pacifica_trade_result(&vec![
        numbers(None, Some(1.0), Some(0.1)),
        numbers(Some(20.0), Some(1.0), Some(0.1)),
    ]);
    assert_eq!(r, TradeFetchResult::empty());
    let r = calculate_pacifica_trade_result(&vec![numbers(Some(20.0), None, Some(0.1))]);
    assert_eq!(r.total_notional, None);
    assert_eq!(r.actual_fee, Some(d(0.1)));
}

fn hl(coin: &str, time: u64) -> HyperliquidFill {
    HyperliquidFill {
        coin: coin.to_string(),
        time,
        px: Some(d(20.0)),
        sz: Some(d(1.0)),
        fee: Some(d(0.1)),
    }
}

#[test]
fn hyperliquid_fills() {
    let fills = vec![hl("SOL", 9_000), hl("SOL", 5_000), hl("ETH", 9_000), hl("SOL", 20_000)];
    assert_eq!(recent_fills_at(&fills, "SOL", 10_000, 5).len(), 2);
    assert_eq!(recent_fills_at(&fills, "SOL", 10_000, 6).len(), 3);
    assert!(recent_fills_at(&fills, "SOL", 10_000, 0).is_empty());
    assert!(recent_fills(&fills, "SOL", 60).is_empty());
    assert_eq!(recent_fills(&vec![hl("SOL", u64::MAX)], "SOL", 60).len(), 1);
    let r = calculate_hyperliquid_fill_result(&vec![
        numbers(Some(20.0), Some(1.0), Some(0.1)),
        numbers(Some(22.0), Some(1.0), None),
        numbers(None, Some(5.0), Some(0.1)),
    ]);
    assert_eq!(r.fill_price, Some(d(21.0)));
    assert_eq!(r.total_size, Some(d(2.0)));
    assert_eq!(r.actual_fee, Some(d(0.2)));
    assert_eq!(calculate_hyperliquid_fill_result(&Vec::new()), TradeFetchResult::empty());
    let r = calculate_hyperliquid_fill_result(&vec![numbers(Some(20.0), Some(2.0), None)]);
    assert_eq!(r.total_notional, Some(d(40.0)));
}

#[test]
fn profits() {
    let r = calculate_hedge_profit(d(100.0), d(100.5), d(0.015), d(0.04), true);
    let gross = 100.5 - 100.0;
    let net = gross - 0.015 - 0.04;
    assert_eq!(f(r.gross_pnl), gross);
    assert_eq!(f(r.net_profit), net);
    assert_eq!(f(r.profit_bps), (net / 100.0) * 10000.0);
    let s = calculate_hedge_profit(d(100.0), d(100.5), d(0.015), d(0.04), false);
    assert_eq!(f(s.gross_pnl), -gross);
    assert_eq!(f(calculate_hedge_profit(d(0.0), d(1.0), d(0.0), d(0.0), true).profit_bps), 0.0);
}

#[test]
fn retries() {
    assert!(may_attempt(1, 3) && may_attempt(3, 3) && !may_attempt(4, 3));
    assert_eq!(after_attempt(true, 1, 3), Retry::Done);
    assert_eq!(after_attempt(false, 1, 3), Retry::Wait(10));
    assert_eq!(after_attempt(false, 3, 3), Retry::GiveUp);
}

#[test]
fn file_names() {
    assert_eq!(sanitize_symbol("  xyz:CL/9 \n"), "xyz_cl_9");
    assert_eq!(order_file_for_symbol("SOL"), "sol_orders.csv");
    assert_eq!(fill_file_for_symbol("xyz:CL"), "xyz_cl_fills.csv");
    assert_eq!(sanitize_symbol("é"), "_");
}

#[test]
fn records() {
    let t = UtcTime::at(0, 5_000_000).unwrap();
    let o = OrderRecord::new(
        &t,
        "SOL".to_string(),
        "Binance".to_string(),
        OrderSide::Sell,
        d(2.0),
        d(20.5),
        None,
        Some("c".to_string()),
        "test".to_string(),
    );
    assert_eq!(o.timestamp, "1970-01-01T00:00:00.005+00:00");
    assert_eq!(o.side, "SELL");
    assert_eq!(o.notional_usd, d(41.0));
    let r = FillRecord::new(
        &t,
        "SOL".to_string(),
        "Binance".to_string(),
        OrderSide::Buy,
        d(2.0),
        d(20.5),
        true,
        None,
        Some("9".to_string()),
        "test".to_string(),
    );
    assert_eq!(r.side, "BUY");
    assert_eq!(r.fill_notional_usd, d(41.0));
    assert!(r.is_full_fill);
}

#[test]
fn samples() {
    let t = UtcTime::at(1_700_000_000, 0).unwrap();
    let (mb, ma, hb, ha) = (20.0, 20.1, 19.9, 20.05);
    let row = SpreadSampleRow::from_prices(
        &t,
        "SOL|SOL".to_string(),
        "Binance".to_string(),
        d(mb),
        d(ma),
        d(hb),
        d(ha),
    );
    let (mm, hm) = ((mb + ma) / 2.0, (hb + ha) / 2.0);
    assert_eq!(row.timestamp_ms, 1_700_000_000_000);
    assert_eq!(row.timestamp_iso, "2023-11-14T22:13:20+00:00");
    assert_eq!(f(row.mid_spread), mm - hm);
    assert_eq!(f(row.mid_spread_bps), ((mm - hm) / hm) * 10000.0);
    assert_eq!(f(row.buy_edge_bps), ((hb - ma) / ma) * 10000.0);
    assert_eq!(f(row.sell_edge_bps), ((mb - ha) / ha) * 10000.0);
    let zero = SpreadSampleRow::from_prices(
        &t,
        String::new(),
        String::new(),
        d(1.0),
        d(0.0),
        d(0.0),
        d(0.0),
    );
    assert_eq!(f(zero.mid_spread_bps), 0.0);
    assert_eq!(f(zero.buy_edge_bps), 0.0);
    assert_eq!(f(zero.sell_edge_bps), 0.0);
}

#[test]
fn history() {
    let mut r = SpreadCsvRecorder::new("SOL".to_string(), "Binance".to_string(), 1);
    let mut add = |r: &mut SpreadCsvRecorder, secs: i64| {
        let t = UtcTime::at(secs, 0).unwrap();
        r.add_sample(&t, d(1.0), d(2.0), d(1.0), d(2.0))
    };
    let first = add(&mut r, 0);
    assert_eq!(first.symbol, "SOL");
    assert_eq!(first.maker_exchange, "Binance");
    add(&mut r, 1800);
    assert!(!r.needs_compaction(false));
    assert!(r.needs_compaction(true));
    add(&mut r, 3600);
    assert_eq!(r.row_count(), 3);
    add(&mut r, 3601);
    assert_eq!(r.row_count(), 3);
    assert_eq!(r.row(0).timestamp_ms, 1_800_000);
    assert!(r.needs_compaction(false));
    r.compacted();
    assert!(!r.needs_compaction(false));
    let rows: Vec<SpreadSampleRow> = (0..3).map(|i| r.row(i).clone()).collect();
    let mut q = SpreadCsvRecorder::new("SOL".to_string(), "Binance".to_string(), 1);
    assert_eq!(q.load_rows(&rows, 3_600_000 + 2_000_000), 2);
    assert_eq!(q.row_count(), 2);
}

#[test]
fn ticks() {
    assert_eq!(sample_interval(0), 1);
    assert_eq!(sample_interval(5), 5);
    assert_eq!(compact_every_ticks(1), 60);
    assert_eq!(compact_every_ticks(7), 8);
    assert_eq!(compact_every_ticks(61), 1);
    assert!(is_compaction_tick(120, 60) && !is_compaction_tick(61, 60));
    assert!(are_sampled(d(1.0), d(1.0), d(1.0), d(1.0)));
    assert!(!are_sampled(d(1.0), d(1.0), d(0.0), d(1.0)));
}
