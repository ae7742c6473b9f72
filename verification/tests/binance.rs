use xemm_rust::connector::binance::trading::{
    best_bid_ask, cancelled_count, limit_client_id, limit_order_params, market_client_id,
    market_order_params, normalize_symbol, open_orders_params, order_data, read_exchange_info,
    read_open_order, read_positions, read_side, read_trade, rest_url, round_down_by_step,
    round_limit_order, round_market_order, shorten_decimal, side_word, symbol_params,
    trade_history_params, unsigned_url, DecimalField, ExchangeFilter, ExchangeSymbol, OpenOrderRow,
    PositionRow, RoundingError, SymbolInfoError, UserTradeRow,
};
use xemm_rust::connector::binance::user_stream::{
    handle_message, listen_key_url, listen_key_url_for, stream_url, ws_base_url, ListenKeyExpired,
    OrderUpdateData, Reconnector, StreamEnvelope,
};
use xemm_rust::connector::binance::{
    BinanceCredentials, BinanceUserStreamConfig, BinanceUserStreamEvent,
};
use xemm_rust::connector::maker::{MakerOrderSide, MakerSymbolInfo};
use xemm_rust::double::Double;

fn d(x: f64) -> Double {
    Double::from_bits(x.to_bits())
}

fn f(x: Double) -> f64 {
    f64::from_bits(x.to_bits())
}

fn pairs(v: &[(&str, &str)]) -> Vec<(String, String)> {
    v.iter().map(|(a, b)| (a.to_string(), b.to_string())).collect()
}

fn credentials(secret: &str) -> BinanceCredentials {
    BinanceCredentials { api_key: "key".to_string(), api_secret: secret.to_string() }
}

#[test]
fn signatures() {
    let c = credentials("NhqPtmdSJYdKjVHjA7PZj4Mge3R5YNiP1e3UZjInClVN65XAbvqqM6A7H5fATj0j");
    assert_eq!(
        c.sign_query(
            "symbol=LTCBTC&side=BUY&type=LIMIT&timeInForce=GTC&quantity=1&price=0.1&recvWindow=5000&timestamp=1499827319559"
        ),
        "c8db56825ae71d6d79447849e617115f4a920fa2acdcab2b053c4b2838bd6b71"
    );
    assert_eq!(c.clone().sign_query("").len(), 64);
}

#[test]
fn signed_addresses() {
    let c = credentials("secret");
    let params = pairs(&[("symbol", "SOLUSDT"), ("note", "a b&é~*-._")]);
    assert_eq!(
        c.signed_url_at("https://x", "/fapi/v1/order", params, 1700000000123),
        "https://x/fapi/v1/order?symbol=SOLUSDT&note=a+b%26%C3%A9%7E*-._&timestamp=1700000000123&recvWindow=5000&signature=08c5020ca89b53cbefbd910e8cd451f0c9a0138bed01871dcdbba19582ec205c"
    );
    assert!(c
        .signed_url_at("b", "/p", symbol_params("sol"), -5)
        .ends_with("&signature=3b03111c4477bc342c17b9faef163361474a5c26c15eb5fd9a6d6169e03fecde"));
    let url = c.signed_url("b", "/p", Vec::new());
    assert!(url.starts_with("b/p?timestamp=1"));
    assert!(url.contains("&recvWindow=5000&signature="));
}

#[test]
fn unsigned_addresses() {
    assert_eq!(unsigned_url("b", "/p", &Vec::new()), "b/p");
    assert_eq!(unsigned_url("b", "/p", &symbol_params("eth")), "b/p?symbol=ETHUSDT");
    assert_eq!(rest_url(false), "https://fapi.binance.com");
    assert_eq!(rest_url(true), "https://testnet.binancefuture.com");
}

#[test]
fn symbols() {
    assert_eq!(normalize_symbol("sol"), "SOLUSDT");
    assert_eq!(normalize_symbol("SolUsdc"), "SOLUSDC");
    assert_eq!(normalize_symbol("btcfdusd"), "BTCFDUSD");
    assert_eq!(normalize_symbol("ethbusd"), "ETHBUSD");
    assert_eq!(normalize_symbol("straße"), "STRASSEUSDT");
    for s in ["sol", "CLUSDT", "xyz:cl", ""] {
        let n = normalize_symbol(s);
        assert_eq!(normalize_symbol(&n), n);
    }
}

#[test]
fn decimals() {
    assert_eq!(shorten_decimal("1.500000000000"), "1.5");
    assert_eq!(shorten_decimal("100.000000000000"), "100");
    assert_eq!(shorten_decimal("0.000000000001"), "0.000000000001");
    assert_eq!(shorten_decimal("1200"), "1200");
    assert_eq!(shorten_decimal(""), "");
    assert_eq!(shorten_decimal("0.000000000000"), "0");
}

#[test]
fn rounding_down() {
    for (v, s) in [(1.2345, 0.01), (10.0, 0.1), (0.3, 0.1), (7.0, 2.5), (123.456, 0.001)] {
        assert_eq!(f(round_down_by_step(d(v), d(s))), (v / s).floor() * s);
    }
    assert_eq!(f(round_down_by_step(d(1.23), d(0.0))), 1.23);
    assert_eq!(f(round_down_by_step(d(1.23), d(-1.0))), 1.23);
    let info = MakerSymbolInfo { tick_size: d(0.5), lot_size: d(0.25) };
    assert_eq!(round_limit_order(d(1.3), d(10.7), &info), Ok((d(1.25), d(10.5))));
    assert_eq!(
        round_limit_order(d(0.1), d(10.7), &info),
        Err(RoundingError { quantity: d(0.0), price: Some(d(10.5)) })
    );
    assert_eq!(
        round_limit_order(d(1.0), d(0.2), &info),
        Err(RoundingError { quantity: d(1.0), price: Some(d(0.0)) })
    );
    assert_eq!(round_market_order(d(1.3), &info), Ok(d(1.25)));
    assert_eq!(
        round_market_order(d(0.2), &info),
        Err(RoundingError { quantity: d(0.0), price: None })
    );
}

#[test]
fn order_parameters() {
    assert_eq!(
        limit_order_params("sol", MakerOrderSide::Buy, "1.5", "20", "id"),
        pairs(&[
            ("symbol", "SOLUSDT"),
            ("side", "BUY"),
            ("type", "LIMIT"),
            ("timeInForce", "GTX"),
            ("quantity", "1.5"),
            ("price", "20"),
            ("newClientOrderId", "id"),
        ])
    );
    assert_eq!(
        market_order_params("sol", MakerOrderSide::Sell, "1.5", "id"),
        pairs(&[
            ("symbol", "SOLUSDT"),
            ("side", "SELL"),
            ("type", "MARKET"),
            ("quantity", "1.5"),
            ("newClientOrderId", "id"),
        ])
    );
    assert_eq!(open_orders_params(None), Vec::new());
    assert_eq!(open_orders_params(Some("sol")), pairs(&[("symbol", "SOLUSDT")]));
    assert_eq!(
        trade_history_params("sol", None, None, None),
        pairs(&[("symbol", "SOLUSDT"), ("limit", "50")])
    );
    assert_eq!(
        trade_history_params("sol", Some(5000), Some(7), Some(9)),
        pairs(&[
            ("symbol", "SOLUSDT"),
            ("limit", "1000"),
            ("startTime", "7"),
            ("endTime", "9"),
        ])
    );
}

#[test]
fn client_ids() {
    let (a, b) = (limit_client_id(), limit_client_id());
    assert!(a.starts_with("xemm-") && a.len() == 37);
    assert!(a[5..].chars().all(|c| c.is_ascii_digit() || ('a'..='f').contains(&c)));
    assert_ne!(a, b);
    assert!(market_client_id().starts_with("xemm-mkt-"));
}

#[test]
fn sides() {
    for side in [MakerOrderSide::Buy, MakerOrderSide::Sell] {
        assert_eq!(read_side(side_word(side)), side);
    }
    assert_eq!(read_side("buy"), MakerOrderSide::Buy);
    assert_eq!(read_side("?"), MakerOrderSide::Sell);
}

fn filter(name: &str, tick: DecimalField, step: DecimalField) -> ExchangeFilter {
    ExchangeFilter { filter_type: name.to_string(), tick_size: tick, step_size: step }
}

#[test]
fn exchange_rules() {
    let number = |x: f64| DecimalField::Number(d(x));
    let missing = DecimalField::Missing;
    let rules = |filters: Vec<ExchangeFilter>| {
        vec![
            ExchangeSymbol { symbol: "ETHUSDT".to_string(), filters: Vec::new() },
            ExchangeSymbol { symbol: "SOLUSDT".to_string(), filters },
        ]
    };
    let read = |filters: Vec<ExchangeFilter>| read_exchange_info(&rules(filters), "sol");
    assert_eq!(
        read(vec![
            filter("LOT_SIZE", missing, number(0.1)),
            filter("PRICE_FILTER", number(0.01), missing),
        ]),
        Ok(MakerSymbolInfo { tick_size: d(0.01), lot_size: d(0.1) })
    );
    assert_eq!(
        read_exchange_info(&rules(Vec::new()), "btc"),
        Err(SymbolInfoError::SymbolNotFound)
    );
    assert_eq!(read(Vec::new()), Err(SymbolInfoError::MissingTickSize));
    assert_eq!(
        read(vec![filter("PRICE_FILTER", DecimalField::Malformed, missing)]),
        Err(SymbolInfoError::MalformedTickSize)
    );
    assert_eq!(
        read(vec![filter("PRICE_FILTER", number(1.0), missing)]),
        Err(SymbolInfoError::MissingStepSize)
    );
    assert_eq!(
        read(vec![
            filter("PRICE_FILTER", number(1.0), missing),
            filter("LOT_SIZE", missing, DecimalField::Malformed),
        ]),
        Err(SymbolInfoError::MalformedStepSize)
    );
}

#[test]
fn answers() {
    assert_eq!(best_bid_ask(d(1.0), d(2.0)), Some((d(1.0), d(2.0))));
    assert_eq!(best_bid_ask(d(0.0), d(2.0)), None);
    assert_eq!(best_bid_ask(d(1.0), d(-2.0)), None);
    let data = order_data(-7, "c".to_string(), "S".to_string());
    assert_eq!(data.order_id.as_deref(), Some("-7"));
    assert_eq!(data.id().as_deref(), Some("c"));
    assert_eq!(cancelled_count(5, 2), 3);
    assert_eq!(cancelled_count(2, 5), 0);
    let o = read_open_order(OpenOrderRow {
        symbol: "SOLUSDT".to_string(),
        side: "Buy".to_string(),
        price: d(20.0),
        orig_qty: d(3.0),
        executed_qty: d(1.0),
        order_id: 12,
        client_order_id: "c".to_string(),
    });
    assert_eq!(o.order_id.as_deref(), Some("12"));
    assert_eq!(o.side, MakerOrderSide::Buy);
    assert_eq!(o.filled_amount, d(1.0));
    let t = read_trade(UserTradeRow {
        symbol: "SOLUSDT".to_string(),
        order_id: 12,
        price: d(20.0),
        qty: d(1.0),
        commission: d(0.1),
        maker: true,
        time: 99,
    });
    assert_eq!(t.order_id.as_deref(), Some("12"));
    assert_eq!(t.client_order_id, None);
    assert!(t.is_maker_fill);
    assert_eq!(t.created_at_ms, 99);
}

#[test]
fn positions() {
    let rows = vec![
        PositionRow { symbol: "SOLUSDT".to_string(), position_amt: d(-2.5) },
        PositionRow { symbol: "SOLUSDT".to_string(), position_amt: d(9e-13) },
        PositionRow { symbol: "ETHUSDT".to_string(), position_amt: d(1.0) },
    ];
    let p = read_positions(&rows, Some("sol"));
    assert_eq!(p.len(), 1);
    assert_eq!(p[0].side, MakerOrderSide::Sell);
    assert_eq!(p[0].amount, d(2.5));
    assert_eq!(f(p[0].signed_amount()), -2.5);
    assert_eq!(read_positions(&rows, None).len(), 2);
}

fn update(execution: &str, status: &str, last_qty: f64, last_px: f64) -> OrderUpdateData {
    OrderUpdateData {
        symbol: "SOLUSDT".to_string(),
        side: "SELL".to_string(),
        order_status: status.to_string(),
        execution_type: execution.to_string(),
        order_id: 42,
        client_order_id: "c".to_string(),
        last_fill_qty: d(last_qty),
        cumulative_fill_qty: d(3.0),
        last_fill_price: d(last_px),
        average_price: d(19.0),
        trade_time: 77,
    }
}

fn envelope(order: Option<OrderUpdateData>) -> StreamEnvelope {
    StreamEnvelope { event_type: Some("ORDER_TRADE_UPDATE".to_string()), order }
}

#[test]
fn stream_messages() {
    let expired =
        StreamEnvelope { event_type: Some("listenKeyExpired".to_string()), order: None };
    assert_eq!(handle_message(expired).unwrap_err(), ListenKeyExpired);
    assert!(handle_message(envelope(None)).unwrap().is_none());
    assert!(handle_message(envelope(Some(update("TRADE", "FILLED", 0.0, 20.0)))).unwrap().is_none());
    assert!(handle_message(envelope(Some(update("NEW", "NEW", 1.0, 20.0)))).unwrap().is_none());
    for (px, expected) in [(20.0, 20.0), (0.0, 19.0)] {
        match handle_message(envelope(Some(update("TRADE", "FILLED", 1.0, px)))).unwrap() {
            Some(BinanceUserStreamEvent::Trade {
                side,
                client_order_id,
                order_id,
                fill_price,
                cumulative_fill_qty,
                order_status,
                trade_time_ms,
                ..
            }) => {
                assert_eq!(side, MakerOrderSide::Sell);
                assert_eq!(client_order_id.as_deref(), Some("c"));
                assert_eq!(order_id.as_deref(), Some("42"));
                assert_eq!(f(fill_price), expected);
                assert_eq!(f(cumulative_fill_qty), 3.0);
                assert_eq!(order_status, "FILLED");
                assert_eq!(trade_time_ms, 77);
            }
            other => panic!("{:?}", other),
        }
    }
    for (x, s) in [("CANCELED", "NEW"), ("NEW", "CANCELED")] {
        assert!(matches!(
            handle_message(envelope(Some(update(x, s, 0.0, 0.0)))).unwrap(),
            Some(BinanceUserStreamEvent::Cancelled { .. })
        ));
    }
}

#[test]
fn reconnecting() {
    let mut r = Reconnector::new(8);
    for secs in [1, 2, 4, 8, 16, 30, 30] {
        assert_eq!(r.failed(), Some(secs));
    }
    assert_eq!(r.failed(), None);
    assert_eq!(Reconnector::new(0).failed(), None);
}

#[test]
fn stream_settings() {
    let c = BinanceUserStreamConfig::default();
    assert_eq!(c.reconnect_attempts, 10);
    assert_eq!(c.ping_interval_secs, 20);
    assert_eq!(c.keepalive_interval_secs(), 1800);
    let c = BinanceUserStreamConfig { listen_key_keepalive_secs: 5, ..c };
    assert_eq!(c.keepalive_interval_secs(), 60);
    assert_eq!(ws_base_url(false), "wss://fstream.binance.com/ws");
    assert_eq!(ws_base_url(true), "wss://stream.binancefuture.com/ws");
    assert_eq!(listen_key_url("r"), "r/fapi/v1/listenKey");
    assert_eq!(listen_key_url_for("r", "k"), "r/fapi/v1/listenKey?listenKey=k");
    assert_eq!(stream_url("w", "k"), "w/k");
}
