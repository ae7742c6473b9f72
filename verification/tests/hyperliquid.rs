use ethers::signers::{LocalWallet, Signer};
use ethers::types::transaction::eip712::{Eip712, TypedData};
use ethers::types::H256;
use xemm_rust::connector::hyperliquid::trading::{
    agent_source, agent_typed_data, construct_connection_id, dex_from_coin, exchange_url, format_signature,
    get_asset_id, get_asset_info, info_url, is_spot, market_limit_price, market_order,
    max_decimals, order_url, pick_top, prefixed_hex, read_l2_snapshot, round_price,
    shorten_numeral, MissingPrice, SignError, SnapshotError,
};
use xemm_rust::connector::hyperliquid::types::{
    AssetMeta, BookLevel, L2BookData, MetaResponse, TimeInForce,
};
use xemm_rust::connector::hyperliquid::HyperliquidCredentials;
use xemm_rust::double::Double;

fn d(x: f64) -> Double {
    Double::from_bits(x.to_bits())
}

fn f(x: Double) -> f64 {
    f64::from_bits(x.to_bits())
}

fn level(px: &str) -> BookLevel {
    BookLevel { px: px.to_string(), sz: "1".to_string(), n: 1 }
}

#[test]
fn top_of_book() {
    let mut book = L2BookData {
        coin: "SOL".to_string(),
        time: 5,
        levels: vec![vec![level("20.1"), level("20.0")], vec![level("20.2")]],
    };
    let top = book.get_top_of_book().unwrap();
    assert_eq!(top.best_bid, "20.1");
    assert_eq!(top.best_ask, "20.2");
    assert_eq!(top.coin, "SOL");
    assert_eq!(top.timestamp, 5);
    book.levels[1].clear();
    assert!(book.get_top_of_book().is_none());
    book.levels.truncate(1);
    assert!(book.get_top_of_book().is_none());
}

#[test]
fn venues() {
    assert_eq!(dex_from_coin("xyz:CL"), Some("xyz".to_string()));
    assert_eq!(dex_from_coin("a:b:c"), Some("a".to_string()));
    assert_eq!(dex_from_coin(":CL"), None);
    assert_eq!(dex_from_coin("SOL"), None);
    assert_eq!(order_url("u", "xyz:CL"), "u?dex=xyz");
    assert_eq!(order_url("u", "SOL"), "u");
    assert!(info_url(true).contains("testnet") && !info_url(false).contains("testnet"));
    assert!(exchange_url(true).contains("testnet"));
    assert_eq!(exchange_url(false), "https://api.hyperliquid.xyz/exchange");
}

#[test]
fn assets() {
    let asset = |name: &str, sz_decimals: i32| AssetMeta {
        name: name.to_string(),
        sz_decimals,
        max_leverage: None,
        margin_table_id: None,
        is_delisted: None,
    };
    let meta = MetaResponse { universe: vec![asset("BTC", 5), asset("SOL", 2), asset("SOL", 9)] };
    assert_eq!(get_asset_id(&meta, "SOL"), Some(1));
    assert_eq!(get_asset_info(&meta, "SOL").unwrap().sz_decimals, 2);
    assert_eq!(get_asset_id(&meta, "ETH"), None);
    assert!(get_asset_info(&meta, "ETH").is_none());
    assert!(is_spot(10000) && !is_spot(9999));
    assert_eq!(max_decimals(2, false), 4);
    assert_eq!(max_decimals(2, true), 6);
    assert_eq!(max_decimals(7, false), -1);
}

#[test]
fn books_in_json() {
    let answer = r#"{"coin":"SOL","levels":[[{"px":"20.1","sz":"1","n":2},{"px":"20.0"}],[{"px":"20.25","sz":"3","n":1}]]}"#;
    assert_eq!(
        read_l2_snapshot(answer),
        Ok(Some(("20.1".to_string(), "20.25".to_string())))
    );
    assert_eq!(read_l2_snapshot("{"), Err(SnapshotError::Malformed));
    assert_eq!(read_l2_snapshot("{}"), Err(SnapshotError::MissingLevels));
    assert_eq!(read_l2_snapshot("[]"), Err(SnapshotError::MissingLevels));
    assert_eq!(read_l2_snapshot(r#"{"levels":5}"#), Err(SnapshotError::MissingLevels));
    assert_eq!(read_l2_snapshot(r#"{"levels":[[]]}"#), Ok(None));
    assert_eq!(read_l2_snapshot(r#"{"levels":[[],[{"px":"1"}]]}"#), Ok(None));
    assert_eq!(read_l2_snapshot(r#"{"levels":[[{"px":1}],[{"px":"1"}]]}"#), Ok(None));
    assert_eq!(
        read_l2_snapshot(r#"{"levels":[[{"px":"a\"b"}],[{"px":"\u00e9"}]]}"#),
        Ok(Some(("a\"b".to_string(), "é".to_string())))
    );
    assert_eq!(pick_top(&vec![None, Some("1".to_string())]), None);
}

#[test]
fn prices() {
    let reference = |price: f64, decimals: i32| {
        let scale = 10f64.powf(price.log10().floor() - 4.0);
        let rounded = (price / scale).round() * scale;
        let m = 10f64.powi(decimals);
        ((rounded * m).round() / m, scale, m)
    };
    for (p, n) in [(123.456789, 4), (0.0123456, 6), (98765.4321, 2), (1.00005, 5)] {
        let (expected, scale, m) = reference(p, n);
        assert_eq!(f(round_price(d(p), d(scale), Some(d(m)))), expected);
    }
    assert_eq!(f(round_price(d(-5.55), d(1.0), None)), -5.55);
    assert_eq!(f(round_price(d(7.6), d(1.0), None)), 8.0);
    assert_eq!(shorten_numeral("123.4600"), "123.46");
    assert_eq!(shorten_numeral("100."), "100");
    assert_eq!(shorten_numeral("100.000"), "100");
    assert_eq!(shorten_numeral("1000"), "1000");
}

#[test]
fn limit_prices() {
    let (bid, ask, slip) = (20.1, 20.3, 0.05);
    let mid = (bid + ask) / 2.0;
    assert_eq!(
        market_limit_price(true, Some(d(bid)), Some(d(ask)), d(slip)).map(f),
        Ok(mid * (1.0 + slip))
    );
    assert_eq!(
        market_limit_price(false, Some(d(bid)), Some(d(ask)), d(slip)).map(f),
        Ok(mid * (1.0 - slip))
    );
    assert_eq!(market_limit_price(true, None, Some(d(ask)), d(slip)), Err(MissingPrice));
    assert_eq!(market_limit_price(true, Some(d(bid)), None, d(slip)), Err(MissingPrice));
}

#[test]
fn orders() {
    let a = market_order(3, true, "20.5".to_string(), "1".to_string(), true);
    assert_eq!(a.type_, "order");
    assert_eq!(a.grouping, "na");
    assert_eq!(a.orders.len(), 1);
    let o = &a.orders[0];
    assert_eq!((o.a, o.b, o.p.as_str(), o.s.as_str(), o.r), (3, true, "20.5", "1", true));
    assert_eq!(o.t.limit.tif, TimeInForce::Ioc);
    assert!(o.c.is_none());
}

#[test]
fn connection_ids() {
    let action = vec![0x81u8, 0xa4];
    let id = construct_connection_id(&action, 0x0102030405060708, None);
    assert_eq!(
        prefixed_hex(&id),
        "0xf33d5961b5a7a6d8eb2acdc2a8ab5f089a3294a8064f4baf8b5d3f977ed3760a"
    );
    let id = construct_connection_id(&action, 0x0102030405060708, Some("0x0"));
    assert_eq!(
        prefixed_hex(&id),
        "0x8dcb5ceeb210a26b0d3b491f7c9b4864da04f7471139394fe8dd0b247233b1df"
    );
    let mut r = [0u8; 32];
    r[31] = 0xAB;
    let sig = format_signature(&r, &[0xFFu8; 32], 28);
    assert_eq!(sig.r, format!("0x{}ab", "0".repeat(62)));
    assert_eq!(sig.s, format!("0x{}", "f".repeat(64)));
    assert_eq!(sig.v, 28);
    assert_eq!(agent_source(false), "a");
    assert_eq!(agent_source(true), "b");
    let c = HyperliquidCredentials { private_key: "k".to_string() };
    assert_eq!(c.clone().private_key, "k");
}

#[test]
fn signatures_of_actions() {
    let key = "0000000000000000000000000000000000000000000000000000000000000001";
    let c = HyperliquidCredentials { private_key: key.to_string() };
    assert_eq!(c.address().unwrap(), "0x7e5f4552091a69125d5dfcb7b8c2659029395bdf");
    let action = vec![0x81u8, 0xa4];
    let sig = c.sign_action(false, &action, 7, None).unwrap();

    let id = construct_connection_id(&action, 7, None);
    let data = TypedData {
        domain: serde_json::from_str(
            r#"{"chainId":1337,"name":"Exchange","verifyingContract":"0x0000000000000000000000000000000000000000","version":"1"}"#,
        )
        .unwrap(),
        types: serde_json::from_str(
            r#"{"Agent":[{"name":"source","type":"string"},{"name":"connectionId","type":"bytes32"}]}"#,
        )
        .unwrap(),
        primary_type: "Agent".to_string(),
        message: serde_json::from_str(&format!(
            r#"{{"source":"a","connectionId":"{}"}}"#,
            prefixed_hex(&id)
        ))
        .unwrap(),
    };
    let wallet: LocalWallet = key.parse().unwrap();
    let digest = data.encode_eip712().unwrap();
    let expected = wallet.sign_hash(H256::from(digest)).unwrap();
    let (mut r, mut s) = ([0u8; 32], [0u8; 32]);
    expected.r.to_big_endian(&mut r);
    expected.s.to_big_endian(&mut s);
    assert_eq!(sig.r, prefixed_hex(&r));
    assert_eq!(sig.s, prefixed_hex(&s));
    assert_eq!(sig.v as u64, expected.v);
    assert_eq!(expected.recover(H256::from(digest)).unwrap(), wallet.address());

    let other = c.sign_action(true, &action, 7, None).unwrap();
    assert_ne!(other.r, sig.r);
    assert_ne!(c.sign_action(false, &action, 8, None).unwrap().r, sig.r);
    assert_ne!(c.sign_action(false, &action, 7, Some("0x0")).unwrap().r, sig.r);
    let bad = HyperliquidCredentials { private_key: "xyz".to_string() };
    assert_eq!(bad.sign_action(false, &action, 7, None).unwrap_err(), SignError::Wallet);
    assert!(bad.address().is_none());
}

#[test]
fn data_to_be_signed() {
    let text = agent_typed_data(true, &[0u8; 32]);
    let data: TypedData = serde_json::from_str(&text).unwrap();
    assert_eq!(data.primary_type, "Agent");
    assert_eq!(data.message["source"].as_str(), Some("b"));
}
