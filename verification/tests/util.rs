use xemm_rust::clock::{epoch_millis, millis_of, Clock, Moment, UtcTime, READING_LIMIT};
use xemm_rust::util::api_health::BinanceApiHealth;
use xemm_rust::util::rate_limit::{
    is_rate_limit_error, is_rate_limit_text, nanos_in_seconds, parse_ban_until_ms, RateLimitTracker,
};

fn at(secs: u64) -> Moment {
    Moment { nanos: 0 }.plus_secs(secs)
}

#[test]
fn backoff_doubles_up_to_32() {
    let mut t = RateLimitTracker::new();
    assert_eq!(t.get_backoff_secs(), 0);
    assert!(!t.should_skip());
    for expected in [1, 2, 4, 8, 16, 32, 32, 32] {
        t.record_error();
        assert_eq!(t.get_backoff_secs(), expected);
    }
    assert_eq!(t.consecutive_errors(), 8);
    assert!(t.should_skip());
    let left = f64::from_bits(t.remaining_backoff_secs().to_bits());
    assert!(left > 31.0 && left <= 32.0);
    t.record_success();
    assert_eq!(t.get_backoff_secs(), 0);
    assert_eq!(t.consecutive_errors(), 0);
    assert!(!t.should_skip());
    assert_eq!(t.remaining_backoff_secs().to_bits(), 0);
}

#[test]
fn backoff_runs_out() {
    let mut t = RateLimitTracker::default();
    t.record_error_at(at(100));
    t.record_error_at(at(100));
    assert!(t.should_skip_at(at(100)));
    assert!(t.should_skip_at(at(101)));
    assert!(!t.should_skip_at(at(102)));
    assert_eq!(t.remaining_backoff_nanos_at(at(101)), 1_000_000_000);
    assert_eq!(t.remaining_backoff_nanos_at(at(103)), 0);
    assert!(t.now().nanos < 60_000_000_000);
}

#[test]
fn seconds_out_of_nanoseconds() {
    for n in [0u64, 1, 999_999_999, 1_500_000_000, 31_999_999_999] {
        let expected = std::time::Duration::from_nanos(n).as_secs_f64();
        assert_eq!(nanos_in_seconds(n).to_bits(), expected.to_bits());
    }
}

#[test]
fn rate_limit_messages() {
    assert!(is_rate_limit_error("Rate Limit exceeded"));
    assert!(is_rate_limit_error("TOO MANY REQUESTS"));
    assert!(is_rate_limit_error("status 429"));
    assert!(is_rate_limit_error("403 Forbidden"));
    assert!(is_rate_limit_error("418 I'm a teapot"));
    assert!(is_rate_limit_error("code -1003"));
    assert!(!is_rate_limit_error("404 not found"));
    assert!(!is_rate_limit_error("403"));
    assert!(is_rate_limit_text("rate limit"));
    assert!(!is_rate_limit_text("RATE LIMIT"));
}

#[test]
fn ban_messages() {
    assert_eq!(parse_ban_until_ms("IP banned until 1776172019921. Use ..."), Some(1776172019921));
    assert_eq!(parse_ban_until_ms("banned until 0"), None);
    assert_eq!(parse_ban_until_ms("banned until soon"), None);
    assert_eq!(parse_ban_until_ms("banned until 99999999999999999999"), None);
    assert_eq!(parse_ban_until_ms("no ban"), None);
    assert_eq!(parse_ban_until_ms("banned until 5 banned until 7"), Some(5));
}

#[test]
fn health() {
    let mut h = BinanceApiHealth::new();
    assert!(h.is_healthy());
    assert!(!h.is_banned());
    h.mark_rest_available(false);
    assert!(!h.is_healthy());
    h.mark_stream_alive(true);
    assert!(h.is_healthy());
    h.mark_banned(u64::MAX);
    assert!(h.is_banned());
    assert!(h.should_skip_api_call());
    assert!(!h.is_healthy());
    h.mark_banned(1);
    assert!(!h.is_banned());
    assert!(h.is_healthy());
    h.mark_banned(1000);
    assert!(h.is_banned_at(999));
    assert!(!h.is_banned_at(1000));
    assert!(!h.is_healthy_at(999));
    assert!(h.is_healthy_at(1000));
    assert_eq!(BinanceApiHealth::default(), BinanceApiHealth::new());
}

#[test]
fn moments() {
    let m = at(10);
    assert_eq!(at(13).secs_since(&m), 3);
    assert_eq!(m.secs_since(&at(13)), 0);
    assert_eq!(m.plus_millis(1500).millis_since(&m), 1500);
    assert_eq!(m.plus_millis(1500).secs_since(&m), 1);
    assert!(at(13).has_passed(&m, 3));
    assert!(!at(13).has_passed(&m, 4));
    assert!(m.reached(&m));
    let last = Moment { nanos: u128::MAX };
    assert_eq!(last.plus_secs(5), last);
}

#[test]
fn clocks_go_forward() {
    let c = Clock::start();
    let a = c.now();
    let b = c.now();
    assert!(b.reached(&a));
    assert!(b.nanos < READING_LIMIT);
    assert!(epoch_millis() > 1_600_000_000_000);
    assert_eq!(millis_of(None), 0);
    assert_eq!(millis_of(Some(1_700_000_000_123)), 1_700_000_000_123);
    assert_eq!(millis_of(Some((1 << 64) + 5)), 5);
    let wait = Moment { nanos: READING_LIMIT - 1 }.plus_secs(u64::MAX);
    assert_eq!(wait.nanos, READING_LIMIT - 1 + u64::MAX as u128 * 1_000_000_000);
}

#[test]
fn calendar_times() {
    let t = UtcTime::at(1_700_000_000, 123_456_789).unwrap();
    assert_eq!(t.millis, 1_700_000_000_123);
    assert_eq!(t.iso, "2023-11-14T22:13:20.123456789+00:00");
    let t = UtcTime::at(-1, 0).unwrap();
    assert_eq!(t.millis, -1000);
    assert_eq!(t.iso, "1969-12-31T23:59:59+00:00");
    assert!(UtcTime::at(i64::MAX, 0).is_none());
    let t = UtcTime::now();
    assert!(t.millis > 1_600_000_000_000);
    assert!(t.iso.ends_with("+00:00"));
    let secs = UtcTime::at(t.millis.div_euclid(1000), 0).unwrap();
    assert_eq!(t.iso[..19], secs.iso[..19]);
}

#[test]
fn errors_are_recorded_as_they_come() {
    let mut t = RateLimitTracker::new();
    let before = t.now();
    t.record_error();
    let after = t.now();
    assert!(before.nanos <= after.nanos);
    assert!(t.should_skip_at(before));
    assert!(!t.should_skip_at(after.plus_secs(1)));
}
