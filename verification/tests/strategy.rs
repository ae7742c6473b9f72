use xemm_rust::clock::Moment;
use xemm_rust::config::StrategyMode;
use xemm_rust::double::Double;
use xemm_rust::strategy::funding::{FundingCarryTracker, FundingSnapshot};
use xemm_rust::strategy::spread_stats::SpreadStats;
use xemm_rust::strategy::{EntryProfile, OrderSide, RegimeController, RegimeSettings};

fn d(x: f64) -> Double {
    Double::from_bits(x.to_bits())
}

fn f(x: Double) -> f64 {
    f64::from_bits(x.to_bits())
}

fn at(secs: u64) -> Moment {
    Moment { nanos: 0 }.plus_secs(secs)
}

fn make_snap(tracker: &FundingCarryTracker, maker_rate: f64, hedge_hourly: f64) -> FundingSnapshot {
    FundingSnapshot {
        maker_rate: d(maker_rate),
        maker_secs_to_settle: 3600,
        hedge_rate_hourly: d(hedge_hourly),
        captured_at: tracker.now(),
    }
}

#[test]
fn positive_carry() {
    let mut tracker = FundingCarryTracker::new(10);
    // Typical: maker rate -0.00053 (-5.3 bps/8h), hedge rate -0.0003 (-3.0 bps/h)
    let snap = make_snap(&tracker, -0.00053, -0.0003);
    let net = f(tracker.update(snap));
    // maker_pnl = -5.3 bps, hedge_pnl_8h = +24 bps -> net = +18.7 bps
    assert!(net > 15.0, "expected positive carry, got {}", net);
    assert_eq!(net, -0.00053 * 10000.0 + 0.0003 * 10000.0 * 8.0);
    assert_eq!(f(tracker.current_carry_bps()), net);
}

#[test]
fn adverse_detection() {
    let mut tracker = FundingCarryTracker::new(10);
    let snap = make_snap(&tracker, 0.001, 0.001); // both positive -> adverse for us
    tracker.update(snap);
    tracker.update(snap);
    tracker.update(snap);
    assert_eq!(tracker.consecutive_adverse(d(0.0)), 3);
}

#[test]
fn funding_history_is_bounded() {
    let mut tracker = FundingCarryTracker::new(2);
    assert!(!tracker.has_data());
    assert_eq!(f(tracker.current_carry_bps()), 0.0);
    assert_eq!(tracker.maker_secs_to_settle(), None);
    assert!(!tracker.hedge_rate_jumped(d(0.0)));
    for rate in [0.001, 0.002, -0.001] {
        let snap = make_snap(&tracker, 0.0, rate);
        tracker.update(snap);
    }
    // -80, -160, +80: the last one is not adverse
    assert_eq!(tracker.consecutive_adverse(d(0.0)), 0);
    assert_eq!(tracker.consecutive_adverse(d(100.0)), 2);
    assert!(tracker.hedge_rate_jumped(d(0.0025)));
    assert!(!tracker.hedge_rate_jumped(d(0.0035)));
    assert!(tracker.has_data());
}

#[test]
fn settlement_comes_closer() {
    let mut tracker = FundingCarryTracker::new(2);
    tracker.update(FundingSnapshot {
        maker_rate: d(0.0),
        maker_secs_to_settle: 100,
        hedge_rate_hourly: d(0.0),
        captured_at: at(50),
    });
    assert_eq!(tracker.maker_secs_to_settle_at(at(50)), Some(100));
    assert_eq!(tracker.maker_secs_to_settle_at(at(110)), Some(40));
    assert_eq!(tracker.maker_secs_to_settle_at(at(500)), Some(0));
}

#[test]
fn normal_mode_never_enters_event() {
    let settings = RegimeSettings {
        strategy_mode: StrategyMode::Normal,
        event_trigger_mid_spread_bps: d(50.0),
        event_trigger_hl_spread_bps: d(4.0),
        event_trigger_confirm_secs: 1,
    };
    let mut controller = RegimeController::new(settings);
    let now = controller.now();
    let decision = controller.update(now, d(120.0), d(10.0));
    assert_eq!(decision.profile, EntryProfile::Normal);
    assert!(!decision.event_active);
}

#[test]
fn dual_mode_enters_event_after_confirm() {
    let settings = RegimeSettings {
        strategy_mode: StrategyMode::Dual,
        event_trigger_mid_spread_bps: d(50.0),
        event_trigger_hl_spread_bps: d(4.0),
        event_trigger_confirm_secs: 1,
    };
    let mut controller = RegimeController::new(settings);
    let now = controller.now();
    let d1 = controller.update(now, d(120.0), d(10.0));
    assert_eq!(d1.profile, EntryProfile::Normal);
    while controller.now().millis_since(&now) < 1100 {}
    let later = controller.now();
    let d2 = controller.update(later, d(120.0), d(10.0));
    assert_eq!(d2.profile, EntryProfile::Event);
    assert!(d2.event_active);
    assert_eq!(d2.direction_filter, Some(OrderSide::Sell));
    assert!(controller.event_active());
    controller.clear_event_with_cooldown(3600);
    assert!(!controller.event_active());
    let later = controller.now();
    assert!(!controller.update(later, d(120.0), d(10.0)).event_active);
}

fn settings(mode: StrategyMode) -> RegimeSettings {
    RegimeSettings {
        strategy_mode: mode,
        event_trigger_mid_spread_bps: d(50.0),
        event_trigger_hl_spread_bps: d(4.0),
        event_trigger_confirm_secs: 2,
    }
}

#[test]
fn a_break_restarts_the_confirmation() {
    let mut c = RegimeController::starting_at(settings(StrategyMode::EventOnly), at(0));
    let x = c.update_at(at(1), at(1), d(-60.0), d(5.0));
    assert!(x.suppress_entries);
    assert_eq!(x.profile, EntryProfile::Event);
    assert_eq!(x.direction_filter, None);
    c.update_at(at(2), at(2), d(-40.0), d(5.0));
    assert!(!c.update_at(at(3), at(3), d(-60.0), d(5.0)).event_active);
    assert!(!c.update_at(at(4), at(4), d(-60.0), d(5.0)).event_active);
    let x = c.update_at(at(5), at(5), d(-60.0), d(5.0));
    assert!(x.event_active);
    assert!(!x.suppress_entries);
    assert_eq!(x.direction_filter, Some(OrderSide::Buy));
    // It goes on although the trigger no longer holds.
    assert!(c.update_at(at(6), at(6), d(0.0), d(0.0)).event_active);
}

#[test]
fn cooldown_blocks_the_next_event() {
    let mut c = RegimeController::starting_at(settings(StrategyMode::Dual), at(0));
    c.update_at(at(0), at(0), d(60.0), d(5.0));
    assert!(c.update_at(at(2), at(2), d(60.0), d(5.0)).event_active);
    c.clear_event_with_cooldown_at(at(10), 0);
    assert!(!c.update_at(at(10), at(20), d(60.0), d(5.0)).event_active);
    c.update_at(at(11), at(11), d(60.0), d(5.0));
    assert!(c.update_at(at(13), at(13), d(60.0), d(5.0)).event_active);
}

#[test]
fn sides_have_names() {
    assert_eq!(OrderSide::Buy.as_str(), "buy");
    assert_eq!(OrderSide::Sell.as_str(), "sell");
}

#[test]
fn basic_stats() {
    let mut ss = SpreadStats::new(10); // 10 second window
    // Push 5 samples at 1-second intervals
    for i in 0..5 {
        ss.push(i * 1000, d(20.0 + i as f64));
    }
    assert_eq!(ss.len(), 5);
    // mean of [20, 21, 22, 23, 24] = 22.0
    assert!((f(ss.mean()) - 22.0).abs() < 0.001);
    assert!(f(ss.std_dev()) > 0.0);
    assert_eq!(f(ss.std_dev()), 2.0f64.sqrt());
    assert!(ss.is_ready(5));
    assert!(!ss.is_ready(6));
}

#[test]
fn expiry() {
    let mut ss = SpreadStats::new(5); // 5 second window
    ss.push(0, d(10.0));
    ss.push(1000, d(20.0));
    ss.push(6000, d(30.0)); // pushes out the first sample
    assert_eq!(ss.len(), 2); // only 1000 and 6000 remain
    assert_eq!(f(ss.mean()), 25.0);
}

#[test]
fn z_score_positive_spike() {
    let mut ss = SpreadStats::new(1800);
    // Fill with 100 samples of ~20 bps
    for i in 0..100 {
        ss.push(i * 1000, d(20.0));
    }
    // std is ~0 since all same value, z_score returns 0 when std < 0.01
    assert_eq!(f(ss.z_score(d(28.0))), 0.0);
    // Add some noise
    let mut ss2 = SpreadStats::new(1800);
    for i in 0..200 {
        ss2.push(i * 1000, d(20.0 + (i % 3) as f64 - 1.0)); // 19, 20, 21 cycle
    }
    let z2 = f(ss2.z_score(d(28.0)));
    assert!(z2 > 2.0, "z_score should be > 2 for large spike, got {}", z2);
}

#[test]
fn statistics_follow_the_running_sums() {
    let mut ss = SpreadStats::new(30);
    let (mut window, mut sum, mut sum_sq) = (Vec::new(), 0.0f64, 0.0f64);
    for i in 0..100i64 {
        let (ts, v) = (i * 997, ((i * 7919) % 101) as f64 / 7.0);
        ss.push(ts, d(v));
        window.push((ts, v));
        sum += v;
        sum_sq += v * v;
        while window[0].0 < ts - 30_000 {
            let (_, old) = window.remove(0);
            sum -= old;
            sum_sq -= old * old;
        }
    }
    let n = window.len() as f64;
    assert_eq!(ss.len(), window.len());
    assert_eq!(f(ss.mean()), sum / n);
    let mean = sum / n;
    assert_eq!(f(ss.std_dev()), (sum_sq / n - mean * mean).max(0.0).sqrt());
    // Fewer than 60 samples
    assert_eq!(f(ss.z_score(d(1000.0))), 0.0);
}

#[test]
fn expired_samples_leave_no_trace() {
    let mut ss = SpreadStats::new(10);
    for i in 0..50 {
        ss.push(i * 1000, d(((i * 37) % 23) as f64));
    }
    let mut only = SpreadStats::new(10);
    for i in 39..50 {
        only.push(i * 1000, d(((i * 37) % 23) as f64));
    }
    assert_eq!(ss.len(), 11);
    assert_eq!(ss.mean(), only.mean());
    assert_eq!(ss.std_dev(), only.std_dev());
    let sum: f64 = (39..50).map(|i| ((i * 37) % 23) as f64).sum();
    assert_eq!(f(ss.mean()), sum / 11.0);
}

#[test]
fn lost_digits_stay_lost() {
    let mut ss = SpreadStats::new(5);
    ss.push(0, d(1e17));
    ss.push(1000, d(1.0));
    ss.push(6000, d(1.0));
    assert_eq!(ss.len(), 2);
    assert_eq!(f(ss.mean()), 0.0);
}

#[test]
fn scores_keep_the_order() {
    let mut ss = SpreadStats::new(1800);
    for i in 0..100 {
        ss.push(i * 1000, d((i % 5) as f64 * 0.3));
    }
    assert_eq!(f(ss.z_score(ss.mean())), 0.0);
    let mut last = f64::NEG_INFINITY;
    for x in [f64::MIN, -7.0, 0.1, 0.1000001, 0.6, 3.0, 1e300, f64::MAX] {
        let z = f(ss.z_score(d(x)));
        assert!(last <= z, "{} after {}", z, last);
        last = z;
    }
}

#[test]
fn scores_of_a_broken_window() {
    let mut ss = SpreadStats::new(1800);
    for i in 0..100 {
        ss.push(i * 1000, d(i as f64));
    }
    ss.push(100_000, d(f64::NAN));
    assert!(f(ss.mean()).is_nan());
    assert_eq!(f(ss.std_dev()), 0.0);
    assert_eq!(f(ss.z_score(d(7.0))), 0.0);
    // The squares are too large: everything finite scores 0
    let mut wide = SpreadStats::new(1800);
    for i in 0..100 {
        wide.push(i * 1000, d(if i % 2 == 0 { 1e200 } else { -1e200 }));
    }
    assert_eq!(f(wide.std_dev()), f64::INFINITY);
    assert_eq!(f(wide.z_score(d(1e300))), 0.0);
    assert_eq!(f(wide.z_score(d(f64::MAX))), 0.0);
    assert_eq!(f(wide.z_score(d(f64::MIN))), 0.0);
}
