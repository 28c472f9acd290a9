//! When a lane is stopped.

use copybot_hot::risk::{LaneRisk, RiskConfig};

/// A number as millionths.
fn u(x: f64) -> i64 {
    (x * 1e6).round() as i64
}

/// A result as units of twelve places.
fn p(x: f64) -> i128 {
    i128::from(u(x)) * 1_000_000
}

fn lane(cfg: RiskConfig) -> LaneRisk {
    LaneRisk::new("t", cfg)
}
#[test]
fn dollar_drawdown_trips() {
    let mut l = lane(RiskConfig {
        max_drawdown_usd: u(100.0),
        ..Default::default()
    });
    l.on_close(p(200.0));
    assert!(l.evaluate().is_none());
    l.on_close(p(-99.0));
    assert!(l.evaluate().is_none(), "99 < 100 must not trip");
    l.on_close(p(-2.0));
    assert!(l.evaluate().unwrap().contains("drawdown"));
}
#[test]
fn pct_drawdown_measures_from_the_peak_not_from_zero() {
    let mut l = lane(RiskConfig {
        max_drawdown_pct: u(0.20),
        ..Default::default()
    });
    l.on_close(p(100.0));
    l.on_close(p(-15.0));
    assert!(l.evaluate().is_none());
    l.on_close(p(-6.0));
    assert!(l.evaluate().unwrap().contains("high-water"));
}
#[test]
fn a_profitable_lane_can_still_be_in_drawdown() {
    let mut l = lane(RiskConfig {
        max_drawdown_usd: u(50.0),
        ..Default::default()
    });
    for _ in 0..10 {
        l.on_close(p(20.0));
    }
    assert!(l.evaluate().is_none());
    l.on_close(p(-60.0));
    assert!(l.evaluate().is_some());
}
#[test]
fn a_win_resets_the_loss_streak() {
    let mut l = lane(RiskConfig {
        max_consecutive_losses: 3,
        ..Default::default()
    });
    l.on_close(p(-1.0));
    l.on_close(p(-1.0));
    assert!(l.evaluate().is_none());
    l.on_close(p(1.0));
    l.on_close(p(-1.0));
    l.on_close(p(-1.0));
    assert!(l.evaluate().is_none());
    l.on_close(p(-1.0));
    assert!(l.evaluate().unwrap().contains("consecutive losses"));
}
#[test]
fn pnl_skew_needs_a_full_window_first() {
    let mut l = lane(RiskConfig {
        pnl_skew_window: 10,
        pnl_skew_threshold_usd: u(-1.0),
        ..Default::default()
    });
    for _ in 0..9 {
        l.on_close(p(-5.0));
    }
    assert!(l.evaluate().is_none(), "must not trip on a partial window");
    l.on_close(p(-5.0));
    assert!(l.evaluate().is_some());
}
#[test]
fn a_tripped_breaker_stays_tripped_even_if_pnl_recovers() {
    let mut l = lane(RiskConfig {
        max_drawdown_usd: u(10.0),
        ..Default::default()
    });
    l.on_close(p(100.0));
    l.on_close(p(-20.0));
    let r = l.evaluate().unwrap();
    for _ in 0..20 {
        l.on_close(p(50.0));
    }
    assert_eq!(
        l.evaluate().unwrap(), r, "auto-resume turns a bad day into a disaster"
    );
}
#[test]
fn operator_clear_rebases_so_it_does_not_instantly_retrip() {
    let mut l = lane(RiskConfig {
        max_drawdown_usd: u(10.0),
        ..Default::default()
    });
    l.on_close(p(100.0));
    l.on_close(p(-20.0));
    assert!(l.evaluate().is_some());
    l.clear();
    assert!(l.evaluate().is_none());
    assert_eq!(l.high_water, l.realised_pnl);
}
#[test]
fn disabled_limits_never_trip() {
    let mut l = lane(RiskConfig::default());
    for _ in 0..50 {
        l.on_close(p(-1000.0));
    }
    assert!(l.evaluate().is_none());
}
#[test]
fn runaway_open_positions_trip() {
    let mut l = lane(RiskConfig {
        max_open_positions: 3,
        ..Default::default()
    });
    for _ in 0..4 {
        l.on_open();
    }
    assert!(l.evaluate().unwrap().contains("open positions"));
}
