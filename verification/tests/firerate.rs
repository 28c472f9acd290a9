//! How often a lane may fire.

use copybot_hot::firerate::{
    is_overcopy, FireRate, DEFAULT_LIMIT, MAX_LANES, OVERCOPY_TOLERANCE, WINDOW_SECS,
};
use copybot_hot::units::Qty;

/// A number as millionths.
fn u(x: f64) -> i64 {
    (x * 1e6).round() as i64
}

fn q(x: i64) -> Qty {
    Qty::Finite(x)
}

#[test]
fn HIS_measured_maximum_never_trips_it() {
    let mut f = FireRate::new(1, DEFAULT_LIMIT);
    for i in 0..3 {
        assert!(! f.record(0, 1000 + i), "tripped on his REAL measured behaviour");
    }
}
#[test]
fn a_comfortable_burst_below_the_limit_is_allowed() {
    let mut f = FireRate::new(1, DEFAULT_LIMIT);
    for i in 0..DEFAULT_LIMIT - 1 {
        assert!(
            ! f.record(0, 1000 + i as i64), "tripped at fire {i}, limit is {}",
            DEFAULT_LIMIT
        );
    }
}
#[test]
fn the_RUNAWAY_trips_it_within_the_burst() {
    let mut f = FireRate::new(1, DEFAULT_LIMIT);
    let mut tripped_at = None;
    for i in 0..120 {
        if f.record(0, 1000) && tripped_at.is_none() {
            tripped_at = Some(i);
        }
    }
    assert_eq!(
        tripped_at, Some(DEFAULT_LIMIT - 1),
        "the limit-th attempted fire must be stopped, got {tripped_at:?}"
    );
}
#[test]
fn the_window_ROLLS_so_a_slow_steady_rate_never_trips() {
    let mut f = FireRate::new(1, DEFAULT_LIMIT);
    for i in 0..500 {
        assert!(! f.record(0, 1000 + i * 10), "a sustainable rate tripped at {i}");
    }
}
#[test]
fn lanes_are_INDEPENDENT() {
    let mut f = FireRate::new(2, DEFAULT_LIMIT);
    for _ in 0..(DEFAULT_LIMIT + 5) {
        f.record(0, 1000);
    }
    assert!(f.record(0, 1000), "lane 0 should be over");
    assert!(! f.record(1, 1000), "lane 1 must be unaffected by lane 0");
}
#[test]
fn old_fires_leave_the_window() {
    let mut f = FireRate::new(1, DEFAULT_LIMIT);
    for _ in 0..DEFAULT_LIMIT {
        f.record(0, 1000);
    }
    assert_eq!(f.count(0, 1000), DEFAULT_LIMIT);
    assert_eq!(f.count(0, 1000 + WINDOW_SECS), 0, "the window must expire fires");
    assert!(! f.record(0, 1000 + WINDOW_SECS), "a fresh window starts clean");
}
#[test]
fn the_window_boundary_is_EXCLUSIVE_at_exactly_WINDOW_SECS() {
    let mut f = FireRate::new(1, DEFAULT_LIMIT);
    f.record(0, 1000);
    assert_eq!(
        f.count(0, 1000 + WINDOW_SECS - 1), 1, "one second short: still inside"
    );
    assert_eq!(f.count(0, 1000 + WINDOW_SECS), 0, "exactly at the edge: outside");
}
#[test]
fn a_lane_index_beyond_MAX_LANES_still_fails_closed() {
    let mut f = FireRate::new(1, DEFAULT_LIMIT);
    assert!(f.record(MAX_LANES, 1000));
    assert_eq!(f.count(MAX_LANES, 1000), 0);
}
#[test]
fn a_RUNTIME_LOADED_lane_starts_with_a_clean_window_not_an_instant_breach() {
    let mut f = FireRate::new(1, DEFAULT_LIMIT);
    assert!(
        ! f.record(1, 1000), "a brand-new lane's FIRST fire must not be a breach"
    );
    for i in 1..DEFAULT_LIMIT - 1 {
        assert!(
            ! f.record(1, 1000 + i as i64), "tripped at fire {i} for a fresh lane"
        );
    }
    assert!(
        f.record(1, 1000 + DEFAULT_LIMIT as i64 - 1),
        "a runtime-loaded lane still enforces its OWN limit once it exists"
    );
}
#[test]
fn runtime_lanes_can_arrive_OUT_OF_ORDER_without_failing_closed() {
    let mut f = FireRate::new(1, DEFAULT_LIMIT);
    assert!(
        ! f.record(2, 1000), "lane 2 loading and firing before lane 1 ever does"
    );
    assert!(! f.record(1, 1000), "lane 1's own first fire, independently clean");
}
#[test]
fn growth_never_disturbs_an_EARLIER_lanes_own_window() {
    let mut f = FireRate::new(1, DEFAULT_LIMIT);
    for _ in 0..(DEFAULT_LIMIT + 5) {
        f.record(0, 1000);
    }
    assert!(f.record(0, 1000), "lane 0 (example_lane_26) already over its limit");
    assert!(
        ! f.record(3, 1000), "growing to fit a new lane 3 must not affect lane 0"
    );
    assert!(f.record(0, 1000), "lane 0 is still over its limit after the growth");
}
#[test]
fn the_2026_07_31_RUNAWAY_is_still_caught() {
    assert!(
        is_overcopy(q(u(5000.0)), q(u(1560.0)), u(0.10), OVERCOPY_TOLERANCE),
        "the incident this guard exists for must still trip it"
    );
}
#[test]
fn the_example_lane_23_2026_08_16_FALSE_POSITIVE_is_not_caught() {
    assert!(
        ! is_overcopy(q(u(19000.0)), q(u(1614.375)), u(0.10), OVERCOPY_TOLERANCE),
        "correct multi-tranche mirroring must NOT halt the lane"
    );
}
#[test]
fn an_UNKNOWN_denominator_is_not_a_malfunction() {
    assert!(! is_overcopy(q(u(0.0)), q(u(500.0)), u(0.10), OVERCOPY_TOLERANCE));
    assert!(! is_overcopy(q(u(-1.0)), q(u(500.0)), u(0.10), OVERCOPY_TOLERANCE));
    assert!(! is_overcopy(q(u(1000.0)), q(u(500.0)), u(0.0), OVERCOPY_TOLERANCE));
    assert!(! is_overcopy(Qty::NotFinite, q(u(500.0)), u(0.10), OVERCOPY_TOLERANCE));
}
#[test]
fn it_scales_with_the_LANE_not_a_hardcoded_fraction() {
    assert!(is_overcopy(q(u(1000.0)), q(u(250.0)), u(0.10), OVERCOPY_TOLERANCE));
    assert!(! is_overcopy(q(u(1000.0)), q(u(250.0)), u(0.20), OVERCOPY_TOLERANCE));
}
#[test]
fn exactly_at_tolerance_does_NOT_trip() {
    assert!(! is_overcopy(q(u(1000.0)), q(u(150.0)), u(0.10), u(1.5)), "boundary is inclusive-safe");
    assert!(is_overcopy(q(u(1000.0)), q(u(150.01)), u(0.10), u(1.5)));
}

#[test]
fn a_limit_trips_at_that_many_fires_inside_the_window() {
    let mut f = FireRate::new(2, 3);
    assert!(!f.record(0, 100) && !f.record(1, 100) && !f.record(0, 110));
    assert_eq!(f.count(0, 129), 2);
    assert!(!f.record(0, 130), "the first has left the window");
    assert!(f.record(0, 139));
    assert!(f.record(MAX_LANES, 139) && f.count(1, 129) == 1);
}
