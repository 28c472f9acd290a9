//! Round trips by name.

use copybot_hot::json::Json;
use copybot_hot::latency::{probe_sample, Latency};
use copybot_hot::units::Qty;

const AT: u128 = 1_000;

/// A time in milliseconds, as microseconds.
fn q(ms: f64) -> Qty {
    Qty::Finite((ms * 1e3).round() as i64)
}

#[test]
fn venue_is_the_difference_of_medians() {
    let mut l = Latency::new();
    for _ in 0..60 {
        l.record("order", q(200.0), AT);
        l.record("baseline", q(175.0), AT);
    }
    let v = l.venue_ms().unwrap() as f64 / 1e6;
    assert!(
        v > 0.0, "order is slower than baseline; venue_ms must be positive: {v}"
    );
    assert!(v < 100.0, "implausible differential: {v}");
}
#[test]
fn venue_is_none_until_BOTH_series_exist() {
    let mut l = Latency::new();
    assert!(l.venue_ms().is_none());
    l.record("order", q(200.0), AT);
    assert!(l.venue_ms().is_none(), "order alone must not yield a venue estimate");
    l.record("baseline", q(175.0), AT);
    assert!(l.venue_ms().is_some());
}
#[test]
fn venue_may_be_NEGATIVE_and_is_reported_not_clamped() {
    let mut l = Latency::new();
    for _ in 0..60 {
        l.record("order", q(44.0), AT);
        l.record("baseline", q(179.0), AT);
    }
    assert!((l.venue_ms().unwrap() as f64) < 0.0);
}
#[test]
fn per_path_rtt_is_tracked_separately_so_one_sick_route_is_visible() {
    let mut l = Latency::new();
    for _ in 0..40 {
        l.record_order(q(20.0), &[("h1".into(), q(20.0)), ("h2".into(), q(95.0))], AT);
    }
    let h1 = l.p50("path.h1").unwrap() as f64 / 1e6;
    let h2 = l.p50("path.h2").unwrap() as f64 / 1e6;
    assert!(h2 > h1 * 2.0, "the slow path must stand out: h1={h1} h2={h2}");
    assert!(
        ((l.p50("order").unwrap() as f64 / 1e6) - h1).abs() < h1 * 0.25,
        "the winner's RTT is the fast path"
    );
}
#[test]
fn snapshot_labels_raw_rtt_as_network_bound() {
    let mut l = Latency::new();
    l.record("order", q(200.0), AT);
    l.record("baseline", q(175.0), AT);
    let s = l.snapshot();
    assert!(
        s.text_at("note").unwrap().contains("NETWORK-BOUND"),
        "the snapshot must warn that raw RTT is not portable"
    );
    assert!(s.get("series").unwrap().get("order").unwrap().unsigned_at("n").unwrap() >= 1);
}
#[test]
fn an_empty_tracker_reports_nothing_rather_than_zero() {
    let l = Latency::new();
    assert!(l.stats("order").is_none());
    assert!(matches!(l.snapshot().get("venue_ms"), Some(Json::Null)));
}
#[test]
fn a_bad_sample_cannot_poison_the_series() {
    let mut l = Latency::new();
    l.record("x", q(10.0), AT);
    l.record("x", Qty::NotFinite, AT);
    l.record("x", q(-5.0), AT);
    assert_eq!(l.stats("x").unwrap().unsigned_at("n"), Some(1));
}
#[test]
fn memory_does_not_grow_with_sample_count() {
    let mut l = Latency::new();
    for i in 0..100_000 {
        l.record("order", q(20.0 + (i % 5) as f64), AT);
    }
    assert_eq!(l.stats("order").unwrap().unsigned_at("n"), Some(100_000));
    let kept = l
        .stats("order")
        .unwrap()
        .list_at("recent_outliers")
        .unwrap()
        .len();
    assert!(kept <= 8, "snapshot carries only the highlights");
}
#[test]
fn a_slow_spike_is_retained_as_a_highlight() {
    let mut l = Latency::new();
    for _ in 0..200 {
        l.record("order", q(20.0), AT);
    }
    l.record("order", q(5000.0), AT);
    let s = l.stats("order").unwrap();
    assert!(s.unsigned_at("outliers").unwrap() >= 1, "the spike must be flagged");
    let recent = s.list_at("recent_outliers").unwrap();
    assert!(
        recent.iter().any(| o | o.micros_at("ms").unwrap() as f64 / 1e6 > 4000.0),
        "the spike must be individually recoverable: {recent:?}"
    );
}

#[test]
fn a_probe_that_fails_counts_as_a_millisecond() {
    assert_eq!(probe_sample(true, 175_000), ("baseline", Qty::Finite(175_000)));
    assert_eq!(probe_sample(false, 175_000), ("baseline.err", Qty::Finite(1_000)));
}
