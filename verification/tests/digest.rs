//! A digest of times.

use copybot_hot::digest::{bucket, bucket_us, Digest, BUCKETS, OUTLIER_KEEP, OUTLIER_SIGMA};
use copybot_hot::units::Qty;

/// A time in milliseconds, as microseconds.
fn q(ms: f64) -> Qty {
    Qty::Finite((ms * 1e3).round() as i64)
}

/// Millionths of a millisecond as milliseconds.
fn ms(x: impl TryInto<i128>) -> f64 {
    x.try_into().unwrap_or(-1) as f64 / 1e6
}

fn feed(d: &mut Digest, vals: &[f64]) {
    for (i, v) in vals.iter().enumerate() {
        d.push(q(*v), 1_000_000 + i as u128);
    }
}
#[test]
fn memory_is_constant_regardless_of_sample_count() {
    let mut d = Digest::new();
    for i in 0..200_000 {
        d.push(q(20.0 + (i % 7) as f64), i as u128);
    }
    assert_eq!(d.n(), 200_000);
    assert!(d.out.len() <= OUTLIER_KEEP);
    assert_eq!(d.hist.len(), BUCKETS);
    assert_eq!(std::mem::size_of_val(d.hist.as_slice()), BUCKETS * 4);
}
#[test]
fn welford_mean_matches_the_naive_mean() {
    let mut d = Digest::new();
    let vals: Vec<f64> = (1..=1000).map(|i| i as f64).collect();
    feed(&mut d, &vals);
    let naive = vals.iter().sum::<f64>() / vals.len() as f64;
    assert!((ms(d.mean()) - naive).abs() < 1e-9, "{} vs {}", ms(d.mean()), naive);
}
#[test]
fn stddev_is_the_sample_stddev() {
    let mut d = Digest::new();
    feed(&mut d, &[2.0, 4.0, 4.0, 4.0, 5.0, 5.0, 7.0, 9.0]);
    assert!((ms(d.stddev()) - 2.1380899).abs() < 1e-6, "got {}", ms(d.stddev()));
}
#[test]
fn percentiles_survive_compaction_within_bucket_width() {
    let mut d = Digest::new();
    for i in 1..=1000 {
        d.push(q(i as f64), i as u128);
    }
    for (p, want) in [(0.50, 500.0), (0.90, 900.0), (0.99, 990.0)] {
        let got = d.pct((p * 1e6) as u32) as f64 / 1e6;
        assert!((got - want).abs() / want < 0.20, "p{p} got {got} want ~{want}");
    }
}
#[test]
fn only_HIGH_side_deviations_are_kept() {
    let mut d = Digest::new();
    feed(&mut d, &vec![20.0; 200]);
    let before = d.outlier_total;
    d.push(q(0.001), 9);
    assert_eq!(d.outlier_total, before, "a fast sample must not be recorded");
    d.push(q(9999.0), 10);
    assert_eq!(d.outlier_total, before + 1);
}
#[test]
fn outliers_carry_when_and_how_bad() {
    let mut d = Digest::new();
    feed(&mut d, &vec![10.0; 100]);
    for i in 0..5 {
        d.push(q(10.0 + i as f64), 500 + i as u128);
    }
    d.push(q(400.0), 777);
    let o = d.outliers();
    assert!(! o.is_empty());
    assert_eq!(o[0].at, 777, "newest first");
    assert!(o[0].sigma > OUTLIER_SIGMA as i128 * 1_000_000);
    assert_eq!(ms(o[0].ms), 400.0);
}
#[test]
fn a_flat_series_produces_no_outliers() {
    let mut d = Digest::new();
    feed(&mut d, &vec![25.0; 500]);
    assert_eq!(d.outlier_total, 0);
    assert_eq!(ms(d.stddev()), 0.0);
}
#[test]
fn nothing_is_flagged_before_the_mean_is_trustworthy() {
    let mut d = Digest::new();
    feed(&mut d, &[5.0, 5.0, 900.0]);
    assert_eq!(d.outlier_total, 0, "too few samples to call anything anomalous");
}
#[test]
fn the_outlier_ring_is_bounded_but_counts_every_incident() {
    let mut d = Digest::new();
    feed(&mut d, &vec![10.0; 100]);
    let mut t = 1000u128;
    for _ in 0..(OUTLIER_KEEP * 2) {
        for _ in 0..20 {
            d.push(q(10.0), t);
            t += 1;
        }
        d.push(q(5000.0), t);
        t += 1;
    }
    assert!(
        d.outlier_total > OUTLIER_KEEP as u64,
        "every isolated spike is an incident, got {}", d.outlier_total
    );
    assert_eq!(d.outliers().len(), OUTLIER_KEEP, "retention is capped");
    assert_eq!(d.outliers() [0].at, t - 1);
}
#[test]
fn a_sustained_shift_is_a_regime_change_not_endless_incidents() {
    let mut d = Digest::new();
    feed(&mut d, &vec![10.0; 100]);
    for i in 0..500 {
        d.push(q(500.0), 2000 + i as u128);
    }
    assert!(
        d.outlier_total < 50, "a new plateau must not flag every sample: {}", d
        .outlier_total
    );
}
#[test]
fn a_bad_sample_cannot_poison_the_running_stats() {
    let mut d = Digest::new();
    feed(&mut d, &[10.0, 20.0]);
    d.push(Qty::NotFinite, 1);
    d.push(Qty::NotFinite, 2);
    d.push(q(-3.0), 3);
    assert_eq!(d.n(), 2);
    assert_eq!(ms(d.mean()), 15.0);
}
#[test]
fn buckets_round_trip_within_their_own_width() {
    for ms in [0.1, 1.0, 9.0, 21.0, 175.0, 1500.0, 10_000.0, 30_000.0] {
        let lo = bucket_us(bucket((ms * 1e3) as u64)) as f64 / 1e3;
        assert!(
            lo <= ms * 1.001 && ms < lo * 2f64.powf(1.0 / 4.0) * 1.001,
            "{ms} landed in bucket starting {lo}"
        );
    }
}
#[test]
fn an_empty_digest_reports_nothing_rather_than_zeros() {
    let d = Digest::new();
    assert_eq!(d.json().unsigned_at("n"), Some(0));
    assert!(d.json().get("p50").is_none(), "zeros would read as a blazing venue");
}

#[test]
fn the_longest_times_fall_in_the_last_class() {
    assert_eq!(bucket(u64::MAX), BUCKETS - 1);
    assert_eq!(bucket(5_000_000_000), BUCKETS - 1);
    assert_eq!(bucket(0), 0);
}

#[test]
fn a_long_time_counts_in_full() {
    let mut d = Digest::new();
    let long = i64::MAX;
    for _ in 0..40 {
        d.push(Qty::Finite(long), u128::MAX);
    }
    assert_eq!(d.mean(), long as u128 * 1_000);
    assert_eq!((d.stddev(), d.max, d.n()), (0, long as u64, 40));
    let mut e = Digest::new();
    feed(&mut e, &vec![1.0; 99]);
    e.push(Qty::Finite(long), u128::MAX);
    e.push(Qty::Finite(1_000), 5);
    let o = e.outliers();
    assert_eq!((o.len(), o[0].ms, o[0].at, o[0].by), (1, long as i128 * 1_000, u128::MAX, "ratio"));
}

#[test]
fn a_sigma_is_exact() {
    let mut d = Digest::new();
    for i in 0..30 {
        d.push(Qty::Finite(if i % 2 == 0 { 1_000 } else { 3_000 }), i);
    }
    d.push(Qty::Finite(12_000), 77);
    let o = d.outliers();
    assert_eq!((o[0].at, o[0].by, o[0].sigma), (77, "sigma", 9_831_920));
}
