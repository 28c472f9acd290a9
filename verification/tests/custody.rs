//! What the book says held against what the venue says.

use copybot_hot::custody::{audit, classify, describe, lane_share_of, Holding, Verdict};
use copybot_hot::units::Qty;

/// A number as millionths.
fn u(x: f64) -> i64 {
    (x * 1e6).round() as i64
}

fn d(x: f64) -> i128 {
    i128::from(u(x))
}

fn holding(ledger: f64, venue: f64) -> Holding {
    Holding {
        lane: "a".into(),
        token: "0123456789".into(),
        ledger: Qty::Finite(u(ledger)),
        venue: Qty::Finite(u(venue)),
        in_flight: 0,
        in_flight_buy: 0,
    }
}

#[test]
fn a_difference_is_agreed_explained_or_alarming() {
    assert_eq!(classify(&holding(100.0, 100.1), true), Verdict::Agreed);
    assert_eq!(classify(&holding(100.0, 100.9), true), Verdict::Agreed);
    assert_eq!(classify(&holding(100.0, 101.0), true), Verdict::Unattributed { delta: d(1.0) });
    let sold = Holding { in_flight: u(-20.0), ..holding(100.0, 80.0) };
    assert_eq!(
        classify(&sold, true),
        Verdict::Explained { delta: d(-20.0), in_flight: d(20.0) }
    );
    let bought = Holding { in_flight_buy: u(20.0), ..holding(100.0, 120.0) };
    assert_eq!(
        classify(&bought, true),
        Verdict::Explained { delta: d(20.0), in_flight: d(20.0) }
    );
    let wrong_way = Holding { in_flight: u(20.0), ..holding(100.0, 120.0) };
    assert!(classify(&wrong_way, true).is_alarm());
}

#[test]
fn an_incomplete_read_alarms_nobody() {
    assert_eq!(classify(&holding(100.0, 0.0), false), Verdict::Unknown);
    let nan = Holding { venue: Qty::NotFinite, ..holding(100.0, 0.0) };
    assert_eq!(classify(&nan, true), Verdict::Unknown);
    let r = audit(&[holding(100.0, 0.0), holding(5.0, 0.0)], false);
    assert!(!r.is_alarm() && r.unknown == 2);
    assert_eq!(describe(&r), "custody: venue position read was incomplete — no comparison made");
}

#[test]
fn the_verdicts_of_an_audit_add_up() {
    let mut v: Vec<Holding> = (0..20).map(|i| holding(100.0, 110.0 + f64::from(i))).collect();
    v.push(holding(7.0, 7.0));
    v.push(Holding { in_flight: u(3.0), ..holding(7.0, 4.0) });
    let r = audit(&v, true);
    assert_eq!((r.checked, r.agreed, r.explained, r.unattributed, r.unknown), (22, 1, 1, 20, 0));
    assert_eq!(r.rows.len(), 12);
    assert_eq!((r.rows[0].delta, r.rows[11].delta), (d(29.0), d(18.0)));
    assert_eq!(r.unattributed_shares, d(390.0));
    assert_eq!(
        describe(&r),
        "custody: 20 holding(s) moved with NO order of ours behind them — 390.0000 shares \
total; worst a …23456789 ledger 100.0000 vs venue 129.0000 (+29.0000)"
    );
    let calm = audit(&v[20..], true);
    assert_eq!(
        describe(&calm),
        "custody: 1 holdings agree with the venue (1 explained by orders in flight)"
    );
}

#[test]
fn a_lane_has_what_the_others_do_not_claim() {
    assert_eq!(lane_share_of(u(100.0), d(80.0), u(30.0)), d(50.0));
    assert_eq!(lane_share_of(u(10.0), d(80.0), u(30.0)), 0);
}
