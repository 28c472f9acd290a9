//! Where an order came from.

use copybot_hot::provenance::{Origin, Provenance};

/// A number as millionths.
fn u(x: f64) -> i64 {
    (x * 1e6).round() as i64
}

fn buy(shares: i64, his_filled: i64, our_copied: i64) -> Provenance {
    Provenance::mirrored(
        Origin::MirrorBuy,
        "example_lane_26",
        "T",
        0,
        shares,
        u(0.08),
        u(0.0),
        Some(u(5000.0)),
        Some(u(5000.0)),
        Some(his_filled),
        Some(our_copied),
    )
}
#[test]
fn every_origin_has_a_stable_kind_and_they_are_all_distinct() {
    let all = [
        Origin::MirrorBuy,
        Origin::MirrorSell,
        Origin::ExitLadder,
        Origin::ExitRescue { attempt: 1 },
        Origin::DustSweep {
            reason: "r".into(),
        },
        Origin::Flatten {
            mode: "panic".into(),
        },
        Origin::MergeReconcile,
        Origin::OrphanSweep,
    ];
    let kinds: std::collections::HashSet<_> = all.iter().map(|o| o.kind()).collect();
    assert_eq!(
        kinds.len(), all.len(),
        "two origins share a label — forensics cannot \
                                        tell those paths apart"
    );
    assert!(all.iter().all(| o | ! o.kind().is_empty()));
}
#[test]
fn the_detail_that_distinguishes_two_runs_survives_into_the_label() {
    assert_eq!(Origin::Flatten { mode : "panic".into() } .label(), "flatten:panic");
    assert_eq!(
        Origin::Flatten { mode : "hybrid".into() } .label(), "flatten:hybrid"
    );
    assert_eq!(Origin::ExitRescue { attempt : 3 } .label(), "exit_rescue:attempt3");
}
#[test]
fn THE_RUNAWAY_METRIC_is_a_field_not_an_investigation() {
    let tranche = buy(u(14.86), u(2236.0), u(1519.0));
    let pct = tranche.pct_of_his_fill().unwrap();
    assert!(
        pct > i128::from(u(0.68)) && pct < i128::from(u(0.70)), "expected the measured runaway ratio, got {pct}"
    );
    let ok = buy(u(483.0), u(5000.0), u(0.0));
    assert!((ok.pct_of_his_fill().unwrap() - i128::from(u(0.0966))).abs() < i128::from(u(0.001)));
    assert!(
        buy(u(14.86), u(1.16), u(0.0)).pct_of_his_fill().unwrap() > i128::from(u(1.0)),
        "the FIRST clip already exceeded his fill; the floor lift is visible \
             from row one when the ratio is carried"
    );
}
#[test]
fn an_UNKNOWN_leader_position_is_ABSENT_from_the_row_never_zero() {
    let p = Provenance::own(
        Origin::DustSweep {
            reason: "x".into(),
        },
        "example_lane_26",
        "T",
        1,
        u(5.0),
        u(0.5),
        u(10.0),
    );
    let j = p.to_json();
    assert!(
        j.get("his_position").is_none(),
        "an unknown leader position rendered as a number reads as `he is flat`"
    );
    assert!(j.get("pct_of_his_fill").is_none());
}
#[test]
fn a_sell_reports_what_fraction_of_our_position_it_takes() {
    let p = Provenance::own(Origin::MirrorSell, "example_lane_26", "T", 1, u(50.0), u(0.5), u(200.0));
    assert_eq!(p.pct_of_our_holding(), Some(i128::from(u(0.25))));
    assert!(! p.is_oversell());
}
#[test]
fn a_FULL_EXIT_OF_THE_CHAIN_BALANCE_is_not_an_oversell() {
    let p = Provenance::own(
        Origin::Flatten {
            mode: "panic".into(),
        },
        "example_lane_26",
        "T",
        1,
        u(1780.15),
        u(0.09),
        u(1780.1426),
    );
    assert!(
        ! p.is_oversell(), "a full exit of the chain balance is the normal case"
    );
    assert!(p.to_json().get("OVERSELL").is_none());
    assert!(
        ! Provenance::own(Origin::MirrorSell, "example_lane_26", "T", 1, u(50_010.0), u(0.5),
        u(50_000.0)).is_oversell()
    );
}
#[test]
fn an_OVERSELL_is_flagged_on_the_row_itself() {
    let p = Provenance::own(Origin::OrphanSweep, "example_lane_26", "T", 1, u(300.0), u(0.5), u(200.0));
    assert!(p.is_oversell());
    assert_eq!(p.to_json().bool_at("OVERSELL"), Some(true));
    assert!(p.pct_of_our_holding().unwrap() > i128::from(u(1.0)));
}
#[test]
fn a_BUY_never_reports_a_holding_fraction() {
    let p = buy(u(100.0), u(1000.0), u(0.0));
    assert_eq!(p.pct_of_our_holding(), None);
    assert!(! p.is_oversell());
}
#[test]
fn leader_driven_separates_HE_SOLD_from_WE_DECIDED() {
    assert!(Origin::MirrorSell.is_leader_driven());
    assert!(! Origin::Flatten { mode : "panic".into() } .is_leader_driven());
    assert!(! Origin::OrphanSweep.is_leader_driven());
    assert!(! Origin::DustSweep { reason : "r".into() } .is_leader_driven());
}
#[test]
fn the_persisted_why_is_the_origin_label_so_old_rows_still_parse() {
    let p = Provenance::own(
        Origin::Flatten {
            mode: "graceful".into(),
        },
        "example_lane_26",
        "T",
        1,
        u(5.0),
        u(0.5),
        u(5.0),
    );
    assert_eq!(p.why(), "flatten:graceful");
}
#[test]
fn a_zero_or_absent_denominator_is_None_not_a_division_by_zero() {
    assert_eq!(buy(u(10.0), u(0.0), u(0.0)).pct_of_his_fill(), None);
    let p = Provenance::own(Origin::MirrorSell, "example_lane_26", "T", 1, u(5.0), u(0.5), u(0.0));
    assert_eq!(p.pct_of_our_holding(), None);
    assert!(! p.is_oversell(), "no position means no oversell, not an infinite one");
}
