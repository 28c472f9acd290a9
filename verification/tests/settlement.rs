//! Redemptions of resolved markets.

use copybot_hot::json::read_json;
use copybot_hot::settlement::{
    cross_writer_key, parse_redemptions, resolved_payout, unbooked, PositionView, Redemption,
};
use copybot_hot::table::Table;
use copybot_hot::units::Qty;

/// A number as millionths.
fn u(x: f64) -> i64 {
    (x * 1e6).round() as i64
}

fn red(tx: &str, cond: &str, idx: u32, size: i64, usdc: i64, ts: i64) -> Redemption {
    Redemption {
        tx: tx.into(),
        asset: String::new(),
        condition_id: cond.into(),
        outcome_index: idx,
        size: size as i128 * 1_000_000,
        usdc: usdc as i128 * 1_000_000,
        ts,
    }
}
#[test]
fn a_DUPLICATE_row_in_ONE_batch_is_booked_only_once() {
    let rows = vec![
        red("0xaa", "0xc1", 0, u(100.0), u(100.0), 1_000), red("0xaa", "0xc1", 0, u(100.0),
        u(100.0), 1_000), red("0xbb", "0xc1", 0, u(50.0), u(50.0), 1_010)
    ];
    let got = unbooked(&rows, &Table::new());
    assert_eq!(
        got.len(), 2, "the duplicate must be collapsed, the distinct one kept"
    );
    assert_eq!(got[0].tx, "0xaa");
    assert_eq!(got[1].tx, "0xbb");
}
#[test]
fn an_ALREADY_BOOKED_key_is_still_skipped() {
    let rows = vec![red("0xaa", "0xc1", 0, u(100.0), u(100.0), 1_000)];
    let mut booked = Table::new();
    booked.insert(rows[0].key(), ());
    assert!(unbooked(& rows, & booked).is_empty());
}
#[test]
fn the_idempotency_key_is_PER_LANE() {
    let r = red("0xaa", "0xc1", 0, u(100.0), u(100.0), 1_000);
    assert_ne!(r.lane_key("example_lane_26"), r.lane_key("example_lane_25"));
    assert!(r.lane_key("example_lane_26").contains(& r.key()));
}
#[test]
fn two_outcomes_of_ONE_tx_stay_distinct() {
    let a = red("0xaa", "0xc1", 0, u(10.0), u(10.0), 1);
    let b = red("0xaa", "0xc1", 1, u(10.0), u(0.0), 1);
    assert_ne!(a.key(), b.key());
    assert_eq!(unbooked(& [a, b], & Table::new()).len(), 2);
}
#[test]
fn a_redeemable_winner_books_at_par_a_loser_at_zero() {
    assert_eq!(
        resolved_payout(PositionView { redeemable : true, cur_price : Qty::Finite(u(1.0)) }),
        Some(u(1.0))
    );
    assert_eq!(
        resolved_payout(PositionView { redeemable : true, cur_price : Qty::Finite(u(0.0)) }),
        Some(u(0.0))
    );
    assert_eq!(
        resolved_payout(PositionView { redeemable : true, cur_price : Qty::Finite(u(1.4)) }),
        None
    );
    assert_eq!(
        resolved_payout(PositionView { redeemable : true, cur_price : Qty::Finite(u(-0.2)) }),
        None
    );
}
#[test]
fn a_still_trading_position_is_left_alone() {
    assert_eq!(
        resolved_payout(PositionView { redeemable : false, cur_price : Qty::Finite(u(0.93)) }), None
    );
}
#[test]
fn parse_keeps_only_bookable_redeems() {
    let body = read_json(r#"[{ "type": "REDEEM", "transactionHash": "0xaa", "conditionId": "0xc1", "outcomeIndex": 0, "size": 5.11, "usdcSize": 5.11, "timestamp": 1000 }, { "type": "TRADE", "transactionHash": "0xbb", "size": 9.0 }, { "type": "REDEEM", "transactionHash": "0xcc", "conditionId": "0xc2", "outcomeIndex": 1, "size": 0.0, "usdcSize": 0.0, "timestamp": 1001 }]"#).unwrap();
    let reds = parse_redemptions(&body);
    assert_eq!(reds.len(), 1);
    assert_eq!(reds[0].tx, "0xaa");
    assert!(reds[0].usdc == 5_110_000_000_000);
}
#[test]
fn unbooked_filters_out_already_recorded_keys() {
    let body = read_json(r#"[{ "type": "REDEEM", "transactionHash": "0xaa", "conditionId": "0xc1", "outcomeIndex": 0, "size": 5.0, "usdcSize": 5.0, "timestamp": 1000 }, { "type": "REDEEM", "transactionHash": "0xbb", "conditionId": "0xc2", "outcomeIndex": 1, "size": 7.0, "usdcSize": 3.5, "timestamp": 1001 }]"#).unwrap();
    let reds = parse_redemptions(&body);
    let mut seen = Table::new();
    seen.insert(reds[0].key(), ());
    let todo = unbooked(&reds, &seen);
    assert_eq!(todo.len(), 1);
    assert_eq!(todo[0].tx, "0xbb");
}
#[test]
fn the_idempotency_key_separates_two_conditions_in_one_tx() {
    let a = Redemption {
        tx: "0xtx".into(),
        asset: String::new(),
        condition_id: "0xc1".into(),
        outcome_index: 0,
        size: 1_000_000_000_000,
        usdc: 1_000_000_000_000,
        ts: 1,
    };
    let b = Redemption {
        tx: "0xtx".into(),
        asset: String::new(),
        condition_id: "0xc2".into(),
        outcome_index: 0,
        size: 1_000_000_000_000,
        usdc: 1_000_000_000_000,
        ts: 1,
    };
    assert_ne!(a.key(), b.key(), "one tx redeeming two markets must be two keys");
}

#[test]
fn both_writers_of_a_settlement_use_one_key() {
    assert_eq!(cross_writer_key("lane", "T"), "settle:lane:T");
}

#[test]
fn a_redemption_never_pays_more_than_one_a_share() {
    let body = read_json(r#"[{ "type": "REDEEM", "transactionHash": "0xaa", "conditionId": "0xc1", "outcomeIndex": 0, "size": 0.6666666, "usdcSize": 0.6666667, "timestamp": 1000 }, { "type": "REDEEM", "transactionHash": "0xab", "conditionId": "0xc1", "outcomeIndex": 0, "size": 0.6666667, "usdcSize": 0.6666666, "timestamp": 1000 }]"#).unwrap();
    let reds = parse_redemptions(&body);
    assert_eq!(reds.len(), 1);
    assert_eq!((reds[0].tx.as_str(), reds[0].size), ("0xab", 666_666_700_000));
    let dust = Redemption { size: 1_000, usdc: 0, ..red("0x1", "0xc", 0, 0, 0, 1) };
    assert!(!dust.is_bookable());
    let more = Redemption { size: 1_001, usdc: 1_001, ..red("0x1", "0xc", 0, 0, 0, 1) };
    assert!(more.is_bookable());
}
