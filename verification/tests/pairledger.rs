//! Pairs that a leader minted and merged.

use copybot_hot::json::read_json;
use copybot_hot::pairledger::{
    seed_row_from_activity, seed_rows_from_activity, MergeSignal, PairLedger,
};
use copybot_hot::units::Qty;

/// A number as millionths.
fn u(x: f64) -> i64 {
    (x * 1e6).round() as i64
}

fn q(x: f64) -> Qty {
    Qty::Finite(u(x))
}

#[test]
fn merging_what_was_split_is_no_exit() {
    let mut l = PairLedger::new();
    l.credit_split("L", "c", q(100.0), true);
    assert_eq!(l.balance("L", "c"), Some(i128::from(u(100.0))));
    assert_eq!(l.merge_signal("L", "c", q(60.0), true), MergeSignal::NonSignal);
    assert_eq!(l.merge_signal("L", "c", q(60.0), true), MergeSignal::Exit { shares: u(20.0) });
    assert_eq!(l.balance("L", "c"), Some(0));
    assert_eq!(l.merge_signal("M", "c", q(1.0), true), MergeSignal::Exit { shares: u(1.0) });
}

#[test]
fn an_amount_that_is_unknown_stays_unknown() {
    let mut l = PairLedger::new();
    l.credit_split("L", "c", q(1.0), false);
    assert_eq!(l.balance("L", "c"), None);
    assert_eq!(l.merge_signal("L", "c", q(1.0), true), MergeSignal::Unknown);
    l.credit_split("L", "c", q(1.0), true);
    assert_eq!(l.balance("L", "c"), None);
    assert_eq!(l.merge_signal("L", "d", Qty::NotFinite, true), MergeSignal::Unknown);
    assert_eq!(l.merge_signal("L", "e", q(-1.0), true), MergeSignal::Unknown);
}

#[test]
fn a_leader_is_seeded_once() {
    let mut l = PairLedger::new();
    let rows: Vec<_> = [
        r#"{"type":"MERGE","conditionId":"0xAB","size":"30","timestamp":5}"#,
        r#"{"type":"SPLIT","conditionId":"0xab","size":100,"timestamp":3}"#,
        r#"{"type":"TRADE","conditionId":"0xab","size":1,"timestamp":4}"#,
        r#"{"type":"SPLIT","conditionId":"","size":1,"timestamp":4}"#,
    ]
    .iter()
    .map(|s| read_json(s).unwrap())
    .collect();
    let seeds = seed_rows_from_activity(&rows);
    assert_eq!(seeds.len(), 2);
    assert!(seeds[0].0 && !seeds[1].0);
    assert_eq!(seeds[0].1, "ab");
    assert!(!l.is_seeded("L"));
    l.seed("L", &seeds);
    l.seed("L", &seeds);
    assert!(l.is_seeded("L"));
    assert_eq!(l.balance("L", "ab"), Some(i128::from(u(70.0))));
}

#[test]
fn a_row_without_a_size_is_kept_as_unknown() {
    let r = read_json(r#"{"type":"SPLIT","conditionId":"0xab","size":"x"}"#).unwrap();
    let s = seed_row_from_activity(&r).unwrap();
    assert!(s.0 && !s.3);
}
