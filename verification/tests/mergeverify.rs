//! Before and after a merge.

use copybot_hot::mergeverify::{
    after_exec, alarm_text, classify_exec, confirm, confirm_split, credible, give_up, may_retry,
    may_sell_minted_leg, preflight, Confirmation, ExecOutcome, NextAction, Preflight,
    CREDIBILITY_TOLERANCE,
};
use copybot_hot::units::Qty;

/// A number as millionths.
fn u(x: f64) -> i64 {
    (x * 1e6).round() as i64
}

fn go(want: Qty, a: f64, b: f64, claim: f64, outcomes: Option<usize>, known: [bool; 2]) -> Preflight {
    preflight(want, u(a), u(b), i128::from(u(claim)), 0, outcomes, known[0], known[1])
}

fn held(p: Preflight) -> bool {
    match p {
        Preflight::DoNotMerge { holdable, .. } => holdable,
        Preflight::Send { .. } => panic!("not sent"),
    }
}

#[test]
fn a_merge_is_sent_for_what_both_legs_cover() {
    let ten = Qty::Finite(u(10.0));
    let yes = [true, true];
    assert_eq!(go(ten, 50.0, 8.0, 0.0, Some(2), yes), Preflight::Send { pairs: u(8.0) });
    assert_eq!(go(ten, 50.0, 80.0, 47.0, Some(2), yes), Preflight::Send { pairs: u(3.0) });
    assert!(!held(go(ten, 50.0, 0.0, 0.0, Some(2), yes)));
    assert!(!held(go(ten, 50.0, 50.0, 60.0, Some(2), yes)));
    assert!(!held(go(Qty::NotFinite, 50.0, 50.0, 0.0, Some(2), yes)));
    assert!(!held(go(Qty::Finite(100), 50.0, 50.0, 0.0, Some(2), yes)));
    assert!(!held(go(ten, 50.0, 50.0, 0.0, Some(3), yes)));
    assert!(!held(go(ten, 50.0, 50.0, 0.0, None, yes)));
    assert!(held(go(ten, 50.0, 50.0, 0.0, Some(2), [false, true])));
    assert!(held(go(ten, 50.0, 50.0, 0.0, Some(2), [true, false])));
}

#[test]
fn a_merge_is_confirmed_by_what_both_legs_lost() {
    let c = confirm(u(10.0), u(12.0), u(6.0), u(8.0), u(4.0));
    assert_eq!(c, Confirmation::Confirmed { pairs: u(4.0) });
    assert!(!may_retry(&c) && give_up(0, &c));
    let still = confirm(u(10.0), u(12.0), u(10.0), u(12.0), u(4.0));
    assert_eq!(still, Confirmation::NotApplied);
    assert!(may_retry(&still) && !give_up(2, &still) && give_up(3, &still));
    for (a, b) in [(u(6.0), u(12.0)), (u(11.0), u(8.0)), (u(9.0), u(11.0))] {
        let c = confirm(u(10.0), u(12.0), a, b, u(4.0));
        assert!(matches!(c, Confirmation::Inconsistent { .. }));
        assert!(!may_retry(&c));
    }
}

#[test]
fn a_minted_leg_is_sold_only_after_a_confirmed_split() {
    let c = confirm_split(u(1.0), u(2.0), u(5.0), u(6.0), u(4.0));
    assert_eq!(c, Confirmation::Confirmed { pairs: u(4.0) });
    assert!(may_sell_minted_leg(&c));
    assert!(!may_sell_minted_leg(&confirm_split(u(1.0), u(2.0), u(1.0), u(2.0), u(4.0))));
    assert!(!may_sell_minted_leg(&confirm_split(u(1.0), u(2.0), u(5.0), u(1.0), u(4.0))));
}

#[test]
fn a_merge_of_more_than_the_leader_held_is_not_believed() {
    let q = |x: f64| Qty::Finite(u(x));
    assert!(credible(q(110.0), Some(q(100.0)), CREDIBILITY_TOLERANCE));
    assert!(!credible(q(110.000001), Some(q(100.0)), CREDIBILITY_TOLERANCE));
    assert!(!credible(q(1.0), None, CREDIBILITY_TOLERANCE));
    assert!(!credible(q(1.0), Some(Qty::NotFinite), CREDIBILITY_TOLERANCE));
    assert!(!credible(q(0.0), Some(q(1.0)), CREDIBILITY_TOLERANCE));
    assert!(!credible(q(1.05), Some(q(1.0)), -CREDIBILITY_TOLERANCE));
}

#[test]
fn an_exit_code_says_whether_anything_was_sent() {
    assert_eq!(classify_exec(Some(0)), ExecOutcome::Confirmed);
    assert_eq!(classify_exec(Some(2)), ExecOutcome::NotSent);
    assert_eq!(classify_exec(Some(3)), ExecOutcome::NotSent);
    assert_eq!(classify_exec(Some(1)), ExecOutcome::Unknown);
    assert_eq!(classify_exec(None), ExecOutcome::Unknown);
    assert_eq!(after_exec(&ExecOutcome::Confirmed), NextAction::BookThenFlattenResidual);
    assert_eq!(after_exec(&ExecOutcome::NotSent), NextAction::HoldPairAndAlarm);
    assert_eq!(after_exec(&ExecOutcome::Unknown), NextAction::HoldPairAndAlarm);
}

#[test]
fn an_alarm_says_whether_to_try_again() {
    let s = alarm_text(&ExecOutcome::NotSent, u(12.5), "0xabcdef0123456789");
    assert!(s.starts_with("MERGE DID NOT COMPLETE on …"));
    assert!(s.contains("…0123456789: 12.5000 pair(s)") && s.contains("safe to try again later"));
    let t = alarm_text(&ExecOutcome::Unknown, u(1.0), "short");
    assert!(t.contains("…short: 1.0000 pair(s)") && t.contains("must NOT be retried"));
}

#[test]
fn a_market_is_named_by_its_last_bytes() {
    let s = alarm_text(&ExecOutcome::Unknown, u(1.0), "x\u{e9}\u{e9}\u{e9}\u{e9}\u{e9}\u{e9}");
    assert!(s.contains("on …\u{e9}\u{e9}\u{e9}\u{e9}\u{e9}:"), "ten bytes are five of these: {s}");
}
