//! Closing a lane.

use copybot_hot::flatten::{gate, should_sell, Intent, Mode};

/// A number as millionths.
fn u(x: f64) -> i64 {
    (x * 1e6).round() as i64
}

fn intent(mode: &str, lane: &str, phrase: &str, ts: i64) -> Intent {
    Intent {
        lane: lane.into(),
        mode: mode.into(),
        phrase: phrase.into(),
        ts,
        acknowledge_forfeit: false,
    }
}
#[test]
fn a_correct_panic_intent_on_a_disarmed_lane_passes() {
    let i = intent("panic", "example_lane_26", "panic example_lane_26", 1000);
    assert_eq!(gate(& i, "example_lane_26", false, 1010).unwrap(), Mode::Panic);
}
#[test]
fn panic_on_an_ARMED_lane_is_refused() {
    let i = intent("panic", "example_lane_26", "panic example_lane_26", 1000);
    assert!(
        gate(& i, "example_lane_26", true, 1010).is_err(), "cannot panic while still buying"
    );
}
#[test]
fn a_wrong_phrase_is_refused() {
    assert!(
        gate(& intent("panic", "example_lane_26", "panic", 1000), "example_lane_26", false, 1010).is_err()
    );
    assert!(
        gate(& intent("panic", "example_lane_26", "panic peyz", 1000), "example_lane_26", false, 1010)
        .is_err()
    );
    assert!(
        gate(& intent("panic", "example_lane_26", "PANIC example_lane_26", 1000), "example_lane_26", false, 1010)
        .is_err()
    );
}
#[test]
fn a_stale_or_future_intent_is_refused() {
    assert!(
        gate(& intent("panic", "example_lane_26", "panic example_lane_26", 1000), "example_lane_26", false, 1000 + 61)
        .is_err()
    );
    assert!(
        gate(& intent("panic", "example_lane_26", "panic example_lane_26", 1000), "example_lane_26", false, 900)
        .is_err()
    );
}
#[test]
fn hybrid_requires_the_forfeit_acknowledgement() {
    let mut i = intent("hybrid", "example_lane_26", "hybrid example_lane_26", 1000);
    assert!(gate(& i, "example_lane_26", false, 1010).is_err(), "no ack -> refused");
    i.acknowledge_forfeit = true;
    assert_eq!(gate(& i, "example_lane_26", false, 1010).unwrap(), Mode::Hybrid);
}
#[test]
fn the_intent_lane_must_match_the_target() {
    let i = intent("panic", "peyz", "panic peyz", 1000);
    assert!(
        gate(& i, "example_lane_26", false, 1010).is_err(),
        "an intent for peyz cannot flatten example_lane_26"
    );
}
#[test]
fn panic_sells_everything_hybrid_sells_only_winners_graceful_nothing() {
    assert!(should_sell(Mode::Panic, u(0.10), u(0.90)));
    assert!(should_sell(Mode::Panic, u(0.90), u(0.10)));
    assert!(should_sell(Mode::Hybrid, u(0.90), u(0.50)), "a winner is sold");
    assert!(! should_sell(Mode::Hybrid, u(0.40), u(0.50)), "a loser is left for graceful");
    assert!(
        ! should_sell(Mode::Hybrid, u(0.50), u(0.50)), "a flat position is not a winner"
    );
    assert!(! should_sell(Mode::Graceful, u(0.90), u(0.10)));
}
