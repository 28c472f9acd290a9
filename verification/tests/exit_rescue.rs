//! Selling again after a refusal.

use copybot_hot::exit_rescue::{
    classify, next_step, reported_balance, retry_salt_seed, retry_size, Failure, FALLBACK_AFTER,
    FAST_ATTEMPTS, FAST_DELAY, GIVE_UP_AFTER, MAX_ATTEMPTS, MED_ATTEMPTS, MED_DELAY, SLOW_DELAY,
};
use copybot_hot::race_send::{resolve, Outcome, PathResult};

/// A number as millionths.
fn u(x: f64) -> i64 {
    (x * 1e6).round() as i64
}

#[test]
fn an_AMBIGUOUS_outcome_must_never_reach_the_rescue_ladder() {
    let all_timeout = vec![
        PathResult { path : "h1".into(), http : 0, ms : u(10_000.0), body :
        "{\"transport_error\":\"timeout\"}".into() }, PathResult { path : "h2"
        .into(), http : 0, ms : u(10_000.0), body : "{\"transport_error\":\"timeout\"}"
        .into() }, PathResult { path : "h1b".into(), http : 0, ms : u(10_000.0), body :
        "{\"transport_error\":\"timeout\"}".into() },
    ];
    let out = resolve(&all_timeout);
    assert!(
        matches!(out, Outcome::Ambiguous { .. }),
        "a silent race must not look like a refusal: {out:?}"
    );
    assert!(
        ! matches!(out, Outcome::Rejected { .. }),
        "Rejected is the ONLY outcome that may re-sign a fresh order"
    );
}
#[test]
fn a_real_refusal_still_reaches_the_ladder() {
    let refused = vec![
        PathResult { path : "h1".into(), http : 400, ms : u(12.0), body :
        "{\"error\":\"not enough balance / allowance\"}".into() }
    ];
    assert!(matches!(resolve(& refused), Outcome::Rejected { .. }));
}
#[test]
fn a_timeout_is_RETRIED_not_abandoned() {
    for body in [
        "{\"transport_error\":\"timeout\"}",
        "{\"transport_error\":\"connection closed\"}",
        "<html>502 Bad Gateway</html>",
    ] {
        assert_eq!(classify(body), Failure::Transient, "body: {body}");
    }
    let step = next_step(Failure::Transient, 0, 0)
        .expect("a timeout must be retried");
    assert!(! step.sell_all, "silence is NOT evidence the size was wrong");
    assert!(
        next_step(Failure::Transient, MAX_ATTEMPTS, 0).is_none()
    );
    assert!(next_step(Failure::Transient, 0, GIVE_UP_AFTER).is_none());
}
#[test]
fn sell_all_can_only_LOWER_the_ask_never_reach_another_lanes_shares() {
    assert_eq!(
        retry_size(true, Some(u(250.0)), u(50.0), u(50.0)), u(50.0),
        "must never sell more than this lane holds"
    );
    assert_eq!(
        retry_size(true, Some(u(2.8)), u(50.0), u(50.0)), u(2.8),
        "chain truth may reduce the ask"
    );
    assert_eq!(retry_size(true, None, u(50.0), u(50.0)), u(50.0));
    assert_eq!(retry_size(true, Some(u(-5.0)), u(50.0), u(50.0)), u(0.0));
    assert_eq!(retry_size(false, Some(u(250.0)), u(10.0), u(50.0)), u(10.0));
}
const Z: u64 = 0;
#[test]
fn every_retry_gets_a_DISTINCT_salt_seed_even_within_one_millisecond() {
    let now = 1_785_600_000_000u128;
    let seeds: std::collections::HashSet<u128> = (0..200)
        .map(|a| retry_salt_seed(now, a))
        .collect();
    assert_eq!(seeds.len(), 200, "salt seeds collided within the same millisecond");
}
#[test]
fn salt_seeds_also_differ_across_milliseconds_for_the_same_attempt() {
    assert_ne!(retry_salt_seed(1_000, 3), retry_salt_seed(1_001, 3));
}
#[test]
fn before_the_fallback_we_retry_HIS_SLICE_not_the_whole_position() {
    assert_eq!(retry_size(false, None, u(75.0), u(100.0)), u(75.0));
    assert_eq!(
        retry_size(false, Some(u(2.8)), u(75.0), u(100.0)), u(75.0),
        "a reported balance must not leak into the pre-fallback size"
    );
}
#[test]
fn the_fallback_prefers_CHAIN_TRUTH_over_our_own_holding() {
    assert_eq!(retry_size(true, Some(u(2.816664)), u(75.0), u(100.0)), u(2.816664));
    assert_eq!(
        retry_size(true, None, u(75.0), u(100.0)), u(75.0),
        "with no chain evidence the escalation must not exceed the trim"
    );
}
#[test]
fn the_fallback_NEVER_sells_more_than_the_exit_intended() {
    assert_eq!(
        retry_size(true, None, u(10.0), u(100.0)), u(10.0),
        "a 10% trim must never escalate into a 100% liquidation"
    );
    assert_eq!(retry_size(true, Some(u(4.0)), u(10.0), u(100.0)), u(4.0));
    assert_eq!(
        retry_size(true, Some(u(9_000.0)), u(10.0), u(100.0)), u(10.0),
        "another lane's inventory is not ours to sell"
    );
}
#[test]
fn a_FULL_exit_still_reaches_the_whole_position() {
    assert_eq!(retry_size(true, None, u(100.0), u(100.0)), u(100.0));
    assert_eq!(retry_size(true, Some(u(2.8)), u(100.0), u(100.0)), u(2.8));
    assert_eq!(retry_size(true, None, u(140.0), u(100.0)), u(100.0));
}
#[test]
fn the_REAL_rejection_we_saw_is_classified_as_a_balance_problem() {
    let body = r#"{"error":"not enough balance / allowance: the balance is not enough -> balance: 2816664, sum of matched orders"}"#;
    assert_eq!(classify(body), Failure::NotEnoughBalance);
}
#[test]
fn the_TRUE_balance_is_recovered_from_the_refusal_itself() {
    let body = r#"{"error":"not enough balance / allowance: the balance is not enough -> balance: 2816664, sum of matched orders"}"#;
    let b = reported_balance(body).expect("balance must parse");
    assert!(b == u(2.816664), "got {b}");
}
#[test]
fn a_refusal_without_a_parseable_balance_yields_NONE_not_zero() {
    assert_eq!(reported_balance(r#"{"error":"no orders found to match"}"#), None);
    assert_eq!(reported_balance("balance:"), None);
    assert_eq!(reported_balance("balance: abc"), None);
}
#[test]
fn the_FAK_kill_is_the_one_case_worth_retrying() {
    let body = r#"{"error":"no orders found to match with FAK order. FAK orders are partially filled or killed if no match is found."}"#;
    assert_eq!(classify(body), Failure::NoMatch);
}
#[test]
fn an_UNKNOWN_error_fails_CLOSED_and_is_never_retried() {
    assert_eq!(classify(r#"{"error":"market is closed"}"#), Failure::Stable);
    assert_eq!(classify("garbage"), Failure::Stable);
    assert_eq!(classify(""), Failure::Stable);
}
#[test]
fn a_STABLE_failure_is_never_retried_even_at_attempt_zero() {
    assert_eq!(next_step(Failure::Stable, 0, Z), None);
}
#[test]
fn the_LADDER_matches_the_operator_spec_20x250_then_20x500_then_1s() {
    let f = Failure::NoMatch;
    assert_eq!(next_step(f, 0, Z).unwrap().delay, FAST_DELAY);
    assert_eq!(next_step(f, 19, Z).unwrap().delay, FAST_DELAY);
    assert_eq!(
        next_step(f, 20, Z).unwrap().delay, MED_DELAY, "21st attempt steps to 500ms"
    );
    assert_eq!(next_step(f, 39, Z).unwrap().delay, MED_DELAY);
    assert_eq!(
        next_step(f, 40, Z).unwrap().delay, SLOW_DELAY, "41st attempt steps to 1s"
    );
    assert_eq!(next_step(f, MAX_ATTEMPTS, Z), None);
}
#[test]
fn the_fast_and_medium_phases_sum_to_the_FALLBACK_deadline() {
    let ladder = FAST_DELAY * FAST_ATTEMPTS as u64 + MED_DELAY * MED_ATTEMPTS as u64;
    assert_eq!(
        ladder, FALLBACK_AFTER, "20x250ms + 20x500ms must equal the 15s fallback"
    );
}
#[test]
fn SELL_ALL_engages_only_after_the_fallback_deadline() {
    let f = Failure::NoMatch;
    assert!(
        ! next_step(f, 5, 14_000).unwrap().sell_all,
        "before 15s we still sell the mirrored slice"
    );
    assert!(
        next_step(f, 41, FALLBACK_AFTER).unwrap().sell_all,
        "at 15s we switch to chain-truth sell-all"
    );
    assert!(next_step(f, 50, 30_000).unwrap().sell_all);
}
#[test]
fn a_BALANCE_failure_goes_STRAIGHT_to_sell_all_without_waiting_15s() {
    let s = next_step(Failure::NotEnoughBalance, 0, Z).unwrap();
    assert!(s.sell_all, "an oversell must re-derive size from chain immediately");
}
#[test]
fn the_ladder_is_BOUNDED_in_wall_clock_even_if_attempts_are_few() {
    assert_eq!(next_step(Failure::NoMatch, 0, GIVE_UP_AFTER), None);
    assert_eq!(
        next_step(Failure::NoMatch, 0, GIVE_UP_AFTER + 1_000), None
    );
    assert_eq!(
        next_step(Failure::NotEnoughBalance, 0, GIVE_UP_AFTER), None,
        "even the balance path stops at the deadline"
    );
}
