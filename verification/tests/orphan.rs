//! Positions that are left behind.

use copybot_hot::orphan::{plan, Holding, Sweep, MAX_PER_SWEEP, MIN_SHARES};

/// A number as millionths.
fn u(x: f64) -> i64 {
    (x * 1e6).round() as i64
}

fn h(lane: &str, token: &str, ours: i64, his: i64) -> Holding {
    Holding {
        lane: lane.into(),
        token: token.into(),
        ours,
        his,
        reserved: u(0.0),
        legacy: u(0.0),
    }
}
#[test]
fn a_position_he_has_fully_left_is_fired() {
    match plan(
        &[h("example_lane_26", "T", u(40.0), u(0.0)), h("example_lane_26", "U", u(10.0), u(500.0))],
        MIN_SHARES,
    ) {
        Sweep::Fire(v) => {
            assert_eq!(v.len(), 1);
            assert_eq!(v[0].token, "T");
        }
        s => panic!("expected a fire, got {s:?}"),
    }
}
#[test]
fn a_position_he_STILL_HOLDS_is_never_touched() {
    assert_eq!(plan(& [h("example_lane_26", "T", u(40.0), u(500.0))], MIN_SHARES), Sweep::Idle);
}
#[test]
fn shares_already_ON_THEIR_WAY_OUT_are_not_fired_again() {
    let mut r = h("example_lane_26", "T", u(40.0), u(0.0));
    r.reserved = u(40.0);
    assert_eq!(plan(& [r], MIN_SHARES), Sweep::Idle);
}
#[test]
fn only_the_FREE_remainder_is_fired_when_a_sell_is_partly_in_flight() {
    let mut r = h("example_lane_26", "T", u(40.0), u(0.0));
    r.reserved = u(25.0);
    match plan(&[r], MIN_SHARES) {
        Sweep::Fire(v) => assert!(v[0].strandable() == i128::from(u(15.0))),
        s => panic!("expected a fire, got {s:?}"),
    }
}
#[test]
fn his_LEGACY_shares_do_not_count_as_him_still_being_there() {
    let mut r = h("example_lane_26", "T", u(40.0), u(300.0));
    r.legacy = u(300.0);
    assert!(matches!(plan(& [r], MIN_SHARES), Sweep::Fire(_)));
}
#[test]
fn DUST_is_left_to_the_dust_sweeper() {
    assert_eq!(plan(& [h("example_lane_26", "T", u(0.4), u(0.0))], MIN_SHARES), Sweep::Idle);
}
#[test]
fn a_MASS_orphan_is_REFUSED_because_it_describes_our_data_not_his_trading() {
    let rows: Vec<Holding> = (0..10)
        .map(|i| h("example_lane_26", &format!("T{i}"), u(40.0), u(0.0)))
        .collect();
    match plan(&rows, MIN_SHARES) {
        Sweep::Refused { would_have_fired, held, why } => {
            assert_eq!((would_have_fired, held), (10, 10));
            assert!(why.contains("his book"), "the reason must name the real cause");
        }
        s => panic!("a whole-book orphan must REFUSE, got {s:?}"),
    }
}
#[test]
fn a_MINORITY_of_orphans_still_fires() {
    let mut rows: Vec<Holding> = (0..8)
        .map(|i| h("example_lane_26", &format!("T{i}"), u(40.0), u(500.0)))
        .collect();
    rows.push(h("example_lane_26", "X", u(40.0), u(0.0)));
    rows.push(h("example_lane_26", "Y", u(40.0), u(0.0)));
    assert!(matches!(plan(& rows, MIN_SHARES), Sweep::Fire(v) if v.len() == 2));
}
#[test]
fn the_fraction_guard_does_not_apply_to_a_TINY_book() {
    let rows = vec![h("example_lane_26", "T", u(40.0), u(0.0)), h("example_lane_26", "U", u(40.0), u(500.0))];
    assert!(matches!(plan(& rows, MIN_SHARES), Sweep::Fire(v) if v.len() == 1));
}
#[test]
fn a_single_sweep_is_CAPPED_and_spends_itself_on_the_biggest() {
    let mut rows: Vec<Holding> = (0..16)
        .map(|i| h("m", &format!("T{i}"), u(10.0), u(9.0)))
        .collect();
    for (i, sz) in [("A", u(5.0)), ("B", u(90.0)), ("C", u(50.0)), ("D", u(70.0))] {
        rows.push(h("m", i, sz, u(0.0)));
    }
    match plan(&rows, MIN_SHARES) {
        Sweep::Fire(v) => {
            assert_eq!(v.len(), MAX_PER_SWEEP);
            assert_eq!(
                v.iter().map(| x | x.token.as_str()).collect::< Vec < _ >> (),
                vec!["B", "D", "C"], "largest first"
            );
        }
        s => panic!("expected a capped fire, got {s:?}"),
    }
}
#[test]
fn an_empty_or_zero_book_is_idle_not_refused() {
    assert_eq!(plan(& [], MIN_SHARES), Sweep::Idle);
    assert_eq!(plan(& [h("example_lane_26", "T", u(0.0), u(0.0))], MIN_SHARES), Sweep::Idle);
}
