//! Selling what exceeds the leader's holding.

use copybot_hot::sweep::{
    decide, excess_shares, observation_to_store, same_observation, SweepAction, SweepInputs,
    SAME_OBSERVATION,
};

/// A number as millionths.
fn u(x: f64) -> i64 {
    (x * 1e6).round() as i64
}

fn base() -> SweepInputs {
    SweepInputs {
        owned: u(100.0),
        physical: u(100.0),
        leader: u(1_000.0),
        mark: u(0.50),
        redeemable: false,
        just_sold: false,
        proportional_target: Some(u(100.0)),
        prior: None,
        confirm_secs: 60,
        min_usd: u(0.02),
        dust_shares: u(1.0),
    }
}
#[test]
fn excess_is_bounded_by_the_wallet_and_never_negative() {
    assert!(excess_shares(u(20.816325), u(20.8328), u(0.0)) == u(20.816325));
    assert_eq!(
        excess_shares(u(10.0), u(7.0), u(0.0)), u(7.0),
        "the physical wallet is an availability ceiling"
    );
    assert_eq!(
        excess_shares(u(5.0), u(5.0), u(8.0)), u(0.0),
        "normalization must never create a buy requirement"
    );
    assert_eq!(excess_shares(u(13.0), u(13.0), u(13.0)), u(0.0));
    assert_eq!(excess_shares(u(-5.0), u(10.0), u(0.0)), u(0.0));
    assert_eq!(excess_shares(u(10.0), u(-5.0), u(0.0)), u(0.0));
}
#[test]
fn an_observation_keeps_its_clock_while_the_numbers_hold() {
    let kept = observation_to_store(Some(&(100, u(0.0), u(50.0))), 160, u(0.0), u(50.0));
    assert_eq!(kept, (100, u(0.0), u(50.0)));
    let moved = observation_to_store(Some(&(100, u(0.0), u(50.0))), 160, u(8.0), u(42.0));
    assert_eq!(moved, (160, u(8.0), u(42.0)));
    assert_eq!(observation_to_store(None, 160, u(0.0), u(50.0)), (160, u(0.0), u(50.0)));
    assert!(same_observation(u(50.0), u(50.0) + SAME_OBSERVATION));
    assert!(! same_observation(u(50.0), u(50.0) + SAME_OBSERVATION * 2));
}
#[test]
fn a_resolved_market_is_never_swept() {
    let i = SweepInputs {
        redeemable: true,
        leader: u(0.0),
        ..base()
    };
    assert_eq!(decide(& i), SweepAction::Skip { why : "resolved_redeem_at_par" });
}
#[test]
fn a_flat_leader_needs_the_SAME_confirmation_on_either_wake_path() {
    let flat = SweepInputs {
        leader: u(0.0),
        ..base()
    };
    for just_sold in [false, true] {
        let i = SweepInputs { just_sold, ..flat };
        match decide(&i) {
            SweepAction::Observe { why, target, excess } => {
                assert_eq!(why, "leader_flat");
                assert_eq!(target, u(0.0));
                assert!(excess == u(100.0));
            }
            other => {
                panic!("just_sold={just_sold} must observe first, got {other:?}")
            }
        }
    }
    let i = SweepInputs {
        prior: Some((60, u(0.0), u(100.0))),
        ..flat
    };
    assert_eq!(
        decide(& i), SweepAction::Sell { qty : u(100.0), why : "leader_flat", dust :
        false }
    );
}
#[test]
fn a_leader_who_LEAVES_RETURNS_and_LEAVES_cannot_confirm_on_the_stale_stamp() {
    let flat = SweepInputs {
        leader: u(0.0),
        ..base()
    };
    let back = SweepInputs {
        leader: u(800.0),
        proportional_target: Some(u(40.0)),
        prior: Some((90, u(0.0), u(100.0))),
        ..base()
    };
    match decide(&back) {
        SweepAction::Observe { target, excess, .. } => {
            assert!(target == u(40.0));
            assert!(excess == u(60.0), "excess must be the NEW one");
        }
        other => panic!("a changed book must re-observe, got {other:?}"),
    }
    let again = SweepInputs {
        prior: Some((90, u(40.0), u(60.0))),
        ..flat
    };
    assert!(
        matches!(decide(& again), SweepAction::Observe { .. }),
        "a fresh exit must earn its own confirmation window"
    );
}
#[test]
fn dust_is_swept_only_after_the_leader_is_FLAT() {
    let mid_exit = SweepInputs {
        owned: u(0.4),
        physical: u(0.4),
        leader: u(5_000.0),
        just_sold: true,
        ..base()
    };
    assert_eq!(
        decide(& mid_exit), SweepAction::Skip { why : "dust_but_leader_mid_exit" },
        "while he holds, the mirror owns the remainder"
    );
    let flat = SweepInputs {
        leader: u(0.0),
        ..mid_exit
    };
    assert_eq!(
        decide(& flat), SweepAction::Sell { qty : u(0.4), why : "post_sell_dust", dust :
        true }
    );
    let fresh = SweepInputs {
        just_sold: false,
        ..flat
    };
    assert!(
        ! matches!(decide(& fresh), SweepAction::Sell { dust : true, .. }),
        "must not dump a position the buy path just opened"
    );
}
#[test]
fn the_chain_is_a_CEILING_never_an_entitlement() {
    let i = SweepInputs {
        owned: u(100.0),
        physical: u(2.8),
        leader: u(0.0),
        prior: Some((60, u(0.0), u(2.8))),
        ..base()
    };
    assert_eq!(
        decide(& i), SweepAction::Sell { qty : u(2.8), why : "leader_flat", dust : false
        }
    );
    let shared = SweepInputs {
        owned: u(50.0),
        physical: u(250.0),
        leader: u(0.0),
        prior: Some((60, u(0.0), u(50.0))),
        ..base()
    };
    assert_eq!(shared_qty(decide(& shared)), u(50.0));
}
fn shared_qty(a: SweepAction) -> i64 {
    match a {
        SweepAction::Sell { qty, .. } => qty,
        other => panic!("{other:?}"),
    }
}
#[test]
fn a_lane_with_no_sizing_basis_does_nothing_unless_he_is_flat() {
    let i = SweepInputs {
        proportional_target: None,
        ..base()
    };
    assert_eq!(decide(& i), SweepAction::Skip { why : "no_sizing_basis" });
    let flat = SweepInputs {
        leader: u(0.0),
        proportional_target: None,
        prior: Some((60, u(0.0), u(100.0))),
        ..base()
    };
    assert_eq!(shared_qty(decide(& flat)), u(100.0));
}
#[test]
fn economically_pointless_sells_are_refused() {
    let tiny = SweepInputs {
        owned: u(100.0),
        physical: u(100.0),
        proportional_target: Some(u(99.995)),
        ..base()
    };
    assert_eq!(
        decide(& tiny), SweepAction::Skip { why : "within_overcopy_tolerance" }
    );
    let cheap = SweepInputs {
        mark: u(0.0001),
        leader: u(0.0),
        owned: u(100.0),
        physical: u(100.0),
        ..base()
    };
    assert_eq!(
        decide(& cheap), SweepAction::Skip { why : "excess_not_worth_selling" }
    );
}
#[test]
fn the_2026_08_17_DRIBBLE_is_dead_a_wobbling_target_is_not_a_malfunction() {
    for target in [u(1188.195), u(1186.893), u(1186.328)] {
        let i = SweepInputs {
            owned: u(1188.4832),
            physical: u(1188.4832),
            leader: u(6420.23),
            mark: u(0.9255),
            proportional_target: Some(target),
            prior: Some((3600, target, u(1188.4832) - target)),
            ..base()
        };
        assert_eq!(
            decide(& i), SweepAction::Skip { why : "within_overcopy_tolerance" },
            "a {}-share 'excess' on 1,188 shares is input wobble, not a \
malfunction — selling it was the ratchet",
            u(1188.4832) - target
        );
    }
}
#[test]
fn a_DOUBLED_position_is_still_trimmed_and_only_back_to_target() {
    let i = SweepInputs {
        owned: u(200.0),
        physical: u(200.0),
        prior: Some((60, u(100.0), u(100.0))),
        ..base()
    };
    assert_eq!(
        decide(& i), SweepAction::Sell { qty : u(100.0), why : "proportional_excess",
        dust : false }
    );
}
#[test]
fn exactly_AT_tolerance_does_not_trim_matching_the_firerate_boundary() {
    let i = SweepInputs {
        owned: u(150.0),
        physical: u(150.0),
        prior: Some((60, u(100.0), u(50.0))),
        ..base()
    };
    assert_eq!(decide(& i), SweepAction::Skip { why : "within_overcopy_tolerance" });
}
#[test]
fn the_tolerance_never_dulls_the_FLAT_leader_backstop() {
    let i = SweepInputs {
        leader: u(0.0),
        owned: u(1.2),
        physical: u(1.2),
        prior: Some((60, u(0.0), u(1.2))),
        ..base()
    };
    assert_eq!(
        decide(& i), SweepAction::Sell { qty : u(1.2), why : "leader_flat", dust : false
        }
    );
}
#[test]
fn an_observation_must_AGE_not_merely_exist() {
    let flat = SweepInputs {
        leader: u(0.0),
        prior: Some((59, u(0.0), u(100.0))),
        ..base()
    };
    assert!(matches!(decide(& flat), SweepAction::Observe { .. }), "59s is not 60s");
}
