//! Whether the leader still stands.

use copybot_hot::book::{Levels, TradePrints};
use copybot_hot::resting::{Resting, RestingBook};
use copybot_hot::restwatch::{
    classify, max_age_for, renewable, Evidence, RestVerdict, FEED_LIVENESS_WINDOW,
    MAX_REST_AGE_SECS,
};
use copybot_hot::table::Table;
use copybot_hot::units::Qty;

const T0: u64 = 1_000_000_000;

/// A number as millionths.
fn u(x: f64) -> i64 {
    (x * 1e6).round() as i64
}

fn q(x: i64) -> Qty {
    Qty::Finite(x)
}

fn anchored(level_now: Option<i64>, printed_now: i64) -> Evidence {
    Evidence {
        anchor_remaining: q(u(4600.0)),
        anchor_printed: q(u(0.0)),
        anchor_contested: false,
        level_now: level_now.map(q),
        printed_now: q(printed_now),
        feed_alive: true,
    }
}
fn rest(side: u8, his_rem: i64, printed: i64, contested: bool) -> Resting {
    Resting {
        order_id: "0x1".into(),
        lane: "example_lane_26".into(),
        token: "T".into(),
        side,
        limit: u(0.63),
        shares: u(100.0),
        placed: 0,
        salt: [1u8; 32],
        condition: [2u8; 32],
        his_price: u(0.62),
        his_remaining: his_rem,
        printed_at_place: i128::from(printed),
        contested_at_place: contested,
    }
}
fn ev(o: &Resting, l: &Levels, p: &TradePrints) -> RestVerdict {
    classify(
        &Evidence {
            anchor_remaining: q(o.his_remaining),
            anchor_printed: q(o.printed_at_place as i64),
            anchor_contested: o.contested_at_place,
            level_now: l.size_at(&o.token, o.his_price, T0).map(q),
            printed_now: q(p.cumulative_at(&o.token, o.his_price) as i64),
            feed_alive: l.feed_alive(FEED_LIVENESS_WINDOW, T0),
        },
    )
}
#[test]
fn FINAL_a_pruned_token_cannot_manufacture_a_cancel() {
    let (mut l, mut p) = (Levels::new(), TradePrints::new());
    l.put("T", u(0.62), u(4600.0), T0);
    p.record("T", u(0.62), u(3000.0), 1_000);
    let o = rest(0, u(4600.0), u(3000.0), false);
    let keep = Table::new();
    l.retain_tokens(&keep);
    p.retain_tokens(&keep);
    assert_eq!(
        ev(& o, & l, & p), RestVerdict::Uncertain,
        "wiped evidence must never pull a healthy rest"
    );
}
#[test]
fn FINAL_a_SELL_rest_is_judged_on_HIS_level_not_ours() {
    let (mut l, p) = (Levels::new(), TradePrints::new());
    l.put("T", u(0.61), u(0.0), T0);
    l.put("T", u(0.62), u(4600.0), T0);
    let o = rest(1, u(4600.0), u(0.0), false);
    assert_eq!(ev(& o, & l, & p), RestVerdict::Corroborated);
}
#[test]
fn FINAL_the_per_side_caps_bracket_the_blind_TTL() {
    const BLIND_TTL: i64 = 1_800;
    assert!(max_age_for(0) > BLIND_TTL, "a corroborated BUY must outlive the timer");
    assert!(max_age_for(1) > BLIND_TTL, "and a SELL more so");
    assert!(max_age_for(1) > max_age_for(0), "buys hold budget, sells do not");
}
#[test]
fn FINAL_a_rest_with_no_anchor_can_never_be_renewed() {
    let (mut l, p) = (Levels::new(), TradePrints::new());
    l.put("T", u(0.62), u(4600.0), T0);
    let o = rest(0, u(0.0), u(0.0), true);
    assert_eq!(ev(& o, & l, & p), RestVerdict::Uncertain);
    assert!(! renewable(ev(& o, & l, & p), 60, 0));
}
#[test]
fn FINAL_settlement_claim_survives_the_0x_forms_used_by_each_caller() {
    let mut b = RestingBook::new();
    assert!(b.try_claim_settle("abc"));
    assert!(! b.try_claim_settle("0xabc"), "venue form is the SAME order");
    b.finish_settle("0xabc");
    assert!(b.try_claim_settle("abc"), "and either form releases it");
}
#[test]
fn THE_AUDIT_CASE_a_FULL_cancel_is_now_detected() {
    assert_eq!(classify(& anchored(Some(u(0.0)), u(0.0))), RestVerdict::HeCancelled);
}
#[test]
fn THE_AUDIT_CASE_a_PARTIAL_cancel_is_now_detected() {
    assert_eq!(classify(& anchored(Some(u(2000.0)), u(0.0))), RestVerdict::HeCancelled);
}
#[test]
fn a_deficit_EXPLAINED_BY_PRINTS_is_a_fill_not_a_cancel() {
    assert_eq!(
        classify(& anchored(Some(u(2600.0)), u(2000.0))), RestVerdict::Corroborated
    );
    assert_eq!(classify(& anchored(Some(u(0.0)), u(4600.0))), RestVerdict::Corroborated);
}
#[test]
fn prints_that_only_PARTLY_cover_the_deficit_still_read_as_cancel() {
    assert_eq!(classify(& anchored(Some(u(500.0)), u(500.0))), RestVerdict::HeCancelled);
}
#[test]
fn his_size_still_at_the_level_corroborates() {
    assert_eq!(classify(& anchored(Some(u(4600.0)), u(0.0))), RestVerdict::Corroborated);
    assert_eq!(
        classify(& anchored(Some(u(9000.0)), u(0.0))), RestVerdict::Corroborated,
        "more size than he had is not a deficit"
    );
    assert_eq!(
        classify(& anchored(Some(u(4200.0)), u(0.0))), RestVerdict::Corroborated,
        "an 8.7% dip is inside tolerance, not a cancel"
    );
}
#[test]
fn a_DEAD_market_data_feed_never_produces_a_cancel_verdict() {
    let mut e = anchored(Some(u(0.0)), u(0.0));
    e.feed_alive = false;
    assert_eq!(classify(& e), RestVerdict::Uncertain);
}
#[test]
fn a_CONTESTED_level_decides_nothing_in_either_direction() {
    let mut cancel_shaped = anchored(Some(u(0.0)), u(0.0));
    cancel_shaped.anchor_contested = true;
    assert_eq!(classify(& cancel_shaped), RestVerdict::Uncertain);
    let mut ok_shaped = anchored(Some(u(4600.0)), u(0.0));
    ok_shaped.anchor_contested = true;
    assert_eq!(classify(& ok_shaped), RestVerdict::Uncertain);
}
#[test]
fn a_missing_anchor_or_a_missing_level_is_Uncertain() {
    let mut none = anchored(Some(u(0.0)), u(0.0));
    none.anchor_remaining = q(u(0.0));
    assert_eq!(classify(& none), RestVerdict::Uncertain);
    assert_eq!(classify(& anchored(None, u(0.0))), RestVerdict::Uncertain);
    let mut nan = anchored(Some(u(0.0)), u(0.0));
    nan.anchor_remaining = Qty::NotFinite;
    assert_eq!(classify(& nan), RestVerdict::Uncertain);
    assert_eq!(classify(& Evidence { level_now: Some(Qty::NotFinite), ..anchored(None, u(0.0)) }), RestVerdict::Uncertain);
}
#[test]
fn a_print_counter_that_went_BACKWARDS_is_Uncertain_not_a_cancel() {
    let mut e = anchored(Some(u(0.0)), u(0.0));
    e.anchor_printed = q(u(5000.0));
    assert_eq!(classify(& e), RestVerdict::Uncertain);
}
#[test]
fn ADV_a_contested_level_where_a_STRANGER_leaves_must_not_pull_our_rest() {
    let e = Evidence {
        anchor_remaining: q(u(4600.0)),
        anchor_printed: q(u(0.0)),
        anchor_contested: true,
        level_now: Some(q(u(4600.0))),
        printed_now: q(u(0.0)),
        feed_alive: true,
    };
    assert_eq!(classify(& e), RestVerdict::Uncertain);
}
#[test]
fn ADV_his_order_growing_does_not_produce_a_deficit() {
    let e = Evidence {
        anchor_remaining: q(u(4600.0)),
        anchor_printed: q(u(0.0)),
        anchor_contested: false,
        level_now: Some(q(u(12000.0))),
        printed_now: q(u(0.0)),
        feed_alive: true,
    };
    assert_eq!(classify(& e), RestVerdict::Corroborated);
}
#[test]
fn ADV_prints_EXCEEDING_the_anchor_never_flip_the_verdict() {
    let e = Evidence {
        anchor_remaining: q(u(4600.0)),
        anchor_printed: q(u(0.0)),
        anchor_contested: false,
        level_now: Some(q(u(0.0))),
        printed_now: q(u(99999.0)),
        feed_alive: true,
    };
    assert_eq!(classify(& e), RestVerdict::Corroborated);
}
#[test]
fn renewal_respects_corroboration_AND_the_per_side_hygiene_cap() {
    assert!(
        renewable(RestVerdict::Corroborated, 3 * 3600, 1),
        "a sell may match his patience"
    );
    assert!(! renewable(RestVerdict::Uncertain, 60, 1), "uncertainty never renews");
    assert!(! renewable(RestVerdict::HeCancelled, 60, 1));
    assert!(! renewable(RestVerdict::Corroborated, MAX_REST_AGE_SECS, 1));
    assert!(renewable(RestVerdict::Corroborated, 3 * 3600, 0));
    assert!(
        ! renewable(RestVerdict::Corroborated, 5 * 3600, 0),
        "an unfilled bid must not hold daily budget for a whole day"
    );
    assert!(
        renewable(RestVerdict::Corroborated, 5 * 3600, 1),
        "but a sell at the same age still may"
    );
    assert!(max_age_for(0) < max_age_for(1));
}
