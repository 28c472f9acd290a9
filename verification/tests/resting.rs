//! Orders that rest on the book.

use copybot_hot::json::read_json;
use copybot_hot::resting::{
    cancel_body, cancel_outcomes, cancel_succeeded, halted_lane_must_pull as pull, CancelReason,
    Resting, RestingBook,
};

/// A number as millionths.
fn u(x: f64) -> i64 {
    (x * 1e6).round() as i64
}

#[test]
fn A_HALTED_LANES_RESTING_BUY_IS_PULLED() {
    assert!(pull(0, true, true, false));
}
#[test]
fn A_HALTED_LANES_RESTING_SELL_IS_NEVER_PULLED() {
    assert!(! pull(1, true, true, false));
    assert!(! pull(1, true, false, true), "not even a retired, disarmed lane");
}
#[test]
fn a_DISARMED_lane_pulls_its_buys_even_while_other_lanes_trade() {
    assert!(pull(0, false, false, false));
}
#[test]
fn a_RETIRED_lane_pulls_its_buys_but_still_drains_its_sells() {
    assert!(pull(0, false, true, true));
    assert!(! pull(1, false, true, true), "a retired lane still follows him out");
}
#[test]
fn a_HEALTHY_armed_lane_keeps_both_sides_working() {
    assert!(! pull(0, false, true, false));
    assert!(! pull(1, false, true, false));
}
#[test]
fn RT_the_boot_window_does_not_mass_cancel_before_lanes_arm() {
    assert!(
        pull(0, false, false, false),
        "an unarmed lane's buy IS pullable — but only once some lane is armed"
    );
}
#[test]
fn RT_a_SELL_survives_every_combination_of_lane_state() {
    for halted in [false, true] {
        for armed in [false, true] {
            for retired in [false, true] {
                assert!(
                    ! pull(1, halted, armed, retired),
                    "a resting SELL must never be pulled by lane state \
                         (halted={halted} armed={armed} retired={retired})"
                );
            }
        }
    }
}
#[test]
fn RT_an_unknown_side_is_treated_as_a_SELL_and_left_alone() {
    for bad in [2u8, 7, 255] {
        assert!(! pull(bad, true, false, true), "only side==0 is risk-increasing");
    }
}
#[test]
fn RT_the_predicate_is_pure_and_stable_under_repetition() {
    for _ in 0..100 {
        assert!(pull(0, true, true, false));
        assert!(! pull(0, false, true, false));
    }
}
#[test]
fn the_reason_is_named_in_the_audit_trail() {
    assert_eq!(CancelReason::LaneHalted.as_str(), "lane_halted");
}
fn r(id: &str, token: &str, side: u8, placed: i64) -> Resting {
    Resting {
        order_id: id.into(),
        lane: "example_lane_26".into(),
        token: token.into(),
        side,
        limit: u(0.62),
        shares: u(5.0),
        placed,
        salt: [7u8; 32],
        condition: [9u8; 32],
        his_price: u(0.62),
        his_remaining: u(4600.0),
        printed_at_place: i128::from(u(0.0)),
        contested_at_place: false,
    }
}
fn r_lane(id: &str, lane: &str, placed: i64) -> Resting {
    let mut x = r(id, "T", 0, placed);
    x.lane = lane.into();
    x
}
#[test]
fn the_per_lane_cap_protects_a_QUIET_lane_from_a_busy_one() {
    let mut b = RestingBook::new();
    for i in 0..10 {
        b.add(r_lane(&format!("busy{i}"), "example_lane_26", 100 + i));
    }
    b.add(r_lane("quiet0", "example_lane_25", 100));
    let doomed = b.over_cap_per_lane(6);
    assert_eq!(doomed.len(), 4, "only example_lane_26's oldest four exceed the per-lane cap");
    assert!(
        doomed.iter().all(| o | o.lane == "example_lane_26"),
        "a quiet lane's single rest must never be evicted for a busy lane"
    );
}
#[test]
fn rehydrate_NEVER_overwrites_a_row_we_already_track() {
    let mut b = RestingBook::new();
    b.add(r("0xabc", "T", 0, 100));
    let venue = read_json(r#"[{ "id": "0xabc", "asset_id": "T", "side": "BUY", "price": "0.5", "original_size": "10", "size_matched": "0" }, { "id": "0xnew", "asset_id": "T2", "side": "SELL", "price": "0.7", "original_size": "5", "size_matched": "0" }]"#).unwrap();
    assert_eq!(b.rehydrate(& venue, "example_lane_26", 2_000), 1, "only the UNKNOWN order is adopted");
    let ours = b.all().into_iter().find(|x| x.order_id == "0xabc").unwrap();
    assert_eq!(ours.salt, [7u8; 32], "our live row kept its real identity");
    assert!(b.contains("0xnew"));
}
#[test]
fn a_MAJORITY_prune_is_refused_because_it_indicts_the_READ() {
    let mut b = RestingBook::new();
    for i in 0..10 {
        b.add(r(&format!("o{i}"), "T", 0, 100 + i));
    }
    assert!(b.prune_is_plausible(3), "a few real cancels are ordinary");
    assert!(! b.prune_is_plausible(4), "a third or more indicts the read");
    assert!(! b.prune_is_plausible(10));
    let mut tiny = RestingBook::new();
    for i in 0..3 {
        tiny.add(r(&format!("t{i}"), "T", 0, 100 + i));
    }
    assert!(tiny.prune_is_plausible(3), "1-of-3 is not evidence of a bad read");
}
#[test]
fn only_ONE_settler_may_claim_an_order() {
    let mut b = RestingBook::new();
    b.add(r("0xabc", "T", 0, 100));
    assert!(b.try_claim_settle("0xabc"), "first caller wins");
    assert!(! b.try_claim_settle("0xabc"), "second must be refused");
    assert!(! b.try_claim_settle("abc"), "and the bare form is the SAME order");
    b.finish_settle("abc");
    assert!(b.try_claim_settle("0xabc"), "released after the first finishes");
}
#[test]
fn contains_and_remove_normalise_the_0x_prefix() {
    let mut b = RestingBook::new();
    b.add(r("0xdead", "T", 0, 100));
    assert!(b.contains("0xdead") && b.contains("dead"));
    assert!(b.remove("dead").is_some(), "a bare id must remove the 0x row");
    assert!(b.is_empty());
}
#[test]
fn rehydrate_adopts_the_venues_OWN_open_orders() {
    let mut b = RestingBook::new();
    let rows = read_json(r#"[{ "id": "0xA", "asset_id": "TOK1", "side": "BUY", "price": "0.42", "original_size": "100", "size_matched": "25", "created_at": 1700 }, { "id": "0xB", "asset_id": "TOK2", "side": "SELL", "price": "0.90", "original_size": "50", "size_matched": "0", "created_at": 1710 }]"#).unwrap();
    assert_eq!(b.rehydrate(& rows, "example_lane_26", 2_000), 2);
    let all = b.all();
    let a = all.iter().find(|r| r.order_id == "0xA").expect("0xA");
    assert!(
        a.shares == u(75.0), "only the WORKING remainder is cancellable"
    );
    assert_eq!(a.side, 0);
    assert!(a.limit == u(0.42));
    assert_eq!(a.placed, 1700);
    assert_eq!(all.iter().find(| r | r.order_id == "0xB").unwrap().side, 1);
}
#[test]
fn a_FULLY_MATCHED_order_is_not_resting() {
    let mut b = RestingBook::new();
    let rows = read_json(r#"[{ "id": "0xA", "asset_id": "T", "side": "BUY", "price": "0.5", "original_size": "10", "size_matched": "10" }]"#).unwrap();
    assert_eq!(b.rehydrate(& rows, "example_lane_26", 2_000), 0);
    assert!(b.is_empty());
}
#[test]
fn a_MALFORMED_row_is_skipped_without_losing_the_others() {
    let mut b = RestingBook::new();
    let rows = read_json(r#"[{ "no_id": true }, { "id": "0xB", "asset_id": "T", "side": "BUY", "price": "0.5", "original_size": "5" }]"#).unwrap();
    assert_eq!(b.rehydrate(& rows, "example_lane_26", 2_000), 1);
}
#[test]
fn a_NON_ARRAY_payload_adopts_nothing() {
    let mut b = RestingBook::new();
    assert_eq!(b.rehydrate(& read_json(r#"{ "error": "nope" }"#).unwrap(), "example_lane_26", 2_000), 0);
}
#[test]
fn his_sell_finds_our_BUY_on_that_token() {
    let mut b = RestingBook::new();
    b.add(r("a", "T1", 0, 100));
    b.add(r("b", "T2", 0, 100));
    let hit = b.by_token("T1");
    assert_eq!(hit.len(), 1);
    assert_eq!(hit[0].order_id, "a");
}
#[test]
fn by_token_does_not_filter_by_side() {
    let mut b = RestingBook::new();
    b.add(r("buy", "T1", 0, 100));
    b.add(r("sell", "T1", 1, 100));
    assert_eq!(b.by_token("T1").len(), 2);
}
#[test]
fn expiry_is_inclusive_so_a_ttl_of_zero_kills_everything() {
    let mut b = RestingBook::new();
    b.add(r("a", "T1", 0, 1_000));
    assert_eq!(b.expired(1_030, 30).len(), 1, "exactly at the ttl must expire");
    assert_eq!(b.expired(1_029, 30).len(), 0);
}
#[test]
fn over_cap_sheds_the_OLDEST_first() {
    let mut b = RestingBook::new();
    b.add(r("old", "T1", 0, 100));
    b.add(r("mid", "T2", 0, 200));
    b.add(r("new", "T3", 0, 300));
    let shed = b.over_cap(2);
    assert_eq!(shed.len(), 1);
    assert_eq!(shed[0].order_id, "old", "newest orders track his current intent");
    assert!(b.over_cap(3).is_empty());
    assert!(b.over_cap(9).is_empty());
}
#[test]
fn removing_an_order_stops_it_being_cancelled_again() {
    let mut b = RestingBook::new();
    b.add(r("a", "T1", 0, 100));
    assert!(b.remove("a").is_some());
    assert!(b.remove("a").is_none());
    assert!(b.by_token("T1").is_empty());
}
#[test]
fn an_order_the_venue_cannot_find_counts_as_CANCELLED() {
    let body = r#"{"not_canceled":{"0xabc":"order can't be found - already canceled or matched"}}"#;
    assert!(cancel_succeeded("0xabc", body));
}
#[test]
fn an_explicitly_cancelled_id_counts() {
    assert!(
        cancel_succeeded("0xabc", r#"{"canceled":["0xabc"],"not_canceled":{}}"#)
    );
}
#[test]
fn an_id_the_venue_REFUSED_for_a_real_reason_does_NOT_count() {
    let body = r#"{"not_canceled":{"0xabc":"not owned by this api key"}}"#;
    assert!(! cancel_succeeded("0xabc", body));
}
#[test]
fn an_unparseable_or_error_body_is_never_success() {
    assert!(! cancel_succeeded("0xabc", "<html>502</html>"));
    assert!(! cancel_succeeded("0xabc", r#"{"error":"unauthorized"}"#));
}
#[test]
fn an_id_absent_from_both_lists_remains_tracked() {
    assert!(
        ! cancel_succeeded("0xabc", r#"{"canceled":["0xother"],"not_canceled":{}}"#)
    );
    assert!(! cancel_succeeded("0xabc", r#"{}"#));
}
#[test]
fn cancel_body_is_a_json_array_of_ids() {
    assert_eq!(cancel_body(& ["a".into(), "b".into()]), r#"["a","b"]"#);
    assert_eq!(cancel_body(& []), "[]");
}

#[test]
fn a_batch_is_gone_as_far_as_the_answer_says() {
    let ids = ["0xa".to_string(), "0xb".to_string(), "0x\"c".to_string()];
    assert_eq!(cancel_body(&ids), r#"["0xa","0xb","0x\"c"]"#);
    let answer = r#"{"canceled":["0xa"],"not_canceled":{}}"#;
    let r = cancel_outcomes(&ids[..2], Some(answer));
    assert_eq!(r, vec![("0xa".to_string(), true), ("0xb".to_string(), false)]);
    let none = cancel_outcomes(&ids[..1], None);
    assert_eq!(none, vec![("0xa".to_string(), false)]);
}

#[test]
fn reading_the_venue_again_adopts_nothing() {
    let mut b = RestingBook::new();
    let rows = read_json(r#"[{ "id": "0xA", "asset_id": "T", "side": "BUY", "price": "0.5", "size": "9" }, { "id": "A", "asset_id": "T", "side": "SELL", "price": "0.5", "size": "9" }]"#).unwrap();
    assert_eq!(b.rehydrate(&rows, "lane", 2_000), 1);
    assert_eq!(b.rehydrate(&rows, "lane", 3_000), 0);
    assert_eq!(b.all().len(), 1);
    assert_eq!((b.all()[0].side, b.all()[0].placed), (0, 2_000));
}

#[test]
fn sizes_that_are_no_numbers_count_as_far_as_they_do() {
    let mut b = RestingBook::new();
    let rows = read_json(r#"[{ "id": "0x1", "asset_id": "T", "price": "0.5", "size": "NaN" }, { "id": "0x2", "asset_id": "T", "price": "0.5", "original_size": "NaN", "size": "4" }, { "id": "0x3", "asset_id": "T", "price": "0.5", "size": "inf" }, { "id": "0x4", "asset_id": "T", "price": "0.5", "size": "4", "size_matched": "inf" }]"#).unwrap();
    assert_eq!(b.rehydrate(&rows, "lane", 2_000), 2);
    assert!(!b.contains("0x1") && b.contains("0x2") && b.contains("0x3") && !b.contains("0x4"));
}
