//! What comes of an order that is sent over several paths.

use copybot_hot::race_send::{
    beside_a_duplicate, looks_duplicate, looks_matched, looks_resting, order_id_of, race_step, reply, resolve, Outcome,
    PathResult, Sent,
};

/// A number as millionths.
fn u(x: f64) -> i64 {
    (x * 1e6).round() as i64
}

fn pr(path: &str, body: &str, ms: i64) -> PathResult {
    PathResult {
        path: path.into(),
        http: 200,
        body: body.into(),
        ms,
    }
}
#[test]
fn a_LONE_MATCH_resolves_without_its_siblings() {
    let one = vec![pr("a", MATCHED, u(12.0))];
    assert!(matches!(resolve(& one), Outcome::Matched { .. }));
}
#[test]
fn a_LONE_REJECT_is_NOT_something_we_may_return_early_on() {
    let reject = r#"{"error":"insufficient balance"}"#;
    assert!(matches!(resolve(& [pr("a", reject, u(3.0))]), Outcome::Rejected { .. }));
    let with_sibling = vec![pr("a", reject, u(3.0)), pr("b", MATCHED, u(40.0))];
    assert!(
        matches!(resolve(& with_sibling), Outcome::Matched { .. }),
        "a later match outranks an earlier reject — which is why we must wait"
    );
}
#[test]
fn a_lone_DUPLICATE_never_resolves_early_either() {
    let dupe = r#"{"error":"order already exists"}"#;
    let lone = resolve(&[pr("a", dupe, u(2.0))]);
    assert!(
        matches!(lone, Outcome::DuplicateOnly { .. }),
        "a single duplicate looks like DuplicateOnly — which is exactly why \
         race_submit must NOT return on it before the siblings answer"
    );
}
const MATCHED: &str = r#"{"status":"matched","success":true,"takingAmount":"5.0"}"#;
const DUPE: &str = r#"{"errorMsg":"duplicate order","success":false}"#;
const NSF: &str = r#"{"errorMsg":"not enough balance","success":false}"#;
#[test]
fn a_match_on_any_path_wins_however_the_others_replied() {
    let o = resolve(&[pr("h1", DUPE, u(18.0)), pr("h2", MATCHED, u(22.0))]);
    assert!(matches!(o, Outcome::Matched { .. }));
}
#[test]
fn the_FASTEST_match_is_reported_when_several_report_one() {
    let o = resolve(&[pr("slow", MATCHED, u(40.0)), pr("fast", MATCHED, u(12.0))]);
    match o {
        Outcome::Matched { winner, ms, .. } => {
            assert_eq!(winner, "fast");
            assert!(ms == u(12.0));
        }
        _ => panic!("expected Matched"),
    }
}
const RESTING: &str = r#"{"success":true,"orderID":"0xdead","status":"live"}"#;
#[test]
fn a_GTC_that_RESTS_is_not_a_reject() {
    let o = resolve(&[pr("h1", RESTING, u(20.0))]);
    match o {
        Outcome::Resting { order_id, winner, .. } => {
            assert_eq!(order_id, "0xdead", "the id is what makes it cancellable");
            assert_eq!(winner, "h1");
        }
        other => panic!("a resting GTC must not be {other:?}"),
    }
}
#[test]
fn a_MATCH_still_beats_a_resting_reply() {
    let o = resolve(&[pr("slow", RESTING, u(30.0)), pr("fast", MATCHED, u(10.0))]);
    assert!(matches!(o, Outcome::Matched { .. }));
}
#[test]
fn a_resting_reply_beats_a_siblings_duplicate_error() {
    let o = resolve(&[pr("h2", DUPE, u(10.0)), pr("h1", RESTING, u(20.0))]);
    assert!(matches!(o, Outcome::Resting { .. }), "got {o:?}");
}
#[test]
fn a_resting_reply_without_an_order_id_is_NOT_trusted() {
    let body = r#"{"success":true,"status":"live"}"#;
    assert!(looks_resting(body).is_none());
    assert!(matches!(resolve(& [pr("h1", body, u(10.0))]), Outcome::Rejected { .. }));
}
#[test]
fn a_FAILED_order_is_never_read_as_resting() {
    let body = r#"{"success":false,"orderID":"0xdead","status":"live"}"#;
    assert!(looks_resting(body).is_none());
}
#[test]
fn order_id_is_found_under_any_of_the_venues_spellings() {
    assert_eq!(order_id_of(r#"{"orderID":"0xa"}"#), Some("0xa".into()));
    assert_eq!(order_id_of(r#"{"orderId":"0xb"}"#), Some("0xb".into()));
    assert_eq!(order_id_of(r#"{"order_id":"0xc"}"#), Some("0xc".into()));
    assert_eq!(order_id_of(r#"{"orderID":""}"#), None, "empty is not an id");
    assert_eq!(order_id_of("not json"), None);
}
#[test]
fn an_ALL_TIMEOUT_race_is_AMBIGUOUS_not_rejected() {
    let rs = vec![
        PathResult { path : "h1".into(), http : 0, ms : u(10_000.0), body :
        "{\"transport_error\":\"timeout\"}".into() }, PathResult { path : "h2"
        .into(), http : 0, ms : u(10_000.0), body : "{\"transport_error\":\"timeout\"}"
        .into() },
    ];
    match resolve(&rs) {
        Outcome::Ambiguous { detail } => assert!(detail.contains("h1:0")),
        other => panic!("expected Ambiguous, got {other:?}"),
    }
}
#[test]
fn an_ALL_5xx_race_is_AMBIGUOUS() {
    let rs = vec![
        PathResult { path : "h1".into(), http : 502, ms : u(5.0), body : "bad gateway"
        .into() }, PathResult { path : "h2".into(), http : 503, ms : u(5.0), body :
        "unavailable".into() },
    ];
    assert!(matches!(resolve(& rs), Outcome::Ambiguous { .. }));
}
#[test]
fn a_REAL_venue_refusal_is_still_a_reject() {
    let rs = vec![
        PathResult { path : "h1".into(), http : 400, ms : u(5.0), body :
        "{\"error\":\"not enough balance / allowance\"}".into() }, PathResult { path
        : "h2".into(), http : 0, ms : u(10_000.0), body :
        "{\"transport_error\":\"timeout\"}".into() },
    ];
    assert!(
        matches!(resolve(& rs), Outcome::Rejected { .. }),
        "one real 4xx verdict makes the outcome known"
    );
}
#[test]
fn a_match_on_ANY_path_still_wins_over_silence_elsewhere() {
    let rs = vec![
        PathResult { path : "h1".into(), http : 0, ms : u(10_000.0), body :
        "{\"transport_error\":\"timeout\"}".into() }, PathResult { path : "h2"
        .into(), http : 200, ms : u(30.0), body :
        "{\"orderID\":\"0xabc\",\"takingAmount\":\"5\",\"makingAmount\":\"5\",\"status\":\"matched\"}"
        .into() },
    ];
    assert!(matches!(resolve(& rs), Outcome::Matched { .. }));
}
#[test]
fn a_duplicate_error_is_NEVER_a_reject_on_its_own() {
    let o = resolve(&[pr("h1", DUPE, u(18.0)), pr("h2", DUPE, u(19.0))]);
    assert!(
        matches!(o, Outcome::DuplicateOnly { .. }),
        "all-duplicate must be AMBIGUOUS, never Rejected"
    );
}
#[test]
fn a_real_error_on_every_path_is_a_reject() {
    let o = resolve(&[pr("h1", NSF, u(18.0)), pr("h2", NSF, u(19.0))]);
    match o {
        Outcome::Rejected { body } => assert!(body.contains("not enough balance")),
        _ => panic!("expected Rejected"),
    }
}
#[test]
fn a_real_error_beside_a_duplicate_is_DUPLICATE_not_a_reject() {
    let o = resolve(&[pr("h1", DUPE, u(18.0)), pr("h2", NSF, u(19.0))]);
    assert!(
        matches!(o, Outcome::DuplicateOnly { .. }),
        "a duplicate is never a reject — got {o:?}"
    );
}
#[test]
fn a_duplicate_beside_a_TIMEOUT_is_also_not_a_reject() {
    let o = resolve(
        &[
            pr("h1", DUPE, u(18.0)),
            PathResult {
                path: "h2".into(),
                http: 0,
                body: String::new(),
                ms: u(19.0),
            },
        ],
    );
    assert!(matches!(o, Outcome::DuplicateOnly { .. }), "got {o:?}");
}
#[test]
fn a_real_error_with_NO_duplicate_is_still_a_clean_reject() {
    match resolve(&[pr("h1", NSF, u(18.0))]) {
        Outcome::Rejected { body } => assert!(body.contains("not enough balance")),
        o => panic!("a lone real error is a reject — got {o:?}"),
    }
}
#[test]
fn no_responses_at_all_is_not_a_reject() {
    assert_eq!(resolve(& []), Outcome::NoResponse);
}
#[test]
fn a_transport_failure_on_one_path_does_not_lose_the_win() {
    let o = resolve(
        &[
            pr("h1", r#"{"transport_error":"timeout"}"#, u(10000.0)),
            pr("h2", MATCHED, u(21.0)),
        ],
    );
    assert!(matches!(o, Outcome::Matched { .. }));
}
#[test]
fn duplicate_markers_are_recognised_case_insensitively() {
    for b in [
        r#"{"errorMsg":"Duplicate order"}"#,
        r#"{"error":"ORDER ALREADY EXISTS"}"#,
        r#"{"errorMsg":"order already known"}"#,
    ] {
        assert!(looks_duplicate(b), "missed: {b}");
    }
    assert!(! looks_duplicate(NSF));
}
#[test]
fn a_failed_body_is_not_read_as_matched() {
    let b = r#"{"status":"matched","success":false}"#;
    assert!(! looks_matched(b), "success:false must never read as a fill");
}
#[test]
fn one_order_yields_exactly_one_outcome_however_many_paths() {
    for n in 1..6 {
        let mut rs = vec![pr("win", MATCHED, u(20.0))];
        for i in 0..n {
            rs.push(pr(&format!("dupe{i}"), DUPE, u(21.0 + i as f64)));
        }
        assert!(matches!(resolve(& rs), Outcome::Matched { .. }));
    }
}

#[test]
fn a_race_waits_for_all_but_a_match() {
    let mut seen = Vec::new();
    assert!(race_step(&mut seen, pr("a", NSF, u(1.0)), 2).is_none());
    let o = race_step(&mut seen, pr("b", MATCHED, u(2.0)), 1);
    assert!(matches!(o, Some(Outcome::Matched { .. })));
    assert_eq!(seen.len(), 2);
    let mut seen = Vec::new();
    let o = race_step(&mut seen, pr("a", NSF, u(1.0)), 0);
    assert!(matches!(o, Some(Outcome::Rejected { .. })));
}

#[test]
fn what_is_no_answer_has_the_status_zero() {
    let r = reply("a", Sent::Timeout, u(3.0));
    assert_eq!((r.path.as_str(), r.http, r.ms), ("a", 0, u(3.0)));
    assert_eq!(r.body, "{\"transport_error\":\"timeout\"}");
    let e = reply("a", Sent::Error("refused".into()), 0);
    assert_eq!(e.body, "{\"transport_error\":\"refused\"}");
    assert_eq!(reply("a", Sent::Answer(200, MATCHED.into()), 0).http, 200);
}

#[test]
fn a_verdict_beside_a_duplicate_is_told() {
    let dup = r#"{"error":"order duplicated"}"#;
    assert!(looks_duplicate(dup));
    let both = vec![pr("a", dup, 5), pr("b", "insufficient balance", 3)];
    let o = resolve(&both);
    assert!(matches!(o, Outcome::DuplicateOnly { .. }));
    assert_eq!(beside_a_duplicate(&o, &both).as_deref(), Some("insufficient balance"));
    assert_eq!(beside_a_duplicate(&o, &both[..1]), None);
    let refused = resolve(&both[1..]);
    assert_eq!(beside_a_duplicate(&refused, &both), None);
}

#[test]
fn a_race_goes_on_until_a_match() {
    let matched = r#"{"success":true,"status":"matched","orderID":"0x1"}"#;
    assert!(looks_matched(matched));
    let mut heard = Vec::new();
    assert!(race_step(&mut heard, pr("a", "insufficient balance", 3), 2).is_none());
    assert!(matches!(
        race_step(&mut heard, pr("b", matched, 4), 1),
        Some(Outcome::Matched { .. })
    ));
    assert_eq!(heard.len(), 2);
}
