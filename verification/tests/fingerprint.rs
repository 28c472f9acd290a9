//! Fills of the leader that the book shows before the chain does.

use copybot_hot::fingerprint::{Candidate, Conf, FingerprintScore, Fingerprints};

const T0: u64 = 1_000_000_000;

/// A number as millionths.
fn u(x: f64) -> i64 {
    (x * 1e6).round() as i64
}

fn fp() -> Fingerprints {
    Fingerprints::new()
}
#[test]
fn an_unlearned_token_never_produces_a_candidate() {
    assert!(fp().on_book("T", u(0.62), u(100.0), T0).is_none());
}
#[test]
fn a_decrement_at_his_level_is_a_candidate() {
    let mut f = fp();
    f.learn("T", 0, u(0.62), u(5000.0), u(5000.0), T0);
    let c = f.on_book("T", u(0.62), u(4600.0), T0).unwrap();
    assert!(c.size == i128::from(u(400.0)));
    assert_eq!(c.confidence, Conf::Uncontested);
}
#[test]
fn an_update_at_a_different_price_is_ignored() {
    let mut f = fp();
    f.learn("T", 0, u(0.62), u(5000.0), u(5000.0), T0);
    assert!(f.on_book("T", u(0.61), u(10.0), T0).is_none());
}
#[test]
fn liquidity_being_ADDED_is_not_a_fill() {
    let mut f = fp();
    f.learn("T", 0, u(0.62), u(5000.0), u(5000.0), T0);
    assert!(f.on_book("T", u(0.62), u(6000.0), T0).is_none());
}
#[test]
fn a_decrement_larger_than_his_order_is_refused() {
    let mut f = fp();
    f.learn("T", 0, u(0.62), u(100.0), u(100.0), T0);
    assert!(
        f.on_book("T", u(0.62), u(-900.0), T0).is_none(), "cannot fill more than he rests"
    );
}
#[test]
fn a_contested_level_is_flagged_not_trusted() {
    let mut f = fp();
    f.learn("T", 0, u(0.62), u(1000.0), u(5000.0), T0);
    let c = f.on_book("T", u(0.62), u(4500.0), T0).unwrap();
    assert_eq!(
        c.confidence, Conf::Contested, "a decrement on a shared level may not be his"
    );
}
#[test]
fn a_stale_belief_is_dropped_because_cancels_are_invisible() {
    let mut f = fp();
    f.learn("T", 0, u(0.62), u(5000.0), u(5000.0), T0);
    assert!(f.on_book("T", u(0.62), u(4000.0), T0 + 600_000_000).is_none());
    assert_eq!(f.abstained_stale, 1);
}
#[test]
fn his_order_is_forgotten_once_fully_consumed() {
    let mut f = fp();
    f.learn("T", 0, u(0.62), u(100.0), u(100.0), T0);
    f.on_book("T", u(0.62), u(0.0), T0).unwrap();
    assert_eq!(f.known_len(), 0);
    assert!(f.on_book("T", u(0.62), u(0.0), T0).is_none());
}
#[test]
fn a_confirmed_candidate_agrees() {
    let mut s = FingerprintScore::new();
    s.saw(Candidate {
        token: "T".into(),
        side: 0,
        price: u(0.62),
        size: i128::from(u(400.0)),
        confidence: Conf::Uncontested,
    }, T0);
    s.confirm("T", 0, u(0.62), u(400.0), T0);
    assert_eq!(s.agree, 1);
}
#[test]
fn a_mismatched_confirmation_is_a_DISAGREEMENT() {
    let mut s = FingerprintScore::new();
    s.saw(Candidate {
        token: "T".into(),
        side: 0,
        price: u(0.62),
        size: i128::from(u(400.0)),
        confidence: Conf::Uncontested,
    }, T0);
    s.confirm("T", 0, u(0.62), u(9999.0), T0);
    assert_eq!(s.disagree, 1);
}
#[test]
fn one_disagreement_blocks_promotion_permanently() {
    let mut s = FingerprintScore::new();
    for _ in 0..100 {
        s.saw(Candidate {
            token: "T".into(),
            side: 0,
            price: u(0.62),
            size: i128::from(u(400.0)),
            confidence: Conf::Uncontested,
        }, T0);
        s.confirm("T", 0, u(0.62), u(400.0), T0);
    }
    s.saw(Candidate {
        token: "T".into(),
        side: 0,
        price: u(0.62),
        size: i128::from(u(400.0)),
        confidence: Conf::Uncontested,
    }, T0);
    s.confirm("T", 0, u(0.62), u(1.0), T0);
    let v = s.verdict(20);
    assert_eq!(v.bool_at("READY_TO_PROMOTE"), Some(false));
    assert!(v.text_at("blocker").unwrap().contains("DISAGREED"));
}
#[test]
fn ghosts_block_promotion_even_with_zero_disagreements() {
    let mut s = FingerprintScore::new();
    for _ in 0..50 {
        s.saw(Candidate {
            token: "T".into(),
            side: 0,
            price: u(0.62),
            size: i128::from(u(400.0)),
            confidence: Conf::Uncontested,
        }, T0);
        s.confirm("T", 0, u(0.62), u(400.0), T0);
    }
    for _ in 0..10 {
        s.saw(Candidate {
            token: "G".into(),
            side: 0,
            price: u(0.5),
            size: i128::from(u(1.0)),
            confidence: Conf::Uncontested,
        }, T0);
    }
    s.expire(0, T0);
    let v = s.verdict(20);
    assert_eq!(v.bool_at("READY_TO_PROMOTE"), Some(false));
    assert!(v.text_at("blocker").unwrap().contains("ghost"));
}
