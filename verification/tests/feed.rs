//! The feed of the order books.

use copybot_hot::book::{BookCache, Levels, TradePrints};
use copybot_hot::feed::{apply_message, pump_step, subscription, watch_changed, Feed, Moment};
use copybot_hot::feed::{PumpStep, Wire};

const NOW: Moment = Moment { now_us: 1_000_000_000, wall_ms: 1_000_000 };

fn feed() -> Feed {
    Feed {
        cache: BookCache::new(),
        prints: Some(TradePrints::new()),
        levels: Some(Levels::new()),
        watch: None,
    }
}

#[test]
fn a_message_is_one_frame_or_a_list_of_them() {
    let one = r#"{"event_type":"book","asset_id":"T","bids":[{"price":"0.40","size":"10"}],"asks":[{"price":"0.45","size":"5"}]}"#;
    let mut f = feed();
    apply_message(one, &mut f, NOW);
    let t = f.cache.top("T", NOW.now_us).unwrap();
    assert_eq!((t.best_bid, t.best_ask), (400_000, 450_000));
    let mut g = feed();
    apply_message(&format!("[{one}]"), &mut g, NOW);
    assert!(g.cache.top("T", NOW.now_us).is_some());
    let mut h = feed();
    apply_message("PONG", &mut h, NOW);
    assert!(h.cache.top("T", NOW.now_us).is_none());
}

#[test]
fn what_comes_off_the_wire_decides_the_next_step() {
    assert!(matches!(pump_step(Wire::Text("x".into())), PumpStep::Frame(s) if s == "x"));
    assert!(matches!(pump_step(Wire::Other), PumpStep::Skip));
    assert!(matches!(pump_step(Wire::Failed("io".into())), PumpStep::Broken(_)));
    assert!(!matches!(pump_step(Wire::Closed), PumpStep::Frame(_) | PumpStep::Skip));
    assert!(!matches!(pump_step(Wire::Ended), PumpStep::Frame(_) | PumpStep::Skip));
    assert!(!matches!(pump_step(Wire::Silent), PumpStep::Frame(_) | PumpStep::Skip));
}

#[test]
fn a_subscription_is_renewed_when_the_watch_list_changes() {
    let v = |s: &[&str]| s.iter().map(|x| x.to_string()).collect::<Vec<_>>();
    assert!(!watch_changed(&v(&["a", "b"]), &v(&["b", "a"])));
    assert!(watch_changed(&v(&["a"]), &v(&["a", "b"])));
}

#[test]
fn a_subscription_names_its_tokens() {
    let v = |s: &[&str]| s.iter().map(|x| x.to_string()).collect::<Vec<_>>();
    assert_eq!(subscription(&v(&["a", "b\""])), r#"{"assets_ids":["a","b\""],"type":"market"}"#);
    assert!(watch_changed(&v(&["b", "a"]), &v(&["a", "b"])), "not the canonical list");
    assert!(watch_changed(&v(&["a", "a"]), &v(&["a"])));
}

#[test]
fn an_infinite_price_is_the_end_of_the_range() {
    let top = |bids: &str, asks: &str| {
        let mut f = feed();
        let raw = format!(r#"{{"event_type":"book","asset_id":"T","bids":[{bids}],"asks":[{asks}]}}"#);
        apply_message(&raw, &mut f, NOW);
        f.cache.top("T", NOW.now_us).map(|t| (t.best_bid, t.best_ask))
    };
    let bid = r#"{"price":"0.4","size":"5"}"#;
    assert_eq!(top(bid, r#"{"price":"0.6","size":"5"}"#), Some((400_000, 600_000)));
    assert_eq!(top(bid, r#"{"price":"inf","size":"5"}"#), None, "nothing is asked");
    assert_eq!(
        top(bid, r#"{"price":"inf","size":"5"},{"price":"0.7","size":"5"}"#),
        Some((400_000, 700_000))
    );
    assert_eq!(top(r#"{"price":"inf","size":"5"}"#, r#"{"price":"0.6","size":"5"}"#), None);
    let mut f = feed();
    let raw = r#"{"event_type":"price_change","price_changes":[{"asset_id":"T","best_bid":"0.4","best_ask":"inf"}]}"#;
    apply_message(raw, &mut f, NOW);
    assert_eq!(f.cache.top("T", NOW.now_us).map(|t| t.best_ask), Some(i64::MAX));
}
