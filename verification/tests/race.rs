//! The race of the feeds.

use copybot_hot::json::Json;
use copybot_hot::race::{BehindTally, FillKey, RaceBook, SeenTx, TTL};

const NOW: u64 = 1_000_000_000_000;

fn key(tx: &str, size: f64) -> FillKey {
    FillKey {
        tx: tx.into(),
        token: "123456789".into(),
        side: 0,
        size_micro: (size * 1e6) as u64,
    }
}

fn at(j: &Json, source: &str, name: &str) -> Option<u64> {
    j.get(source).unwrap().unsigned_at(name)
}

fn names(j: &Json) -> usize {
    match j {
        Json::Fields(f) => f.len(),
        _ => panic!("an object"),
    }
}

#[test]
fn first_source_wins_and_the_rest_confirm() {
    let mut b = RaceBook::new();
    assert!(b.first_seen("mempool0", key("0xa", 100.0), None, NOW));
    assert!(! b.first_seen("mempool1", key("0xa", 100.0), None, NOW));
    assert!(! b.first_seen("wss0", key("0xa", 100.0), Some(3), NOW));
}
#[test]
fn redundant_sockets_on_one_provider_never_double_fire() {
    let mut b = RaceBook::new();
    let mut fires = 0;
    for src in ["pn0", "pn1", "pn2", "bora0", "bora1", "drpc0"] {
        if b.first_seen(src, key("0xdeadbeef", 250.0), None, NOW) {
            fires += 1;
        }
    }
    assert_eq!(fires, 1, "six feeds of one fill must produce exactly ONE order");
}
#[test]
fn a_source_redelivering_its_own_log_is_suppressed() {
    let mut b = RaceBook::new();
    assert!(b.first_seen("wss0", key("0xa", 100.0), Some(7), NOW));
    assert!(! b.first_seen("wss0", key("0xa", 100.0), Some(7), NOW));
    let (_, _, redel) = b.stats();
    assert_eq!(redel.get(&"wss0".to_string()), Some(& 1));
}
#[test]
fn two_distinct_fills_in_one_tx_both_fire() {
    let mut b = RaceBook::new();
    assert!(b.first_seen("wss0", key("0xa", 100.0), Some(3), NOW));
    assert!(b.first_seen("wss0", key("0xa", 250.0), Some(4), NOW));
}
#[test]
fn identical_fills_in_one_tx_both_fire_via_occurrence() {
    let mut b = RaceBook::new();
    assert!(b.first_seen("mempool0", key("0xa", 100.0), None, NOW));
    assert!(
        b.first_seen("mempool0", key("0xa", 100.0), None, NOW),
        "second identical fill should get occurrence 1 and fire"
    );
}
#[test]
fn occurrence_lines_up_across_sources() {
    let mut b = RaceBook::new();
    assert!(b.first_seen("mempool0", key("0xa", 100.0), None, NOW));
    assert!(b.first_seen("mempool0", key("0xa", 100.0), None, NOW));
    assert!(! b.first_seen("wss0", key("0xa", 100.0), Some(1), NOW));
    assert!(! b.first_seen("wss0", key("0xa", 100.0), Some(2), NOW));
}
#[test]
fn mempool_and_chain_agree_only_because_size_is_exact() {
    let mut b = RaceBook::new();
    assert!(b.first_seen("mempool0", key("0xa", 648.67), None, NOW));
    assert!(
        ! b.first_seen("wss0", key("0xa", 648.67), Some(2), NOW),
        "same fill from the chain must be recognised as a confirm"
    );
    assert!(
        b.first_seen("wss0", key("0xa", 639.34), Some(3), NOW),
        "different size is a different key (documents the failure mode)"
    );
}
#[test]
fn different_transactions_are_independent() {
    let mut b = RaceBook::new();
    assert!(b.first_seen("mempool0", key("0xa", 100.0), None, NOW));
    assert!(b.first_seen("mempool0", key("0xb", 100.0), None, NOW));
}
#[test]
fn win_and_confirm_counts_are_tracked_per_source() {
    let mut b = RaceBook::new();
    b.first_seen("fast", key("0xa", 1.0), None, NOW);
    b.first_seen("slow", key("0xa", 1.0), None, NOW);
    b.first_seen("fast", key("0xb", 1.0), None, NOW);
    b.first_seen("slow", key("0xb", 1.0), None, NOW);
    let (wins, confirms, _) = b.stats();
    assert_eq!(wins.get(&"fast".to_string()), Some(& 2));
    assert_eq!(confirms.get(&"slow".to_string()), Some(& 2));
    assert_eq!(wins.get(&"slow".to_string()), None);
}
#[test]
fn a_REDELIVERED_transaction_is_seen_once() {
    let mut s = SeenTx::new(64);
    assert!(s.first_delivery("0xabc"), "first delivery acts");
    assert!(! s.first_delivery("0xabc"), "a redelivery must NOT act again");
    assert!(! s.first_delivery("0xabc"));
}
#[test]
fn DISTINCT_transactions_are_unaffected() {
    let mut s = SeenTx::new(64);
    assert!(s.first_delivery("0xa"));
    assert!(s.first_delivery("0xb"));
}
#[test]
fn ONE_delivery_carrying_TWO_identical_fills_still_yields_TWO() {
    let mut s = SeenTx::new(64);
    assert!(s.first_delivery("0xa"));
    let mut b = RaceBook::new();
    assert!(b.first_seen("lava0", key("0xa", 100.0), None, NOW));
    assert!(
        b.first_seen("lava0", key("0xa", 100.0), None, NOW),
        "two identical fills inside ONE decode still both fire"
    );
}
#[test]
fn a_LOSING_delivery_is_TIMED_not_merely_dropped() {
    let mut s = SeenTx::new(64);
    assert_eq!(
        s.first_delivery_at("0xaa", 1_000_000), None, "the first delivery WINS"
    );
    assert_eq!(
        s.first_delivery_at("0xaa", 4_000_000), Some(3_000_000),
        "a loser must report how far behind it arrived"
    );
    assert_eq!(
        s.first_delivery_at("0xaa", 51_000_000), Some(50_000_000),
        "always measured against the winner, not the last arrival"
    );
}
#[test]
fn a_BACKWARD_stamp_reads_as_zero_rather_than_a_wild_negative() {
    let mut s = SeenTx::new(8);
    assert_eq!(s.first_delivery_at("0xbb", 5_000_000), None);
    assert_eq!(
        s.first_delivery_at("0xbb", 1_000_000), Some(0), "saturating, never negative"
    );
}
#[test]
fn the_plain_first_delivery_still_behaves_exactly_as_before() {
    let mut s = SeenTx::new(4);
    assert!(s.first_delivery("0x1"), "first time is true");
    assert!(! s.first_delivery("0x1"), "every redelivery is false");
    assert!(s.first_delivery("0x2"));
}
#[test]
fn eviction_forgets_the_winning_stamp_TOO() {
    let mut s = SeenTx::new(2);
    s.first_delivery_at("0xa", 1_000);
    s.first_delivery_at("0xb", 2_000);
    s.first_delivery_at("0xc", 3_000);
    assert_eq!(
        s.won_at_ns.len(), 2, "stamps are bounded by the cap"
    );
    assert!(
        ! s.won_at_ns.has(&"0xa".to_string()), "the evicted hash left no stamp behind"
    );
}
#[test]
fn the_tally_buckets_by_MAGNITUDE_and_resets_each_window() {
    let mut t = BehindTally::default();
    t.record("fast", 500_000);
    t.record("fast", 900_000);
    t.record("slow", 50_000_000);
    t.record("slow", 250_000_000);
    let j = t.drain_json();
    assert_eq!(
        at(&j, "fast", "le_1ms"), Some(2), "sub-ms arrivals land in the tightest bucket"
    );
    assert_eq!(at(&j, "slow", "le_100ms"), Some(1));
    assert_eq!(at(&j, "slow", "over_100ms"), Some(1));
    assert!(j.get("slow").unwrap().micros_at("max_ms") == Some(250_000_000));
    assert!(t.is_empty(), "drain must reset the window");
    assert_eq!(names(&t.drain_json()), 0);
}
#[test]
fn eviction_is_bounded_and_oldest_first() {
    let mut s = SeenTx::new(3);
    for h in ["a", "b", "c"] {
        assert!(s.first_delivery(h));
    }
    assert!(! s.first_delivery("a"), "still remembered while resident");
    assert!(s.first_delivery("d"));
    assert_eq!(s.len(), 3, "memory stays bounded");
    assert!(s.first_delivery("a"), "evicted long after the mempool dropped it");
}

#[test]
fn a_fill_is_new_again_once_its_memory_has_run_out() {
    let mut b = RaceBook::new();
    assert!(b.first_seen("a", key("0xa", 1.0), None, NOW));
    assert!(!b.first_seen("b", key("0xa", 1.0), None, NOW + 1));
    assert!(b.first_seen("b", key("0xa", 1.0), None, NOW + 2 * TTL));
}

#[test]
fn a_fill_fires_as_often_as_one_feed_told_of_it() {
    let mut b = RaceBook::new();
    let told = ["x", "y", "x", "z", "y", "x"];
    let fired: Vec<bool> =
        told.iter().map(|s| b.first_seen(s, key("0xt", 5.0), None, NOW)).collect();
    assert_eq!(fired, [true, false, true, false, false, true]);
    assert!(b.first_seen("x", key("0xu", 5.0), Some(3), NOW));
    assert!(!b.first_seen("x", key("0xu", 5.0), Some(3), NOW), "delivered again");
}
