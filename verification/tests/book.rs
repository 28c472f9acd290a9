//! The book and its frames.

use copybot_hot::book::{
    canonical, evict_watch_over_cap, room_ticks, tick_size, BookCache, Levels, Top, TradePrints,
    LEVEL_MAX_AGE, PRINT_DEDUP_MS,
};
use copybot_hot::feed::{apply_frame, Feed, Moment};
use copybot_hot::json::{read_json, Json};
use copybot_hot::table::Table;

const T0: u64 = 1_000_000_000;
const NOW: Moment = Moment { now_us: T0, wall_ms: 1_000_000 };

/// A number as millionths.
fn u(x: f64) -> i64 {
    (x * 1e6).round() as i64
}

fn feed_with(prints: bool, levels: bool) -> Feed {
    Feed {
        cache: BookCache::new(),
        prints: if prints { Some(TradePrints::new()) } else { None },
        levels: if levels { Some(Levels::new()) } else { None },
        watch: None,
    }
}

fn prints(feed: &Feed) -> &TradePrints {
    feed.prints.as_ref().unwrap()
}

fn set(names: &[&str]) -> Table<String, ()> {
    let mut t = Table::new();
    for n in names {
        t.insert(n.to_string(), ());
    }
    t
}

fn print_frame(token: &str, price: &str, size: &str, side: &str) -> Json {
    fields(&[
        ("event_type", "last_trade_price"),
        ("asset_id", token),
        ("price", price),
        ("size", size),
        ("side", side),
    ])
}

fn fields(f: &[(&str, &str)]) -> Json {
    Json::Fields(f.iter().map(|(k, v)| (k.to_string(), Json::Text(v.to_string()))).collect())
}
#[test]
fn WIRE_a_last_trade_price_frame_still_reaches_the_counter() {
    let mut feed = feed_with(true, false);
    apply_frame(&print_frame("T", "0.50", "100", "buy"), &mut feed, NOW);
    assert_eq!(
        prints(&feed).cumulative_at("T", u(0.50)), i128::from(u(100.0)),
        "the frame must still reach the print counter"
    );
}
#[test]
fn WIRE_the_same_frame_three_times_counts_ONCE() {
    let mut feed = feed_with(true, false);
    let f = print_frame("T", "0.50", "100", "buy");
    for _ in 0..3 {
        apply_frame(&f, &mut feed, NOW);
    }
    assert_eq!(prints(&feed).cumulative_at("T", u(0.50)), i128::from(u(100.0)));
}
#[test]
fn WIRE_a_buy_and_a_sell_frame_both_count() {
    let mut feed = feed_with(true, false);
    apply_frame(&print_frame("T", "0.50", "100", "buy"), &mut feed, NOW);
    apply_frame(&print_frame("T", "0.50", "100", "sell"), &mut feed, NOW);
    assert_eq!(
        prints(&feed).cumulative_at("T", u(0.50)), i128::from(u(200.0)),
        "side must be parsed off the frame, not defaulted"
    );
}
#[test]
fn WIRE_a_frame_with_no_side_field_still_records() {
    let mut feed = feed_with(true, false);
    let f = fields(&[
        ("event_type", "last_trade_price"),
        ("asset_id", "T"),
        ("price", "0.50"),
        ("size", "100"),
    ]);
    apply_frame(&f, &mut feed, NOW);
    assert_eq!(prints(&feed).cumulative_at("T", u(0.50)), i128::from(u(100.0)));
}
#[test]
fn RT_a_real_iceberg_of_identical_clips_is_UNDERCOUNTED_and_that_is_the_safe_way() {
    let mut p = TradePrints::new();
    for i in 0..5 {
        p.record_at("T", u(0.50), u(100.0), "buy", 1_000_000 + i * 10);
    }
    assert_eq!(p.cumulative_at("T", u(0.50)), i128::from(u(100.0)));
    p.record_at("T", u(0.50), u(100.0), "buy", 1_000_000 + PRINT_DEDUP_MS + 1);
    assert_eq!(p.cumulative_at("T", u(0.50)), i128::from(u(200.0)));
}
#[test]
fn RT_dedup_NEVER_makes_the_counter_go_backwards() {
    let mut p = TradePrints::new();
    let mut last = i128::from(u(0.0));
    for i in 0..200 {
        p.record_at("T", u(0.50), u(1.0 + (i % 7) as f64), "buy", 1_000_000 + i * 37);
        let now = p.cumulative_at("T", u(0.50));
        assert!(now >= last, "cumulative print volume must be monotonic");
        last = now;
    }
}
#[test]
fn RT_a_clock_that_JUMPS_BACKWARDS_cannot_wedge_the_dedup() {
    let mut p = TradePrints::new();
    p.record_at("T", u(0.50), u(100.0), "buy", 2_000_000);
    p.record_at("T", u(0.50), u(100.0), "buy", 1_000_000);
    assert_eq!(
        p.cumulative_at("T", u(0.50)), i128::from(u(200.0)),
        "a backwards clock must not swallow prints"
    );
}
#[test]
fn RT_pruning_never_drops_the_CUMULATIVE_totals() {
    let mut p = TradePrints::new();
    p.record_at("T", u(0.50), u(100.0), "buy", 1_000_000);
    for i in 0..5_000 {
        p.record_at("T", u(0.99), u(1.0 + i as f64), "buy", 1_000_000 + i as i64);
    }
    assert_eq!(
        p.cumulative_at("T", u(0.50)), i128::from(u(100.0)),
        "the anchor price's total must survive a flood at another price"
    );
}
#[test]
fn RT_retain_tokens_still_bounds_the_dedup_map_too() {
    let mut p = TradePrints::new();
    for i in 0..100 {
        p.record_at(&format!("T{i}"), u(0.50), u(100.0), "buy", 1_000_000 + i as i64);
    }
    let keep = set(&["T1"]);
    p.retain_tokens(&keep);
    assert!(p.seen_len() <= 4096);
}
#[test]
fn THE_SAME_PRINT_ON_THREE_SOCKETS_COUNTS_ONCE() {
    let mut p = TradePrints::new();
    for _ in 0..3 {
        p.record_at("T", u(0.50), u(100.0), "buy", 1_000_000);
    }
    assert_eq!(
        p.cumulative_at("T", u(0.50)), i128::from(u(100.0)),
        "three deliveries of one trade are one trade"
    );
}
#[test]
fn a_GENUINE_later_trade_at_the_same_price_still_counts() {
    let mut p = TradePrints::new();
    p.record_at("T", u(0.50), u(100.0), "buy", 1_000_000);
    p.record_at("T", u(0.50), u(100.0), "buy", 1_000_000 + PRINT_DEDUP_MS);
    assert_eq!(p.cumulative_at("T", u(0.50)), i128::from(u(200.0)));
}
#[test]
fn different_SIZES_are_different_trades_even_in_the_same_instant() {
    let mut p = TradePrints::new();
    p.record_at("T", u(0.50), u(100.0), "buy", 1_000_000);
    p.record_at("T", u(0.50), u(250.0), "buy", 1_000_000);
    assert_eq!(p.cumulative_at("T", u(0.50)), i128::from(u(350.0)));
}
#[test]
fn a_BUY_and_a_SELL_of_the_same_size_are_not_collapsed() {
    let mut p = TradePrints::new();
    p.record_at("T", u(0.50), u(100.0), "buy", 1_000_000);
    p.record_at("T", u(0.50), u(100.0), "sell", 1_000_000);
    assert_eq!(p.cumulative_at("T", u(0.50)), i128::from(u(200.0)));
}
#[test]
fn different_TOKENS_never_share_a_duplicate_key() {
    let mut p = TradePrints::new();
    p.record_at("A", u(0.50), u(100.0), "buy", 1_000_000);
    p.record_at("B", u(0.50), u(100.0), "buy", 1_000_000);
    assert_eq!(p.cumulative_at("A", u(0.50)), i128::from(u(100.0)));
    assert_eq!(p.cumulative_at("B", u(0.50)), i128::from(u(100.0)));
}
#[test]
fn the_duplicate_map_stays_BOUNDED_under_a_flood() {
    let mut p = TradePrints::new();
    for i in 0..5_000 {
        p.record_at("T", u(0.50), u(1.0 + i as f64), "buy", 1_000_000 + i as i64);
    }
    assert!(p.seen_len() <= 4096, "the dedup map must be bounded");
}
#[test]
fn THE_CANCEL_SIGNAL_SURVIVES_duplicate_delivery() {
    let mut p = TradePrints::new();
    for _ in 0..3 {
        p.record_at("T", u(0.50), u(100.0), "buy", 1_000_000);
    }
    let printed = p.cumulative_at("T", u(0.50));
    assert_eq!(printed, i128::from(u(100.0)));
    assert!(
        printed < i128::from(u(300.0)),
        "a 300-share decrement must NOT look fully explained by prints"
    );
}
fn top(bb: i64, ba: i64) -> Top {
    Top {
        best_bid: bb,
        best_ask: ba,
        at: 0,
    }
}
#[test]
fn a_one_tick_spread_has_no_room() {
    assert_eq!(room_ticks(& top(u(0.60), u(0.61)), u(0.60), 0, u(0.01)), 0);
}
#[test]
fn a_wide_spread_has_room() {
    assert_eq!(room_ticks(& top(u(0.60), u(0.65)), u(0.60), 0, u(0.01)), 4);
}
#[test]
fn sell_side_room_is_measured_against_the_bid() {
    assert_eq!(room_ticks(& top(u(0.60), u(0.65)), u(0.65), 1, u(0.01)), 4);
    assert_eq!(room_ticks(& top(u(0.60), u(0.61)), u(0.61), 1, u(0.01)), 0);
}
#[test]
fn a_stale_book_is_never_returned() {
    let mut c = BookCache::new();
    c.put("T", u(0.60), u(0.65), T0);
    assert!(c.top("T", T0).is_some());
    assert!(c.top("T", T0 + 30_000_000).is_none(), "acting on a stale book rests at a dead price");
}
#[test]
fn a_crossed_or_empty_book_is_never_cached() {
    let mut c = BookCache::new();
    c.put("T", u(0.65), u(0.60), T0);
    c.put("U", u(0.0), u(0.60), T0);
    c.put("V", u(0.60), u(0.0), T0);
    assert!(c.is_empty());
}
#[test]
fn tick_size_follows_the_venue_bands() {
    assert_eq!(tick_size(u(0.50)), u(0.01));
    assert_eq!(tick_size(u(0.05)), u(0.01));
    assert_eq!(tick_size(u(0.95)), u(0.01));
    assert_eq!(tick_size(u(0.03)), u(0.001));
    assert_eq!(tick_size(u(0.97)), u(0.001));
}
#[test]
fn a_price_change_frame_moves_the_top() {
    let mut feed = feed_with(false, false);
    let frame = read_json(
        r#"{
        "event_type": "price_change",
        "price_changes": [
            {"asset_id": "TOK1", "side": "BUY", "price": "0.60", "size": "1200",
             "best_bid": "0.60", "best_ask": "0.62"}
        ]
    }"#,
    )
    .unwrap();
    apply_frame(&frame, &mut feed, NOW);
    let t = feed.cache.top("TOK1", T0).expect("price_change must feed the cache");
    assert_eq!((t.best_bid, t.best_ask), (u(0.60), u(0.62)));
}
#[test]
fn a_price_change_with_multiple_assets_updates_each() {
    let mut feed = feed_with(false, false);
    let frame = read_json(
        r#"{
        "event_type": "price_change",
        "price_changes": [
            {"asset_id": "A", "side": "SELL", "price": "0.70", "size": "10",
             "best_bid": "0.65", "best_ask": "0.70"},
            {"asset_id": "B", "side": "BUY", "price": "0.30", "size": "5",
             "best_bid": "0.30", "best_ask": "0.33"}
        ]
    }"#,
    )
    .unwrap();
    apply_frame(&frame, &mut feed, NOW);
    assert!(feed.cache.top("A", T0).is_some() && feed.cache.top("B", T0).is_some());
}
#[test]
fn a_book_snapshot_still_works_exactly_as_before() {
    let mut feed = feed_with(false, false);
    let frame = read_json(
        r#"{
        "event_type": "book", "asset_id": "TOK1",
        "bids": [{"price": "0.58", "size": "100"}, {"price": "0.60", "size": "50"}],
        "asks": [{"price": "0.63", "size": "80"}, {"price": "0.65", "size": "10"}]
    }"#,
    )
    .unwrap();
    apply_frame(&frame, &mut feed, NOW);
    let t = feed.cache.top("TOK1", T0).unwrap();
    assert_eq!((t.best_bid, t.best_ask), (u(0.60), u(0.63)));
}
#[test]
fn a_trade_print_is_recorded_and_queryable() {
    let mut feed = feed_with(true, false);
    let frame = read_json(
        r#"{
        "event_type": "last_trade_price", "asset_id": "TOK1",
        "price": "0.62", "size": "150", "side": "BUY"
    }"#,
    )
    .unwrap();
    apply_frame(&frame, &mut feed, NOW);
    assert_eq!(prints(&feed).cumulative_at("TOK1", u(0.62)), i128::from(u(150.0)));
    assert_eq!(
        prints(&feed).cumulative_at("TOK1", u(0.70)), i128::from(u(0.0)),
        "a print at one price must not corroborate another"
    );
}
#[test]
fn a_malformed_frame_is_ignored_not_a_panic() {
    let mut feed = feed_with(false, false);
    for bad in [
        r#"{"event_type":"price_change"}"#,
        r#"{"event_type":"price_change","price_changes":[{}]}"#,
        r#"{"event_type":"last_trade_price"}"#,
        r#"{"event_type":"book","asset_id":"T"}"#,
        r#"{}"#,
        r#"[]"#,
        r#"42"#,
    ] {
        let v = read_json(bad).unwrap();
        apply_frame(&v, &mut feed, NOW);
    }
    assert!(feed.cache.is_empty());
}
#[test]
fn eviction_skips_pinned_tokens_and_still_bounds_the_rest() {
    let mut w: Vec<String> = (0..10).map(|i| format!("t{i}")).collect();
    let pinned = set(&["t0", "t1"]);
    evict_watch_over_cap(&mut w, 4, &pinned);
    assert_eq!(w.len(), 4);
    assert!(
        w.contains(& "t0".into()) && w.contains(& "t1".into()),
        "a pinned token carries a live rest — evicting it blinds its cancel detector"
    );
    let all = set(&w.iter().map(|s| s.as_str()).collect::<Vec<_>>());
    evict_watch_over_cap(&mut w, 1, &all);
    assert_eq!(
        w.len(), 4,
        "pinned tokens may exceed the cap; the cap bounds churn, not safety"
    );
}
#[test]
fn a_snapshot_that_OMITS_a_level_records_it_as_EMPTY() {
    let mut l = Levels::new();
    l.put("T", u(0.62), u(4600.0), T0);
    assert_eq!(l.size_at("T", u(0.62), T0), Some(u(4600.0)));
    l.put_snapshot("T", &[(u(0.55), u(10.0)), (u(0.70), u(10.0))], T0);
    assert_eq!(
        l.size_at("T", u(0.62), T0), Some(u(0.0)), "an omitted level is EMPTY, not unknown"
    );
    assert_eq!(l.size_at("T", u(0.55), T0), Some(u(10.0)));
}
#[test]
fn the_per_token_level_map_is_HARD_bounded() {
    let mut l = Levels::new();
    for i in 1..500 {
        l.put("T", u(i as f64 / 1000.0), u(10.0), T0);
    }
    assert!(l.size_at("T", u(0.499), T0).is_some(), "the newest levels survive");
    assert!(l.size_at("T", u(0.001), T0).is_none(), "the oldest level was dropped");
}
#[test]
fn a_level_we_have_NEVER_seen_is_None_not_zero() {
    let mut l = Levels::new();
    assert_eq!(l.size_at("T", u(0.62), T0), None);
    l.put("T", u(0.62), u(100.0), T0);
    assert_eq!(l.size_at("U", u(0.62), T0), None, "another token proves nothing");
    assert_eq!(l.size_at("T", u(0.63), T0), None, "another price proves nothing");
}
#[test]
fn cumulative_prints_are_monotonic_and_keyed_on_the_PRICE_GRID() {
    let mut pr = TradePrints::new();
    pr.record("T", u(0.62), u(100.0), 1_000_000);
    pr.record("T", u(620_000.0 / 1_000_000.0), u(50.0), 1_000_000);
    assert_eq!(pr.cumulative_at("T", u(0.62)), i128::from(u(150.0)));
    assert_eq!(pr.cumulative_at("T", u(0.63)), i128::from(u(0.0)), "a neighbouring level is separate");
    pr.record("T", u(0.62), u(25.0), 1_000_000);
    assert_eq!(pr.cumulative_at("T", u(0.62)), i128::from(u(175.0)), "counters only ever grow");
}
#[test]
fn book_liveness_is_proven_by_FRAMES_not_by_trades() {
    let mut l = Levels::new();
    assert!(! l.feed_alive(60_000_000, T0), "nothing seen yet");
    l.put("T", u(0.62), u(10.0), T0);
    assert!(l.feed_alive(60_000_000, T0), "a book frame proves the socket");
}
#[test]
fn ADV_a_stale_level_reading_must_not_read_as_empty() {
    let mut l = Levels::new();
    l.put("T", u(0.62), u(4600.0), T0);
    assert_eq!(l.size_at("T", u(0.62), T0), Some(u(4600.0)));
    assert!(LEVEL_MAX_AGE > 60_000_000, "must outlast a normal gap");
}
#[test]
fn ADV_price_grid_collisions_across_the_venue_tick_range() {
    let mut pr = TradePrints::new();
    for (a, b) in [(u(0.001), u(0.002)), (u(0.62), u(0.621)), (u(0.9985), u(0.9995)), (u(0.04), u(0.041))] {
        pr.record("T", a, u(10.0), 1_000_000);
        assert_eq!(
            pr.cumulative_at("T", b), i128::from(u(0.0)), "prices {a} and {b} collided on the grid"
        );
    }
}
#[test]
fn ADV_retain_tokens_keeps_a_RESTING_tokens_evidence() {
    let mut l = Levels::new();
    let mut pr = TradePrints::new();
    l.put("KEEP", u(0.5), u(100.0), T0);
    l.put("DROP", u(0.5), u(100.0), T0);
    pr.record("KEEP", u(0.5), u(10.0), 1_000_000);
    pr.record("DROP", u(0.5), u(10.0), 1_000_000);
    let keep = set(&["KEEP"]);
    l.retain_tokens(&keep);
    pr.retain_tokens(&keep);
    assert_eq!(l.size_at("KEEP", u(0.5), T0), Some(u(100.0)));
    assert_eq!(l.size_at("DROP", u(0.5), T0), None);
    assert_eq!(pr.cumulative_at("KEEP", u(0.5)), i128::from(u(10.0)));
    assert_eq!(pr.cumulative_at("DROP", u(0.5)), i128::from(u(0.0)));
}
#[test]
fn ADV_a_price_change_to_size_zero_is_recorded_as_zero_not_skipped() {
    let mut feed = feed_with(false, true);
    let fr = |j: &str| read_json(j).unwrap();
    apply_frame(
        &fr(
            r#"{"event_type":"price_change","price_changes":[
        {"asset_id":"T","side":"BUY","price":"0.62","size":"4600",
         "best_bid":"0.62","best_ask":"0.64"}]}"#,
        ),
        &mut feed,
        NOW,
    );
    apply_frame(
        &fr(
            r#"{"event_type":"price_change","price_changes":[
        {"asset_id":"T","side":"BUY","price":"0.62","size":"0",
         "best_bid":"0.61","best_ask":"0.64"}]}"#,
        ),
        &mut feed,
        NOW,
    );
    assert_eq!(feed.levels.as_ref().unwrap().size_at("T", u(0.62), T0), Some(u(0.0)), "size 0 IS the cancel signal");
}
#[test]
fn canonical_ignores_order_and_duplicates() {
    let a = canonical(&["b".into(), "a".into(), "a".into()]);
    let b = canonical(&["a".into(), "b".into()]);
    assert_eq!(a, b);
    let c = canonical(&["a".into(), "c".into()]);
    assert_ne!(a, c, "a real membership change must still be visible");
}
#[test]
fn unknown_token_yields_no_room_so_we_fall_back_to_taking() {
    let c = BookCache::new();
    assert!(c.top("nope", T0).is_none());
}
