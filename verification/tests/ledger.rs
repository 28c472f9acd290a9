//! The book of every lane, and the file behind it.

use copybot_hot::history::{scan_for_settlement, equity_series_at, ContinuityVerdict, Prior};
use copybot_hot::json::{line_of, Json};
use copybot_hot::ledger::{merge_price_of, side_hash_of, Append, Booked, Ledger, LedgerFile};
use copybot_hot::risk::RiskConfig;
use copybot_hot::rows::{adjust_row, booked_row, fill_row, merge_row, note_row, recon_row, settle_row};
use copybot_hot::table::Table;
use copybot_hot::units::Qty;

const T: i64 = 1_700_000_000;
const USD: i128 = 1_000_000_000_000;

/// A number as millionths.
fn u(x: f64) -> i64 {
    (x * 1e6).round() as i64
}

/// An amount of money.
fn usd(x: f64) -> i128 {
    i128::from(u(x)) * 1_000_000
}

fn file(rows: &[Json]) -> String {
    rows.iter().map(|r| line_of(r) + "\n").collect()
}

fn lanes() -> Vec<(String, RiskConfig)> {
    vec![("a".to_string(), RiskConfig::default()), ("b".to_string(), RiskConfig::default())]
}

fn ledger_of(path: &str) -> Ledger {
    Ledger::new(path, &lanes(), LedgerFile::Missing, T)
}

fn fresh() -> Ledger {
    ledger_of("/x/ledger.jsonl")
}

fn buy(l: &mut Ledger, lane: &str, token: &str, shares: f64, price: f64) {
    assert!(l.record_fill(lane, token, 0, u(shares), u(price), 0, T, Append::Done));
}

fn realised(l: &Ledger, lane: &str) -> i128 {
    l.lanes.get(&lane.to_string()).unwrap().risk.realised_pnl
}

fn held(l: &Ledger, lane: &str, token: &str) -> Option<i64> {
    l.holdings(lane).get(&token.to_string()).copied()
}

#[test]
fn a_buy_costs_its_price_and_its_fee() {
    let mut l = fresh();
    assert!(l.record_fill("a", "T", 0, u(100.0), u(0.40), u(0.10), T, Append::Done));
    assert_eq!(l.open_usd("a"), usd(40.10));
    assert_eq!(l.avg_cost("a", "T"), i128::from(u(0.401)));
    assert_eq!(held(&l, "a", "T"), Some(u(100.0)));
    assert_eq!(l.lanes.get(&"a".to_string()).unwrap().spent_today, usd(40.10));
}

#[test]
fn a_sell_realises_what_it_brings_over_its_cost() {
    let mut l = fresh();
    assert!(l.record_fill("a", "T", 0, u(100.0), u(0.40), u(0.10), T, Append::Done));
    assert!(l.record_fill("a", "T", 1, u(40.0), u(0.50), u(0.05), T, Append::Done));
    assert_eq!(realised(&l, "a"), usd(3.91));
    assert_eq!(held(&l, "a", "T"), Some(u(60.0)));
    assert_eq!(l.open_usd("a"), usd(24.06));
    assert_eq!(l.avg_cost("a", "T"), i128::from(u(0.401)));
}

#[test]
fn a_sell_never_takes_more_than_is_held() {
    let mut l = fresh();
    buy(&mut l, "a", "T", 10.0, 0.30);
    assert!(l.record_fill("a", "T", 1, u(25.0), u(0.50), 0, T, Append::Done));
    assert_eq!(held(&l, "a", "T"), None);
    assert_eq!(l.open_usd("a"), 0);
}

#[test]
fn one_lane_leaves_the_others_alone() {
    let mut l = fresh();
    buy(&mut l, "a", "T", 10.0, 0.30);
    assert_eq!(l.open_usd("b"), 0);
    buy(&mut l, "b", "T", 5.0, 0.40);
    assert_eq!(l.open_usd("a"), usd(3.0));
    assert_eq!(l.pool_claim("T"), i128::from(u(15.0)));
}

#[test]
fn a_lane_that_is_not_there_books_nothing() {
    let mut l = fresh();
    assert!(!l.record_fill("zz", "T", 0, u(1.0), u(0.5), 0, T, Append::Done));
    assert!(!l.has_lane("zz") && l.has_lane("a"));
    l.ensure_lane("zz", RiskConfig::default(), Some(&file(&[settle_row("zz", "T", u(1.0), T)])), T);
    assert!(l.has_lane("zz"));
}

#[test]
fn a_fill_after_the_chain_realises_and_spends_nothing() {
    let mut l = fresh();
    buy(&mut l, "a", "T", 10.0, 0.30);
    l.record_recon_fill("a", "T", 1, u(4.0), u(0.90), 0, T, Append::Done);
    assert_eq!(realised(&l, "a"), 0);
    assert_eq!(held(&l, "a", "T"), Some(u(6.0)));
    assert_eq!(l.lanes.get(&"a".to_string()).unwrap().spent_today, usd(3.0));
}

#[test]
fn what_is_settled_is_settled() {
    let mut l = fresh();
    buy(&mut l, "a", "T", 10.0, 0.30);
    l.record_settlement("a", "T", u(1.0), T, Append::Done);
    assert_eq!(realised(&l, "a"), usd(7.0));
    assert_eq!(held(&l, "a", "T"), None);
    l.record_settlement("a", "T", u(1.0), T, Append::Done);
    assert_eq!(realised(&l, "a"), usd(7.0));
}

#[test]
fn a_merge_pays_one_for_a_pair() {
    let mut l = fresh();
    buy(&mut l, "a", "Y", 10.0, 0.30);
    buy(&mut l, "a", "N", 6.0, 0.60);
    assert_eq!(l.mergeable("a", "Y", "N"), u(6.0));
    l.record_merge("a", "Y", "N", u(6.0), T, Append::Done);
    assert_eq!(l.mergeable("a", "Y", "N"), 0);
    assert_eq!(held(&l, "a", "Y"), Some(u(4.0)));
    assert_eq!(realised(&l, "a"), usd(0.60));
}

#[test]
fn a_correction_moves_what_is_realised_and_a_reset_takes_it_back() {
    let mut l = fresh();
    l.record_realised_adjustment("a", "T", u(10.0), u(8.0), u(0.30), "late", T, Append::Done);
    assert_eq!(realised(&l, "a"), usd(5.0));
    l.record_realised_adjustment_tx(
        "a", "T", u(1.0), u(0.5), u(0.30), "late", "0xk", T, Append::Done,
    );
    assert_eq!(realised(&l, "a"), usd(5.2));
    l.realised_reset("a", "new start", T, Append::Done);
    assert_eq!(realised(&l, "a"), 0);
}

#[test]
fn an_order_is_booked_once() {
    let mut l = fresh();
    let first = l.book_fill("a", "T", 0, u(10.0), u(0.3), 0, Some(u(0.29)), "0xo", T, Append::Done);
    assert_eq!(first, Some(Booked { shares: u(10.0), price: u(0.3) }));
    assert!(l.is_booked("0xo"));
    let before = l.open_usd("a");
    let again = l.book_fill("a", "T", 0, u(10.0), u(0.3), 0, None, "0xo", T, Append::Done);
    assert_eq!(again, first);
    assert_eq!(l.open_usd("a"), before);
    let p = l.open_positions("a");
    assert_eq!(p, vec![(
        "T".to_string(), u(10.0), i128::from(u(0.3)), T, Some(i128::from(u(0.29))), u(10.0),
    )]);
}

#[test]
fn a_fill_that_was_not_written_is_not_booked() {
    let mut l = fresh();
    let r = l.book_fill("a", "T", 0, u(1.0), u(0.3), 0, None, "0xo", T, Append::Failed("disk".into()));
    assert_eq!(r, None);
    assert!(!l.is_booked("0xo") && !l.persistence_ok());
    assert_eq!((l.open_usd("a"), l.write_failures), (0, 1));
    assert_eq!(l.last_write_error.as_deref(), Some("ledger append /x/ledger.jsonl: disk"));
}

#[test]
fn replaying_the_file_leads_to_the_same_book() {
    let mut l = fresh();
    let rows = [
        fill_row("a", "T", 0, u(100.0), u(0.40), u(0.10), Some(u(0.39)), T),
        fill_row("a", "T", 1, u(40.0), u(0.50), u(0.05), None, T + 1),
        recon_row("a", "T", 1, u(1.0), u(0.50), 0, T + 2),
        booked_row("b", "U", 0, u(3.0), u(0.2), 0, None, "0xo", true, None, false, T + 3),
        adjust_row("a", "T", u(1.0), u(0.5), u(0.30), "late", None, T + 4),
        merge_row("a", "Y", "N", u(1.0), T + 5),
        settle_row("a", "T", u(1.0), T + 6),
        note_row("realised_reset", "b", "x", T + 7),
    ];
    for r in &rows {
        l.commit(r, T, Append::Done);
    }
    let raw = file(&rows) + "{\"ev\":\"fi\n\n";
    let again = Ledger::new("/x/ledger.jsonl", &lanes(), LedgerFile::Text(raw), T);
    for lane in ["a", "b"] {
        assert_eq!(realised(&again, lane), realised(&l, lane));
        assert_eq!(again.open_usd(lane), l.open_usd(lane));
    }
    assert_eq!(realised(&again, "a"), usd(3.91) + usd(0.2) + usd(59.0 * 0.599));
    assert!(again.is_booked("0xo") && l.is_booked("0xo"));
    assert_eq!((again.events, again.corrupt_lines), (8, 1));
    assert!(!again.persistence_ok());
}

#[test]
fn an_unreadable_file_is_told() {
    let l = Ledger::new("/x", &lanes(), LedgerFile::Unreadable("denied".into()), T);
    assert_eq!(l.last_write_error.as_deref(), Some("ledger read /x: denied"));
}

#[test]
fn three_losses_in_a_row_can_stop_a_lane_until_it_is_cleared() {
    let cfg = RiskConfig { max_consecutive_losses: 3, ..RiskConfig::default() };
    let mut l = Ledger::new("", &[("a".to_string(), cfg)], LedgerFile::Missing, T);
    for i in 0..3 {
        let token = format!("T{i}");
        buy(&mut l, "a", &token, 10.0, 0.50);
        l.record_settlement("a", &token, 0, T, Append::Done);
    }
    let a = l.lanes.get(&"a".to_string()).unwrap();
    assert_eq!(a.risk.consecutive_losses, 3);
    assert_eq!(a.risk.realised_pnl, -15 * USD);
    assert!(!l.clear_risk("zz", "who", T, Append::Done));
    l.clear_risk("a", "operator", T, Append::Done);
    assert!(l.lanes.get(&"a".to_string()).unwrap().risk.tripped.is_none());
}

#[test]
fn shares_that_no_lane_claims_may_be_adopted_and_lost_ones_released() {
    let mut l = fresh();
    buy(&mut l, "a", "T", 10.0, 0.30);
    buy(&mut l, "a", "U", 10.0, 0.40);
    let mut chain = Table::new();
    chain.insert("T".to_string(), u(12.5));
    chain.insert("U".to_string(), u(4.0));
    let later = T + 1_000;
    assert_eq!(
        l.adoptable("a", &chain, 600, later, u(100.0)),
        vec![("T".to_string(), i128::from(u(2.5)), i128::from(u(0.30)))]
    );
    assert!(l.adoptable("a", &chain, 600, T + 10, u(100.0)).is_empty());
    assert!(l.adoptable("a", &chain, 600, later, u(2.5)).is_empty());
    assert_eq!(
        l.releasable("a", &chain, 600, later),
        vec![("U".to_string(), i128::from(u(6.0)), i128::from(u(0.40)))]
    );
    buy(&mut l, "b", "T", 2.5, 0.30);
    assert!(l.adoptable("a", &chain, 600, later, u(100.0)).is_empty());
}

#[test]
fn the_two_sides_of_a_merge_make_one_whole() {
    let q = |x: f64| Qty::Finite(u(x));
    assert_eq!(merge_price_of(q(0.30), q(0.60)), 333_333);
    assert_eq!(merge_price_of(Qty::NotFinite, q(0.60)), u(0.5));
    assert_eq!(merge_price_of(q(0.0), q(0.0)), u(0.5));
    assert_ne!(side_hash_of("0xt", true), side_hash_of("0xt", false));
    let mut l = fresh();
    buy(&mut l, "a", "Y", 10.0, 0.30);
    buy(&mut l, "a", "N", 10.0, 0.60);
    let r = l.book_merge(
        "a", "Y", "N", q(4.0), q(0.25), q(0.75), "0xt", T, Append::Done, Append::Done,
    );
    let (y, n) = r.unwrap();
    assert_eq!((y.price + n.price, y.shares, n.shares), (u(1.0), u(4.0), u(4.0)));
    assert_eq!(y.price, u(0.25));
    assert_eq!(realised(&l, "a"), usd(0.40));
    let none = l.book_merge(
        "a", "Y", "N", q(0.0), q(0.25), q(0.75), "0xu", T, Append::Done, Append::Done,
    );
    assert_eq!(none, None);
}

#[test]
fn a_file_may_only_have_grown() {
    let l = fresh();
    let prev = Ledger::continuity("a\nb\n");
    assert_eq!((prev.lines, prev.bytes), (2, 4));
    assert_eq!(
        prev.prefix_sha256,
        "911169ddaaf146aff539f58c26c489af3b892dff0fe283c1c264c65ae5aa59a2"
    );
    let check = |raw: Option<&str>| {
        l.verify_continuity(Prior::Found(Ledger::continuity("a\nb\n")), raw)
    };
    assert!(matches!(check(Some("a\nb\n")), ContinuityVerdict::Intact));
    assert!(matches!(check(Some("a\nb\nc\n")), ContinuityVerdict::Intact));
    let said = |v: ContinuityVerdict| match v {
        ContinuityVerdict::Broken(s) => s,
        _ => panic!("broken"),
    };
    assert_eq!(said(check(Some("a\n"))), "the ledger LOST history: 1 lines now, 2 at the last boot");
    assert!(said(check(Some("a\nx\n"))).contains("REWRITTEN"));
    assert_eq!(said(check(None)), "cannot read /x/ledger.jsonl");
    assert!(matches!(l.verify_continuity(Prior::Absent, None), ContinuityVerdict::FirstRun));
    assert_eq!(
        said(l.verify_continuity(Prior::Unreadable, None)),
        "the continuity record itself is unreadable"
    );
}

#[test]
fn a_file_is_read_for_what_it_says_of_the_past() {
    let day = 86_400;
    let now = T + 40 * day;
    let raw = file(&[
        fill_row("a", "T", 0, u(10.0), u(0.30), 0, None, T),
        fill_row("a", "T", 1, u(10.0), u(0.50), 0, None, T + day),
        note_row("realised_reset", "b", "x", T + 5),
        fill_row("b", "U", 0, u(10.0), u(0.50), 0, None, now - 100),
        fill_row("b", "U", 1, u(10.0), u(0.40), 0, None, now - 50),
        adjust_row("a", "T", u(1.0), u(0.5), u(0.30), "late", Some(("k", "0xk")), now - 20),
        recon_row("a", "V", 1, u(2.0), u(0.25), 0, now - 10),
    ]);
    assert_eq!(Ledger::newest_realised_reset_t(&raw), Some(T + 5));
    assert_eq!(Ledger::newest_realised_reset_t(""), None);
    assert_eq!(Ledger::lane_epoch(&raw, "b"), Some(T + 5));
    let series = equity_series_at(&raw, Some("a"), now);
    assert_eq!(series.last().unwrap().1, i128::from(u(2.2)));
    let w = Ledger::realised_windows_at(&raw, None, now);
    let m = |x: f64| i128::from(u(x));
    assert_eq!((w.total, w.d1, w.y1), (m(1.2), m(-0.8), m(1.2)));
    let (keys, releases) = scan_for_settlement(&raw);
    assert!(keys.len() == 1 && keys.has(&"k".to_string()));
    let both = Ledger::corrected_keys(&raw);
    assert!(both.len() == 2 && both.has(&"0xk".to_string()));
    assert_eq!(releases.len(), 1);
    assert_eq!(
        releases.get(&("a".to_string(), "V".to_string())),
        Some(&(u(2.0), u(0.25), now - 10))
    );
    assert_eq!(
        Ledger::last_recon_release(&raw, "a", "V", T),
        Some((u(2.0), u(0.25), now - 10))
    );
    assert_eq!(Ledger::last_recon_release(&raw, "a", "V", now), None);
}

#[test]
fn a_row_goes_to_the_file_only_for_a_lane_that_is_there() {
    let l = ledger_of("book.jsonl");
    assert!(l.writes("a") && !l.writes("zzz"));
    assert!(!ledger_of("").writes("a"));
}

#[test]
fn the_second_side_of_a_merge_waits_for_the_first() {
    let l = ledger_of("book.jsonl");
    let half = Qty::Finite(u(0.5));
    let row = |first: &Append| {
        l.merge_second_row("a", "T", Qty::Finite(u(2.0)), half, half, "0xt", T, first)
    };
    assert!(row(&Append::Done).is_some());
    assert!(row(&Append::Failed("disk".to_string())).is_none());
}

#[test]
fn a_booked_order_needs_no_row() {
    let mut l = ledger_of("");
    let due = |l: &Ledger| {
        l.booking_row_due("a", "T", 0, u(1.0), u(0.5), 0, None, "0xh", false, false, T).is_some()
    };
    assert!(due(&l));
    l.book_fill_ex_px("a", "T", 0, u(1.0), u(0.5), 0, None, "0xh", false, false, T, Append::Done)
        .unwrap();
    assert!(!due(&l));
}

#[test]
fn a_settlement_of_a_large_position_is_booked_whole() {
    let mut l = ledger_of("");
    let n: i64 = 9_000_000_000_000_000_000;
    assert!(l.record_fill("a", "T", 0, n, u(1.0), 0, T, Append::Done));
    l.record_settlement("a", "T", n, T, Append::Done);
    assert_eq!(realised(&l, "a"), i128::from(n) * i128::from(n) - i128::from(n) * 1_000_000);
}

#[test]
fn a_lanes_series_is_told_by_its_own_rows() {
    let own = [
        fill_row("a", "T", 0, u(10.0), u(0.30), 0, None, T),
        fill_row("a", "T", 1, u(10.0), u(0.50), 0, None, T + 60),
    ];
    let mixed = file(&own[..1])
        + &file(&[fill_row("b", "T", 0, u(9.0), u(0.10), 0, None, T + 30)])
        + "{\"torn\n"
        + &file(&own[1..]);
    let series = equity_series_at(&mixed, Some("a"), T + 90);
    assert_eq!(series, vec![(T, 0), (T + 60, i128::from(u(2.0)))]);
    assert_eq!(series, equity_series_at(&file(&own), Some("a"), T + 90));
}
