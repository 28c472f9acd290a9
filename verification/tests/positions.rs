//! The venue's list of positions.

use copybot_hot::json::{read_json, Json};
use copybot_hot::positions::{judge, page_url, Completeness, PageWalk, Positions, MAX_PAGES, PAGE};

/// A number as millionths.
fn u(x: f64) -> i64 {
    (x * 1e6).round() as i64
}

fn row(asset: &str, size: &str) -> Json {
    read_json(&format!("{{\"asset\":\"{asset}\",\"size\":\"{size}\"}}")).unwrap()
}
#[test]
fn a_SHORT_final_page_proves_completeness() {
    assert_eq!(judge(& [500, 500, 12], None, MAX_PAGES), Completeness::Complete);
    assert_eq!(judge(& [3], None, MAX_PAGES), Completeness::Complete);
    assert_eq!(judge(& [0], None, MAX_PAGES), Completeness::Complete);
    assert_eq!(judge(& [], None, MAX_PAGES), Completeness::Complete);
}
#[test]
fn a_FULL_final_page_at_the_budget_is_TRUNCATED() {
    let lens = vec![500usize; MAX_PAGES];
    assert!(
        matches!(judge(& lens, None, MAX_PAGES), Completeness::Truncated { .. })
    );
}
#[test]
fn a_FAILED_page_is_never_COMPLETE_however_much_we_got() {
    let c = judge(&[500, 500], Some((2, "503".into())), MAX_PAGES);
    assert!(! c.is_complete());
    assert!(c.reason().contains("page 3 failed"));
    assert!(! judge(& [7], Some((1, "timeout".into())), MAX_PAGES).is_complete());
}
#[test]
fn DESTRUCTIVE_action_is_refused_on_anything_but_a_complete_read() {
    let mk = |c: Completeness| Positions {
        rows: vec![],
        completeness: c,
        as_of: 0,
    };
    assert!(mk(Completeness::Complete).may_act_destructively());
    assert!(
        ! mk(Completeness::Truncated { pages : 50, cap : 50 })
        .may_act_destructively()
    );
    assert!(
        ! mk(Completeness::Failed { after_pages : 1, why : "x".into() })
        .may_act_destructively()
    );
}
#[test]
fn by_asset_parses_BOTH_numeric_and_string_sizes_and_sums_duplicates() {
    let p = Positions {
        rows: vec![
            row("T", "10.5"), read_json(r#"{ "asset": "U", "size": 3.25 }"#).unwrap(),
            row("T", "1.5"), read_json(r#"{ "nope": 1 }"#).unwrap()
        ],
        completeness: Completeness::Complete,
        as_of: 0,
    };
    let m = p.by_asset();
    assert!(m.get(&"T".to_string()) == Some(&i128::from(u(12.0))), "duplicate rows for one asset must SUM");
    assert!(m.get(&"U".to_string()) == Some(&i128::from(u(3.25))));
    assert_eq!(m.len(), 2, "a row with no asset is skipped, not fatal");
}
#[test]
fn page_url_advances_the_offset_and_keeps_extras() {
    let u = page_url("https://x", "0xabc", "0.0001", 1000, "&redeemable=true");
    assert!(u.contains("offset=1000"));
    assert!(u.contains("limit=500"));
    assert!(u.contains("redeemable=true"));
}

#[test]
fn pages_are_read_until_one_is_short() {
    let mut w = PageWalk::start();
    assert_eq!(w.next_offset(), Some(0));
    w.take(Ok((0..PAGE).map(|_| row("T", "1")).collect()));
    assert_eq!(w.next_offset(), Some(PAGE));
    w.take(Ok(vec![row("U", "2")]));
    assert_eq!(w.next_offset(), None);
    let p = w.finish(7);
    assert!(p.completeness.is_complete() && p.len() == PAGE + 1);
    assert_eq!(p.as_of, 7);
}

#[test]
fn a_page_that_fails_ends_the_walk() {
    let mut w = PageWalk::start();
    w.take(Ok((0..PAGE).map(|_| row("T", "1")).collect()));
    w.take(Err("timeout".into()));
    assert_eq!(w.next_offset(), None);
    let p = w.finish(7);
    assert!(matches!(p.completeness, Completeness::Failed { after_pages: 1, .. }));
    assert!(!p.may_act_destructively());
}

#[test]
fn a_trace_of_a_token_is_no_zero() {
    let confirms = |size: &str| {
        Positions {
            rows: vec![row("T", size), row("U", "5")],
            completeness: Completeness::Complete,
            as_of: 100,
        }
        .confirms_zero("T", 50)
    };
    assert!(confirms("0") && confirms("0.000000001") && confirms("-0.0"));
    assert!(!confirms("0.0000001"), "a ten-millionth is more than a billionth");
    assert!(!confirms("-0.0000001") && !confirms("1") && !confirms("-1"));
    assert!(!confirms("NaN") && !confirms("inf"));
}
