//! The chart of response times.

use copybot_hot::json::line_of;
use copybot_hot::response_times::{Ring, Sample, CAP};

/// A number as millionths.
fn u(x: f64) -> i64 {
    (x * 1e6).round() as i64
}

/// Takes a sample and appends it to the file.
fn push(ring: &mut Ring, file: &mut String, s: Sample) {
    file.push_str(&line_of(&s.row()));
    file.push('\n');
    ring.push(s);
}

/// The file with nothing but the live window, the oldest sample first.
fn compacted(ring: &Ring) -> String {
    ring.tail(CAP).iter().rev().map(|s| line_of(&s.row()) + "\n").collect()
}

#[test]
fn samples_SURVIVE_a_restart() {
    let mut p = String::new();
    {
        let mut r = Ring::from_text(&p);
        push(&mut r, &mut p, sample(1, u(100.0)));
        push(&mut r, &mut p, sample(2, u(200.0)));
    }
    let reborn = Ring::from_text(&p);
    let got = reborn.tail(10);
    assert_eq!(got.len(), 2, "a restart must not blank the chart");
    assert_eq!(got[0].t, 2, "newest first, order preserved across the reload");
}
#[test]
fn a_reload_keeps_only_the_live_WINDOW_however_long_the_file_is() {
    let mut p = String::new();
    {
        let mut r = Ring::from_text(&p);
        for i in 0..(CAP as i64 + 40) {
            push(&mut r, &mut p, sample(i, u(i as f64)));
        }
    }
    let reborn = Ring::from_text(&p);
    assert_eq!(reborn.tail(1000).len(), CAP, "the ring stays bounded on reload");
    assert_eq!(reborn.tail(1) [0].t, CAP as i64 + 39, "and keeps the NEWEST");
}
#[test]
fn compact_bounds_the_file_so_it_cannot_grow_forever() {
    let mut p = String::new();
    let mut r = Ring::from_text(&p);
    for i in 0..(CAP as i64 + 100) {
        push(&mut r, &mut p, sample(i, u(i as f64)));
    }
    let before = p.lines().count();
    p = compacted(&r);
    let after = p.lines().count();
    assert_eq!(before, CAP + 100, "append-only until compacted");
    assert_eq!(after, CAP, "compaction trims to the live window");
}
#[test]
fn a_CORRUPT_or_missing_file_is_an_empty_chart_not_a_refusal_to_boot() {
    let mut p = String::new();
    p.push_str(
        "{\"t\":1,\"lane\":\"a\",\"token\":\"T\",\"side\":0,\"us\":9.0}\n                            {not json at all\n",
    );
    let r = Ring::from_text(&p);
    assert_eq!(
        r.tail(10).len(), 1, "the intact sample survives, the torn one is skipped"
    );
    let gone = Ring::from_text("");
    assert!(gone.tail(10).is_empty());
}
#[test]
fn a_ring_with_NO_file_still_works_and_writes_nothing() {
    let mut r = Ring::new();
    r.push(sample(1, u(10.0)));
    assert_eq!(r.tail(5).len(), 1);
    assert_eq!(compacted(&r).lines().count(), 1);
}
fn sample(t: i64, us: i64) -> Sample {
    Sample {
        t,
        lane: "example_lane_26".into(),
        token: "T".into(),
        side: 0,
        us,
    }
}
#[test]
fn newest_comes_first() {
    let mut r = Ring::new();
    r.push(sample(1, u(100.0)));
    r.push(sample(2, u(200.0)));
    r.push(sample(3, u(300.0)));
    let got = r.tail(10);
    assert_eq!(got.iter().map(| s | s.t).collect::< Vec < _ >> (), vec![3, 2, 1]);
}
#[test]
fn old_samples_are_evicted_once_the_ring_is_full() {
    let mut r = Ring::new();
    for i in 0..(CAP + 10) {
        r.push(sample(i as i64, u(i as f64)));
    }
    let got = r.tail(CAP + 10);
    assert_eq!(got.len(), CAP, "must never grow past the cap");
    assert_eq!(got[0].t, (CAP + 9) as i64, "newest survives");
    assert_eq!(
        * got.last().unwrap(), sample(10, u(10.0)), "oldest evicted ones are gone"
    );
}
#[test]
fn an_empty_ring_returns_empty_not_a_panic() {
    assert!(Ring::new().tail(10).is_empty());
}
#[test]
fn tail_never_returns_more_than_asked() {
    let mut r = Ring::new();
    for i in 0..20 {
        r.push(sample(i, u(i as f64)));
    }
    assert_eq!(r.tail(5).len(), 5);
}

#[test]
fn a_sample_is_read_from_a_list_of_its_parts() {
    let r = Ring::from_text("[5,\"a\",\"T\",1,2.5]\n[5,\"a\",\"T\",256,2.5]\n");
    let t = r.tail(CAP);
    assert_eq!(t.len(), 1);
    assert_eq!((t[0].t, t[0].side, t[0].us), (5, 1, u(2.5)));
}

#[test]
fn a_sample_may_be_framed_but_not_given_twice() {
    let row = r#"{"t":5,"lane":"a","token":"T","side":1,"us":2.5}"#;
    assert_eq!(Ring::from_text(&format!("\u{a0}{row}")).tail(CAP).len(), 1);
    assert_eq!(Ring::from_text(&row.replace("\"t\":5", "\"t\":5,\"t\":5")).tail(CAP).len(), 0);
}
