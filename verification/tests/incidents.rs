//! Safety stops that outlast a restart.

use copybot_hot::incidents::Incidents;
use copybot_hot::json::line_of;
use copybot_hot::ledger::{Append, LedgerFile};

/// The journal that a file holds; none where it was never written.
fn reopen(file: &str) -> Incidents {
    Incidents::open(if file.is_empty() {
        LedgerFile::Missing
    } else {
        LedgerFile::Text(file.to_string())
    })
}

fn raise(
    inc: &mut Incidents,
    file: &mut String,
    lane: &str,
    kind: &str,
    why: &str,
    now: i64,
) -> Result<bool, String> {
    if let Some(row) = inc.raise_row(lane, kind, why, now) {
        file.push_str(&line_of(&row.row()));
        file.push('\n');
    }
    inc.raise(lane, kind, why, now, Append::Done)
}

fn clear(
    inc: &mut Incidents,
    file: &mut String,
    lane: &str,
    by: &str,
    now: i64,
) -> Result<bool, String> {
    if let Some(row) = inc.clear_row(lane, by, now) {
        file.push_str(&line_of(&row.row()));
        file.push('\n');
    }
    inc.clear(lane, by, now, Append::Done)
}

#[test]
fn a_latch_SURVIVES_the_restart_it_was_protecting_against() {
    let mut p = String::new();
    {
        let mut inc = reopen(&p);
        raise(&mut inc, &mut p, "example_lane_26", "fire_rate", ">10 buys in 30s", 1_000).unwrap();
        assert!(inc.latched("example_lane_26"));
    }
    let inc = reopen(&p);
    assert!(inc.latched("example_lane_26"), "a restart must NOT clear a safety stop");
    assert!(! inc.latched("example_lane_25"), "and must not latch a lane that was fine");
}
#[test]
fn only_a_DELIBERATE_clear_releases_a_lane() {
    let mut p = String::new();
    let mut inc = reopen(&p);
    raise(&mut inc, &mut p, "example_lane_26", "persistence", "ENOSPC", 1_000).unwrap();
    assert!(clear(&mut inc, &mut p, "example_lane_26", "operator:api", 1_001).unwrap());
    assert!(! inc.latched("example_lane_26"));
    drop(inc);
    assert!(
        ! reopen(&p).latched("example_lane_26"), "the acknowledgement must persist"
    );
}
#[test]
fn raising_the_SAME_incident_twice_writes_ONE_row() {
    let mut p = String::new();
    let mut inc = reopen(&p);
    assert!(raise(&mut inc, &mut p, "example_lane_26", "fire_rate", "x", 1_000).unwrap(), "first is new");
    assert!(! raise(&mut inc, &mut p, "example_lane_26", "fire_rate", "x", 1_001).unwrap(), "second is not");
    assert!(
        ! raise(&mut inc, &mut p, "example_lane_26", "other", "y", 1_002).unwrap(),
        "the lane stays held by the FIRST incident"
    );
    let rows = p.lines().count();
    assert_eq!(rows, 2, "same kind dedupes; a different kind is journalled");
    assert_eq!(inc.open_incidents() [0].kind, "fire_rate");
    let re = reopen(&p);
    assert!(re.latched("example_lane_26"));
    assert_eq!(
        re.open_incidents() [0].kind, "fire_rate",
        "replay must agree with live state about the open cause"
    );
}
#[test]
fn an_UNREADABLE_journal_latches_EVERYTHING_and_refuses_clears() {
    let mut p = String::new();
    let mut inc = Incidents::open(LedgerFile::Unreadable("Is a directory".into()));
    assert!(inc.unreadable().is_some());
    assert!(inc.latched("anything"), "fail toward the stop");
    assert!(
        clear(&mut inc, &mut p, "anything", "operator", 1).is_err(),
        "a clear must not be accepted while the journal is broken"
    );
}
#[test]
fn a_MISSING_journal_is_a_clean_first_run_not_a_fault() {
    let p = String::new();
    let inc = reopen(&p);
    assert!(inc.unreadable().is_none());
    assert!(! inc.latched("example_lane_26"));
    assert!(inc.is_empty());
}
#[test]
fn a_CORRUPT_TAIL_is_skipped_without_losing_earlier_incidents() {
    let mut p = String::new();
    {
        let mut inc = reopen(&p);
        raise(&mut inc, &mut p, "example_lane_26", "fire_rate", "real", 1_000).unwrap();
    }
    p.push_str("{\"t\":1001,\"lane\":\"jok\n");
    let inc = reopen(&p);
    assert!(inc.latched("example_lane_26"), "the intact incident must survive a torn tail");
    assert!(! inc.latched("example_lane_25"), "and the torn one grants nothing");
}
#[test]
fn clearing_a_lane_that_is_not_latched_is_a_harmless_no_op() {
    let mut p = String::new();
    let mut inc = reopen(&p);
    assert!(! clear(&mut inc, &mut p, "example_lane_26", "operator", 1).unwrap());
}

#[test]
fn a_stop_is_read_from_a_list_of_its_parts() {
    let inc = reopen("[1000,\"a\",\"k\",\"w\",\"raise\"]\n[1001,\"b\",\"k\",\"w\"]\n");
    assert!(inc.latched("a") && !inc.latched("b"));
    let freed = reopen(
        "[1000,\"a\",\"k\",\"w\",\"raise\"]\n[1001,\"a\",\"k\",\"w\",\"clear\",\"me\"]\n",
    );
    assert!(!freed.latched("a"));
}

#[test]
fn a_line_that_gives_a_field_twice_is_passed_over() {
    let line = |more: &str| {
        format!("{{\"t\":1,\"lane\":\"a\",\"kind\":\"k\",\"why\":\"w\",\"ev\":\"raise\"{more}}}\n")
    };
    assert!(reopen(&line("")).latched("a"));
    assert!(reopen(&line(",\"x\":1,\"x\":2")).latched("a"), "a field that is not read");
    assert!(reopen(&line(",\"x\":{\"t\":1,\"t\":2}")).latched("a"), "a field further in");
    assert!(!reopen(&line(",\"lane\":\"a\"")).latched("a"));
    assert!(!reopen(&line(", \"l\\u0061ne\" : \"a\"")).latched("a"), "however it is written");
    let framed = format!("\u{a0}{}", line(""));
    assert!(!reopen(&framed).latched("a"), "this space is none of JSON's");
    assert!(reopen(&format!(" \t{}", line(""))).latched("a"));
}
