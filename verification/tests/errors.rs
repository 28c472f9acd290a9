//! The feed of faults.

use copybot_hot::errors::{
    counts_by_lane, counts_by_lane_since, rank, tail, trimmed, ErrorRow, ACTIVE_WINDOW_SECS,
    MAX_ROWS,
};
use copybot_hot::json::line_of;

/// Appends a row, and shortens the file where it has grown too long.
fn record(file: &mut String, row: &ErrorRow) {
    file.push_str(&line_of(&row.row()));
    file.push('\n');
    if let Some(kept) = trimmed(file) {
        *file = kept;
    }
}

/// What a file holds; nothing where it is not there.
fn read(files: &[(&str, &str)], path: &str) -> String {
    files.iter().find(|f| f.0 == path).map(|f| f.1.to_string()).unwrap_or_default()
}

fn row(lane: &str, sev: &str) -> ErrorRow {
    ErrorRow {
        t: 1,
        lane: lane.into(),
        kind: "drift".into(),
        detail: "d".into(),
        human: "h".into(),
        severity: sev.into(),
    }
}
#[test]
fn a_HISTORICAL_stop_does_not_count_as_a_current_incident() {
    let now = 1_000_000i64;
    let rows = vec![
        ErrorRow { t : now - 5 * 24 * 3600, lane : "example_lane_26".into(), kind : "trip"
        .into(), detail : "old".into(), human : "h".into(), severity : "stop".into()
        }, ErrorRow { t : now - 60, lane : "example_lane_26".into(), kind : "drift".into(),
        detail : "new".into(), human : "h".into(), severity : "notice".into() },
    ];
    let cutoff = now - ACTIVE_WINDOW_SECS;
    let active = counts_by_lane_since(&rows, cutoff);
    assert_eq!(
        active, vec![("example_lane_26".to_string(), 0, 0, 1)],
        "the days-old stop must not be current"
    );
    assert_eq!(counts_by_lane(& rows), vec![("example_lane_26".to_string(), 1, 0, 1)]);
}
#[test]
fn a_RECENT_stop_is_still_current() {
    let now = 1_000_000i64;
    let rows = vec![
        ErrorRow { t : now - 60, lane : "example_lane_26".into(), kind : "trip".into(), detail :
        "x".into(), human : "h".into(), severity : "stop".into() }
    ];
    assert_eq!(
        counts_by_lane_since(& rows, now - ACTIVE_WINDOW_SECS), vec![("example_lane_26"
        .to_string(), 1, 0, 0)]
    );
}
#[test]
fn rows_come_back_newest_first() {
    let mut p = String::new();
    for i in 0..3 {
        record(
            &mut p,
            &ErrorRow {
                t: i,
                ..row("a", "notice")
            },
        );
    }
    let got = tail(&p, 10);
    assert_eq!(got.len(), 3);
    assert_eq!(got[0].t, 2, "newest first — the operator reads the top");
}
#[test]
fn a_TORN_line_never_hides_the_rows_around_it() {
    let mut p = String::new();
    let good = line_of(&row("a", "stop").row());
    let also = line_of(&row("c", "notice").row());
    p.push_str(&format!("{good}\n{{\"t\":1,\"lane\":\"b\"\n{also}\n"));
    let got = tail(&p, 10);
    assert_eq!(got.len(), 2, "the good rows survive the broken one");
    assert_eq!(got[0].lane, "c");
}
#[test]
fn the_file_stays_bounded() {
    let mut p = String::new();
    for i in 0..(MAX_ROWS * 2 + 10) {
        record(
            &mut p,
            &ErrorRow {
                t: i as i64,
                ..row("a", "notice")
            },
        );
    }
    let n = p.lines().count();
    assert!(n <= MAX_ROWS * 2, "grew to {n}");
    assert_eq!(
        tail(& p, 1) [0].t, (MAX_ROWS * 2 + 9) as i64,
        "and it is the OLDEST rows that are dropped"
    );
}
#[test]
fn counts_split_by_lane_and_severity() {
    let rows = vec![row("a", "stop"), row("a", "notice"), row("b", "warn")];
    let c = counts_by_lane(&rows);
    assert_eq!(c, vec![("a".to_string(), 1, 0, 1), ("b".to_string(), 0, 1, 0)]);
}
#[test]
fn an_unknown_severity_sorts_last_instead_of_panicking() {
    assert!(rank("stop") < rank("warn"));
    assert!(rank("notice") < rank("from-a-future-version"));
}
#[test]
fn reading_a_file_that_does_not_exist_is_empty_not_an_error() {
    assert!(tail(&read(&[], "/nonexistent/cb2/errors.jsonl"), 10).is_empty());
}

#[test]
fn a_fault_is_read_from_a_list_of_its_parts() {
    let raw = "[7,\"a\",\"k\",\"d\",\"h\",\"warn\"]\n[7,\"a\",\"k\",\"d\",\"h\"]\n";
    let rows = tail(raw, 9);
    assert_eq!(rows.len(), 1);
    assert_eq!((rows[0].t, rows[0].severity.as_str()), (7, "warn"));
}

#[test]
fn a_fault_given_twice_or_framed_is_passed_over() {
    let row = r#"{"t":7,"lane":"a","kind":"k","detail":"d","human":"h","severity":"warn"}"#;
    assert_eq!(tail(row, 9).len(), 1);
    assert_eq!(tail(&format!("\u{2003}{row}"), 9).len(), 0);
    assert_eq!(tail(&row.replace("\"t\":7", "\"t\":7,\"t\":7"), 9).len(), 0);
}
