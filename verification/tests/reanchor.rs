//! Bringing the model of the leader's book in line with the venue.

use copybot_hot::reanchor::{decide, plan, Move, Refusal};
use copybot_hot::table::Table;
use copybot_hot::units::Qty;

const NAN: i64 = i64::MIN;

/// A number as millionths.
fn u(x: f64) -> i64 {
    (x * 1e6).round() as i64
}

fn q(x: i64) -> Qty {
    if x == NAN {
        Qty::NotFinite
    } else {
        Qty::Finite(x)
    }
}

fn m(pairs: &[(&str, i64)]) -> Table<String, Qty> {
    let mut t = Table::new();
    for (k, v) in pairs {
        t.insert(k.to_string(), q(*v));
    }
    t
}

fn map(pairs: &[(&str, i64)]) -> Table<String, Qty> {
    m(pairs)
}

fn at(t: &Table<String, Qty>, k: &String) -> i64 {
    match t.get(k) {
        Some(Qty::Finite(v)) => *v,
        _ => 0,
    }
}

#[test]
fn RT_a_TRUNCATED_page_cannot_liquidate_anything() {
    let modelled = m(&[("A", u(5000.0)), ("B", u(9000.0)), ("C", u(100.0))]);
    let venue = m(&[("A", u(5000.0))]);
    let held = m(&[("B", u(300.0)), ("C", u(40.0))]);
    let (writes, r) = plan(&modelled, &venue, &held, false);
    assert!(writes.is_empty(), "an incomplete read must write NOTHING");
    assert_eq!(r.raised + r.lowered, 0);
}
#[test]
fn RT_even_a_COMPLETE_read_cannot_zero_a_held_position() {
    let (writes, r) = plan(&m(&[("A", u(5000.0))]), &m(&[]), &m(&[("A", u(300.0))]), true);
    assert!(writes.is_empty());
    assert_eq!(r.refused, 1);
}
#[test]
fn RT_the_repair_only_ever_makes_exits_SMALLER_on_held_tokens() {
    let modelled = m(&[("A", u(0.0)), ("B", u(100.0)), ("C", u(9000.0))]);
    let venue = m(&[("A", u(76437.0)), ("B", u(5000.0)), ("C", u(20.0))]);
    let held = m(&[("A", u(320.0)), ("B", u(50.0)), ("C", u(10.0))]);
    let (writes, _) = plan(&modelled, &venue, &held, true);
    for (tok, v) in &writes {
        let before = at(&modelled, tok);
        assert!(
            * v >= before,
            "{tok}: wrote {v} below modelled {before} — that INCREASES frac"
        );
    }
}
#[test]
fn RT_lowering_is_confined_to_tokens_we_do_not_hold() {
    let (writes, _) = plan(&m(&[("X", u(9000.0))]), &m(&[("X", u(20.0))]), &m(&[]), true);
    assert_eq!(
        writes, vec![("X".to_string(), u(20.0))],
        "no position means no exit to mis-size"
    );
}
#[test]
fn RT_an_empty_venue_book_while_we_hold_everything_writes_nothing() {
    let modelled = m(&[("A", u(100.0)), ("B", u(200.0)), ("C", u(300.0))]);
    let held = m(&[("A", u(10.0)), ("B", u(20.0)), ("C", u(30.0))]);
    let (writes, r) = plan(&modelled, &m(&[]), &held, true);
    assert!(writes.is_empty(), "an empty book must not rewrite the whole model");
    assert_eq!(r.refused, 3);
}
#[test]
fn RT_repeated_runs_converge_and_stop_writing() {
    let mut modelled = m(&[("A", u(0.0))]);
    let venue = m(&[("A", u(5000.0))]);
    let held = m(&[("A", u(100.0))]);
    let (w1, _) = plan(&modelled, &venue, &held, true);
    for (t, v) in &w1 {
        modelled.insert(t.clone(), q(*v));
    }
    let (w2, r2) = plan(&modelled, &venue, &held, true);
    assert!(w2.is_empty(), "second pass must be a no-op");
    assert_eq!(r2.agreed, 1);
}
#[test]
fn FRT_reanchor_keeps_working_correctly_DURING_a_split_brain() {
    let (writes, r) = plan(
        &m(&[("A", u(0.0))]),
        &m(&[("A", u(5000.0))]),
        &m(&[("A", u(100.0))]),
        true,
    );
    assert_eq!(writes.len(), 1, "re-anchor still repairs during a split brain");
    assert_eq!(r.disarmed_zeros, 1);
}
#[test]
fn FRT_every_reanchor_write_is_safe_under_ADVERSARIAL_venue_data() {
    let modelled = m(&[("A", u(5000.0)), ("B", u(0.0)), ("C", u(100.0)), ("D", u(9000.0))]);
    let held = m(&[("A", u(300.0)), ("B", u(50.0)), ("C", u(0.0)), ("D", u(10.0))]);
    for venue in [
        m(&[]),
        m(&[("A", u(0.0)), ("B", u(0.0)), ("C", u(0.0)), ("D", u(0.0))]),
        m(&[("A", u(1.0)), ("D", u(0.5))]),
        m(&[("A", NAN)]),
        m(&[("A", u(1e12))]),
    ] {
        let (writes, _) = plan(&modelled, &venue, &held, true);
        for (tok, v) in &writes {
            let before = at(&modelled, tok);
            let hold = at(&held, tok);
            if hold > 0 {
                assert!(
                    * v >= before,
                    "{tok}: wrote {v} < modelled {before} while holding {hold} \
                         — that ENLARGES the next exit"
                );
            }
        }
    }
}
#[test]
fn THE_MEASURED_CASE_a_modelled_zero_on_a_held_position_is_RAISED() {
    let m = decide(q(u(0.0)), Some(q(u(76_437.0))), q(u(320.83)), true);
    assert_eq!(m, Move::Raise { from : u(0.0), to : u(76_437.0) });
}
#[test]
fn raising_is_UNCONDITIONAL_because_it_can_only_shrink_an_exit() {
    assert!(matches!(decide(q(u(100.0)), Some(q(u(5_000.0))), q(u(50.0)), true), Move::Raise { .. }));
    assert!(matches!(decide(q(u(0.0)), Some(q(u(10.0))), q(u(0.0)), true), Move::Raise { .. }));
}
#[test]
fn IT_NEVER_ZEROES_A_POSITION_WE_HOLD() {
    assert_eq!(
        decide(q(u(5_000.0)), Some(q(u(0.0))), q(u(320.0)), true),
        Move::Refused(Refusal::WouldZeroAHeldPosition)
    );
    assert_eq!(
        decide(q(u(5_000.0)), None, q(u(320.0)), true),
        Move::Refused(Refusal::WouldZeroAHeldPosition),
        "ABSENT and ZERO are the same claim and both are refused"
    );
    assert_eq!(
        decide(q(u(5_000.0)), Some(q(u(0.5))), q(u(320.0)), true),
        Move::Refused(Refusal::WouldZeroAHeldPosition)
    );
}
#[test]
fn an_INCOMPLETE_read_changes_NOTHING_in_either_direction() {
    assert_eq!(
        decide(q(u(0.0)), Some(q(u(9_000.0))), q(u(10.0)), false),
        Move::Refused(Refusal::IncompleteRead)
    );
    assert_eq!(
        decide(q(u(9_000.0)), Some(q(u(10.0))), q(u(10.0)), false),
        Move::Refused(Refusal::IncompleteRead)
    );
}
#[test]
fn IT_NEVER_SHRINKS_A_POSITION_WE_HOLD_not_just_never_zeroes_one() {
    assert_eq!(
        decide(q(u(9_000.0)), Some(q(u(20.0))), q(u(10.0)), true),
        Move::Refused(Refusal::WouldShrinkAHeldPosition)
    );
    assert_eq!(
        decide(q(u(9_000.0)), Some(q(u(1_000.0))), q(u(50.0)), true),
        Move::Refused(Refusal::WouldShrinkAHeldPosition),
        "even a modest shrink is the oversell direction while we hold it"
    );
}
#[test]
fn lowering_is_allowed_only_when_we_hold_NOTHING_to_mis_size() {
    assert_eq!(
        decide(q(u(9_000.0)), Some(q(u(1_000.0))), q(u(0.0)), true), Move::Lower { from : u(9_000.0), to :
        u(1_000.0) }
    );
}
#[test]
fn a_token_we_do_NOT_hold_may_go_to_zero_because_no_exit_can_be_mis_sized() {
    assert!(matches!(decide(q(u(5_000.0)), Some(q(u(0.0))), q(u(0.0)), true), Move::Lower { .. }));
}
#[test]
fn small_disagreements_are_left_alone() {
    assert_eq!(decide(q(u(1_000.0)), Some(q(u(1_002.0))), q(u(5.0)), true), Move::Agrees);
    assert_eq!(decide(q(u(0.0)), Some(q(u(0.0))), q(u(0.0)), true), Move::Agrees);
}
#[test]
fn a_NaN_from_either_side_is_refused_not_written() {
    assert_eq!(
        decide(Qty::NotFinite, Some(q(u(10.0))), q(u(0.0)), true), Move::Refused(Refusal::NotANumber)
    );
    assert_eq!(
        decide(q(u(10.0)), Some(Qty::NotFinite), q(u(0.0)), true), Move::Refused(Refusal::NotANumber)
    );
}
#[test]
fn plan_finds_tokens_the_MODEL_has_never_heard_of() {
    let (writes, r) = plan(
        &map(&[("A", u(100.0))]),
        &map(&[("A", u(100.0)), ("B", u(9_000.0))]),
        &map(&[("B", u(42.0))]),
        true,
    );
    assert_eq!(r.agreed, 1);
    assert_eq!(r.raised, 1);
    assert_eq!(r.disarmed_zeros, 1, "B was an armed frac=1.0 and is now disarmed");
    assert_eq!(writes, vec![("B".to_string(), u(9_000.0))]);
}
#[test]
fn plan_on_an_INCOMPLETE_read_writes_NOTHING() {
    let (writes, r) = plan(
        &map(&[("A", u(5_000.0))]),
        &map(&[]),
        &map(&[("A", u(10.0))]),
        false,
    );
    assert!(writes.is_empty());
    assert_eq!(r.refused, 1);
    assert_eq!(r.raised + r.lowered, 0);
}
