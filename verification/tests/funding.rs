//! Money paid in and out.

use copybot_hot::funding::{physical_pnl, Funding};
use copybot_hot::json::line_of;
use copybot_hot::ledger::{Append, LedgerFile};
use copybot_hot::units::Reading;

/// A number as millionths.
fn u(x: f64) -> i64 {
    (x * 1e6).round() as i64
}

/// An amount as millionths.
fn m(x: f64) -> i128 {
    i128::from(u(x))
}

#[test]
fn ALLOCATION_changes_can_never_move_the_pnl() {
    let mut f = Funding::open(&LedgerFile::Missing);
    f.record(Reading::Finite(u(40_000.0)), "initial + top-up", 1_000, Append::Done).unwrap();
    let before = physical_pnl(Some(m(40_305.09)), f.basis());
    let after = physical_pnl(Some(m(40_305.09)), f.basis());
    assert_eq!(before, after);
    assert_eq!(after, Some(m(305.09)), "the honest number, not +$10,305");
}
#[test]
fn a_DEPOSIT_is_not_profit() {
    let mut f = Funding::open(&LedgerFile::Missing);
    f.record(Reading::Finite(u(20_000.0)), "seed", 1_000, Append::Done).unwrap();
    assert_eq!(physical_pnl(Some(m(20_300.47)), f.basis()), Some(m(300.47)));
    f.record(Reading::Finite(u(20_000.0)), "second deposit", 2_000, Append::Done).unwrap();
    assert_eq!(
        physical_pnl(Some(m(40_300.47)), f.basis()), Some(m(300.47)),
        "a deposit moves equity AND basis, so profit is untouched"
    );
}
#[test]
fn a_WITHDRAWAL_is_not_a_loss() {
    let mut f = Funding::open(&LedgerFile::Missing);
    f.record(Reading::Finite(u(40_000.0)), "in", 1_000, Append::Done).unwrap();
    f.record(Reading::Finite(u(-5_000.0)), "out", 2_000, Append::Done).unwrap();
    assert_eq!(f.basis(), Some(m(35_000.0)));
    assert_eq!(physical_pnl(Some(m(35_305.09)), f.basis()), Some(m(305.09)));
}
#[test]
fn an_UNDECLARED_basis_yields_UNKNOWN_not_zero() {
    let f = Funding::open(&LedgerFile::Missing);
    assert_eq!(f.basis(), None);
    assert_eq!(physical_pnl(Some(m(40_305.09)), f.basis()), None);
    assert_eq!(physical_pnl(None, Some(m(40_000.0))), None);
}
#[test]
fn movements_SURVIVE_a_restart() {
    let mut p = String::new();
    {
        let mut f = Funding::open(&LedgerFile::Missing);
        f.record(Reading::Finite(u(20_000.0)), "one", 1_000, Append::Done).unwrap();
        f.record(Reading::Finite(u(20_000.0)), "two", 2_000, Append::Done).unwrap();
        for m in f.movements() {
            p.push_str(&line_of(&m.row()));
            p.push('\n');
        }
    }
    let f = Funding::open(&LedgerFile::Text(p));
    assert_eq!(f.basis(), Some(m(40_000.0)));
    assert_eq!(f.movements().len(), 2);
}
#[test]
fn a_zero_or_nonfinite_movement_is_refused() {
    let mut f = Funding::open(&LedgerFile::Missing);
    assert!(f.record(Reading::Finite(u(0.0)), "nothing", 1, Append::Done).is_err());
    assert!(f.record(Reading::NotANumber, "nan", 1, Append::Done).is_err());
    assert_eq!(f.basis(), None, "a refused movement records nothing");
}

#[test]
fn a_refusal_names_the_amount() {
    let mut f = Funding::open(&LedgerFile::Missing);
    for (usd, name) in [
        (Reading::Infinite, "inf"), (Reading::MinusInfinite, "-inf"), (Reading::NotANumber, "NaN"),
    ] {
        let e = f.record(usd, "x", 1, Append::Done).unwrap_err();
        assert!(e.contains(name), "{e}");
    }
}

#[test]
fn a_payment_is_read_from_a_list_of_its_parts() {
    let raw = "[1000,40.5,\"in\"]\n[2000,1]\n[3000,1,\"x\",0]\n[4000]\n";
    let f = Funding::open(&LedgerFile::Text(raw.to_string()));
    assert_eq!(f.movements().len(), 2, "a note may be missing, and nothing may be left over");
    assert_eq!(f.basis(), Some(m(41.5)));
    assert_eq!(f.movements()[0].note, "in");
}

#[test]
fn a_payment_given_twice_or_framed_is_passed_over() {
    let read = |raw: &str| Funding::open(&LedgerFile::Text(raw.to_string())).movements().len();
    assert_eq!(read("{\"t\":1,\"usd\":5}"), 1);
    assert_eq!(read("{\"t\":1,\"usd\":5,\"usd\":6}"), 0);
    assert_eq!(read("\u{a0}{\"t\":1,\"usd\":5}"), 0);
}
