//! The name of a lane that follows its leader.

use copybot_hot::laneid::{check, is_valid, mint, Check};

#[test]
fn a_leader_has_one_name_whatever_its_case() {
    let id = mint("0x5B1E10F3");
    assert_eq!(id, "L-64d21e64c92a");
    assert_eq!(mint("  0x5b1e10f3 "), id);
    assert_eq!(mint("5b1e10f3"), id);
    assert!(is_valid(&id));
    assert_ne!(mint("0x5b1e10f4"), id);
}

#[test]
fn a_leader_without_digits_still_has_a_name() {
    assert_eq!(mint(""), "L-9ce484222325");
    assert!(is_valid(&mint("")));
}

#[test]
fn what_is_no_name_is_told_apart() {
    for bad in ["", "L-", "L-64d21e64c92", "L-64D21E64C92A", "l-64d21e64c92a", "L-64d21e64c92g"] {
        assert!(!is_valid(bad), "{bad}");
    }
}

#[test]
fn a_stored_name_is_held_against_the_leader() {
    assert_eq!(check(None, "0x5b1e10f3"), Check::Mint("L-64d21e64c92a".into()));
    assert_eq!(check(Some(""), "0x5b1e10f3"), Check::Mint("L-64d21e64c92a".into()));
    assert_eq!(check(Some("L-64d21e64c92a"), "0x5b1e10f3"), Check::Agrees);
    assert_eq!(
        check(Some("L-000000000000"), "0x5b1e10f3"),
        Check::Conflict { stored: "L-000000000000".into(), expected: "L-64d21e64c92a".into() }
    );
    assert_eq!(check(Some("lane one"), "0x5b1e10f3"), Check::Malformed("lane one".into()));
}
