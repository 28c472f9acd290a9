//! Merging complementary tokens.

use copybot_hot::merge::{
    condition_id_bytes, find_orphans, merge_adapter_for, merge_calldata, plan_reconciliation,
    Orphan, ReconAction, BINARY_PARTITION, COLLATERAL_PUSD, CTF, MERGE_ADAPTER_BINARY,
    MERGE_ADAPTER_NEGRISK, USDC,
};
use copybot_hot::table::Table;

/// A number as millionths.
fn u(x: f64) -> i64 {
    (x * 1e6).round() as i64
}

fn orphan(a: i64, b: i64) -> Orphan {
    Orphan {
        condition_id: "C".into(),
        token_a: "Y".into(),
        token_b: "N".into(),
        shares_a: a,
        shares_b: b,
    }
}
#[test]
fn a_MULTI_OUTCOME_market_is_never_merged_as_binary() {
    let held = vec![("A".to_string(), u(100.0)), ("B".to_string(), u(100.0))];
    let mut map = Table::new();
    map.insert("A".to_string(), "C1".to_string());
    map.insert("B".to_string(), "C1".to_string());
    assert!(
        find_orphans(& held, & map, | _ | true, | _ | Some(5)).is_empty(),
        "a 5-outcome market must never be treated as a binary pair"
    );
    assert_eq!(
        find_orphans(& held, & map, | _ | true, | _ | Some(2)).len(), 1,
        "a genuinely binary market still merges"
    );
}
#[test]
fn an_UNKNOWN_outcome_count_fails_CLOSED() {
    let held = vec![("A".to_string(), u(100.0)), ("B".to_string(), u(100.0))];
    let mut map = Table::new();
    map.insert("A".to_string(), "C1".to_string());
    map.insert("B".to_string(), "C1".to_string());
    assert!(find_orphans(& held, & map, | _ | true, | _ | None).is_empty());
}
#[test]
fn merge_disabled_gets_flat_by_selling_both_legs() {
    let acts = plan_reconciliation(&[orphan(u(100.0), u(60.0))], false);
    assert_eq!(
        acts, vec![ReconAction::SellBoth { yes_token : "Y".into(), no_token : "N"
        .into(), shares_a : u(100.0), shares_b : u(60.0) }]
    );
}
#[test]
fn merge_enabled_merges_the_min_and_sells_the_residual() {
    let acts = plan_reconciliation(&[orphan(u(100.0), u(60.0))], true);
    assert_eq!(
        acts, vec![ReconAction::MergeThenSellResidual { condition_id : "C".into(),
        yes_token : "Y".into(), no_token : "N".into(), amount : u(60.0), residual :
        Some(("Y".into(), i128::from(u(40.0)))) }]
    );
}
#[test]
fn merge_enabled_equal_legs_has_no_residual_sell() {
    let acts = plan_reconciliation(&[orphan(u(50.0), u(50.0))], true);
    match &acts[0] {
        ReconAction::MergeThenSellResidual { amount, residual, .. } => {
            assert!(*amount == u(50.0));
            assert!(residual.is_none(), "equal legs merge clean, nothing to sell");
        }
        _ => panic!("expected a merge action"),
    }
}
fn condmap(pairs: &[(&str, &str)]) -> Table<String, String> {
    let mut t = Table::new();
    for (k, v) in pairs {
        t.insert(k.to_string(), v.to_string());
    }
    t
}
#[test]
fn find_orphans_flags_both_sides_only_when_the_leader_is_flat() {
    let map = condmap(&[("YES", "C1"), ("NO", "C1"), ("Z", "C2")]);
    let held = vec![
        ("YES".to_string(), u(100.0)), ("NO".to_string(), u(60.0)), ("Z".to_string(), u(40.0))
    ];
    let o = find_orphans(&held, &map, |c| c == "C1", |_| Some(2));
    assert_eq!(o.len(), 1);
    assert_eq!(o[0].condition_id, "C1");
    assert!(o[0].mergeable() == u(60.0));
    let (tok, resid) = o[0].residual().unwrap();
    assert_eq!(tok, "YES");
    assert!(resid == i128::from(u(40.0)), "40 YES to sell after merging 60");
}
#[test]
fn a_both_sides_position_the_leader_STILL_holds_is_left_alone() {
    let map = condmap(&[("YES", "C1"), ("NO", "C1")]);
    let held = vec![("YES".to_string(), u(100.0)), ("NO".to_string(), u(100.0))];
    assert!(
        find_orphans(& held, & map, | _ | false, | _ | Some(2)).is_empty(),
        "leader not flat → do not touch the pair"
    );
}
#[test]
fn a_three_outcome_negrisk_condition_is_never_binary_merged() {
    let map = condmap(&[("A", "C"), ("B", "C"), ("D", "C")]);
    let held = vec![("A".into(), u(10.0)), ("B".into(), u(10.0)), ("D".into(), u(10.0))];
    assert!(
        find_orphans(& held, & map, | _ | true, | _ | Some(2)).is_empty(),
        "3 held outcomes is negRisk — a binary merge would be wrong"
    );
}
#[test]
fn equal_legs_have_no_residual_to_sell() {
    let o = Orphan {
        condition_id: "C".into(),
        token_a: "Y".into(),
        token_b: "N".into(),
        shares_a: u(50.0),
        shares_b: u(50.0),
    };
    assert!(o.mergeable() == u(50.0));
    assert!(o.residual().is_none());
}
#[test]
fn the_selector_is_the_real_mergePositions_selector() {
    let data = merge_calldata(&USDC, &[0x11u8; 32], &BINARY_PARTITION, 5_000_000);
    assert_eq!(hex::encode(&data[..4]), "9e7212ad");
}
#[test]
fn calldata_has_the_right_shape_and_values() {
    let cid = [0x11u8; 32];
    let data = merge_calldata(&USDC, &cid, &BINARY_PARTITION, 5_000_000);
    assert_eq!(data.len(), 4 + 32 * 8);
    assert_eq!(& data[4 + 12..4 + 32], & USDC[..]);
    assert_eq!(& data[4 + 64..4 + 96], & cid[..]);
    assert_eq!(data[4 + 96 + 31], 160);
    let amt = &data[4 + 128..4 + 160];
    assert_eq!(u128::from_be_bytes(amt[16..].try_into().unwrap()), 5_000_000);
    assert_eq!(data[4 + 160 + 31], 2);
    assert_eq!(data[4 + 192 + 31], 1);
    assert_eq!(data[4 + 224 + 31], 2);
}
#[test]
fn condition_id_parsing_rejects_the_wrong_length() {
    assert!(condition_id_bytes("0x1234").is_none());
    assert_eq!(
        condition_id_bytes(& format!("0x{}", "aa".repeat(32))).unwrap(), [0xaa; 32]
    );
}
#[test]
fn known_addresses_decode() {
    assert_eq!(hex::encode(CTF), "4d97dcd97ec945f40cf65f87097ace5ea0476045");
    assert_eq!(hex::encode(USDC), "2791bca1f2de4661ed88a30c99a7a9449aa84174");
}

#[test]
fn a_market_of_many_outcomes_has_an_adapter_of_its_own() {
    assert_eq!(merge_adapter_for(true), MERGE_ADAPTER_NEGRISK);
    assert_eq!(merge_adapter_for(false), MERGE_ADAPTER_BINARY);
    assert_ne!(MERGE_ADAPTER_BINARY, MERGE_ADAPTER_NEGRISK);
    assert_ne!(COLLATERAL_PUSD, USDC);
}
