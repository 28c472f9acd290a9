//! Calls on the chain: matches, merges and splits.

use copybot_hot::calldata::{decode_all, decode_pending, participants, Price, MATCH_SELECTOR};
use copybot_hot::merge::{merge_calldata, BINARY_PARTITION, COLLATERAL_PUSD, USDC};
use copybot_hot::mergewatch::{
    decode_merges, decode_pair_actions, is_leader_safe, plan_response, route, PairKind,
};
use copybot_hot::split::{
    amount_units, inner_callee, multi_send_calldata, plan_calldata, split_calldata, BatchCall,
    MULTISEND, SPLIT_ADAPTER,
};
use copybot_hot::units::{Qty, Reading};

/// A number as millionths.
fn u(x: f64) -> i64 {
    (x * 1e6).round() as i64
}

fn word(v: u128) -> [u8; 32] {
    let mut w = [0u8; 32];
    w[16..].copy_from_slice(&v.to_be_bytes());
    w
}

fn account(b: u8) -> [u8; 32] {
    let mut w = [b; 32];
    w[..12].fill(0);
    w
}

/// An order: salt, maker, signer, token, what the maker gives and takes, and its side.
fn order(salt: u128, maker: u8, gives: u128, takes: u128, side: u128) -> Vec<u8> {
    [
        word(salt), account(maker), account(maker), word(1_234_567), word(gives), word(takes),
        word(side),
    ]
    .concat()
}

/// A match of a taker's order with one maker's.
fn matched(taker: &[u8], maker: &[u8], taker_fill: u128, maker_fill: u128) -> Vec<u8> {
    let head: u128 = 7 * 32;
    let makers = head + taker.len() as u128;
    let fills = makers + 64 + maker.len() as u128;
    let mut out = MATCH_SELECTOR.to_vec();
    out.extend([0x77u8; 32]);
    for v in [head, makers, taker_fill, fills, 0, 0] {
        out.extend(word(v));
    }
    out.extend(taker);
    out.extend(word(1));
    out.extend(word(32));
    out.extend(maker);
    out.extend(word(1));
    out.extend(word(maker_fill));
    out
}

#[test]
fn a_match_is_read_for_either_side() {
    let taker = order(5, 0xaa, 4_000_000, 10_000_000, 0);
    let maker = order(6, 0xbb, 10_000_000, 4_000_000, 1);
    let data = matched(&taker, &maker, 4_000_000, 10_000_000);
    assert_eq!(participants(&data), vec![[0xaa; 20], [0xbb; 20]]);
    let m = decode_all(&data, &[0xbb; 20]);
    assert_eq!(m.len(), 1);
    let price = Price { num: 4_000_000, den: 10_000_000 };
    assert_eq!((m[0].token_id.as_str(), m[0].side, m[0].price), ("1234567", 1, price));
    assert_eq!((m[0].order_size, m[0].fill_size), (10_000_000, 10_000_000));
    assert_eq!((m[0].role, m[0].occurrence, m[0].condition_id), ("maker", 0, [0x77; 32]));
    let t = decode_pending(&data, &[0xaa; 20]).unwrap();
    assert_eq!((t.role, t.occurrence, t.side, t.price), ("taker", u16::MAX, 0, price));
    assert_eq!(t.fill_size, 10_000_000);
    assert!(decode_all(&data, &[0xcc; 20]).is_empty());
}

#[test]
fn a_price_below_a_millionth_is_still_a_price() {
    let taker = order(5, 0xaa, 10_000_000, 1, 1);
    let maker = order(6, 0xbb, 1, 10_000_000, 0);
    let data = matched(&taker, &maker, 10_000_000, 1);
    let m = decode_all(&data, &[0xbb; 20]);
    assert_eq!(m.len(), 1);
    assert_eq!(m[0].price, Price { num: 1, den: 10_000_000 });
    assert_eq!((m[0].side, m[0].fill_size), (0, 10_000_000));
}

#[test]
fn a_call_that_is_no_match_says_nothing() {
    let taker = order(5, 0xaa, 4_000_000, 10_000_000, 0);
    let data = matched(&taker, &taker, 4_000_000, 4_000_000);
    assert!(decode_pending(&data[..100], &[0xaa; 20]).is_none());
    let mut other = data.clone();
    other[0] ^= 1;
    assert!(decode_all(&other, &[0xaa; 20]).is_empty() && participants(&other).is_empty());
    let unsalted = order(0, 0xaa, 4_000_000, 10_000_000, 0);
    let dear = order(5, 0xaa, 10_000_000, 4_000_000, 0);
    for bad in [unsalted, dear] {
        let data = matched(&bad, &bad, 4_000_000, 4_000_000);
        assert!(decode_all(&data, &[0xaa; 20]).is_empty());
    }
}

#[test]
fn a_merge_that_is_written_reads_back() {
    let data = merge_calldata(&USDC, &[0x11; 32], &BINARY_PARTITION, 5_000_000);
    let m = decode_merges(&data);
    assert_eq!(m.len(), 1);
    assert_eq!((m[0].kind, m[0].shares, m[0].sized), (PairKind::Merge, u(5.0), true));
    assert_eq!((m[0].condition_id.as_str(), m[0].collateral), ("11".repeat(32).as_str(), USDC));
}

#[test]
fn a_batch_of_splits_reads_back_whole() {
    let ids = [[0x11u8; 32], [0x22; 32], [0x33; 32]];
    let data = plan_calldata(&ids, &COLLATERAL_PUSD, &BINARY_PARTITION, 200_000_000);
    assert_eq!((data.len() - 4) % 32, 0);
    let s = decode_pair_actions(&data);
    assert_eq!(s.len(), 3);
    assert!(s.iter().all(|x| x.kind == PairKind::Split && x.shares == u(200.0) && x.sized));
    let read: Vec<&str> = s.iter().map(|x| x.condition_id.as_str()).collect();
    assert_eq!(read, ["11".repeat(32), "22".repeat(32), "33".repeat(32)]);
    assert!(s.iter().all(|x| x.collateral == COLLATERAL_PUSD));
    assert!(decode_merges(&data).is_empty());
    assert_eq!(inner_callee(3), MULTISEND);
    let one = plan_calldata(&ids[..1], &COLLATERAL_PUSD, &BINARY_PARTITION, 1);
    assert_eq!(one, split_calldata(&COLLATERAL_PUSD, &ids[0], &BINARY_PARTITION, 1));
    assert_eq!(inner_callee(1), SPLIT_ADAPTER);
    assert_eq!(hex::encode(&one[..4]), "72ce4275");
    let empty = multi_send_calldata(&[BatchCall { to: MULTISEND, data: vec![] }]);
    assert_eq!(hex::encode(&empty[..4]), "8d80ff0a");
}

#[test]
fn an_amount_to_split_is_at_least_one_unit() {
    assert_eq!(amount_units(Reading::Finite(200_000_000_000_000)), Ok(200_000_000));
    assert_eq!(amount_units(Reading::Finite(1_999_999)), Ok(1));
    assert_eq!(amount_units(Reading::Finite(999_999)), Err("split amount rounds to zero".to_string()));
    assert!(amount_units(Reading::Finite(0)).unwrap_err().starts_with("refusing to split"));
    assert!(amount_units(Reading::Finite(-5)).unwrap_err().starts_with("refusing to split"));
    for (x, name) in [
        (Reading::NotANumber, "NaN"), (Reading::Infinite, "inf"), (Reading::MinusInfinite, "-inf"),
    ] {
        let e = amount_units(x).unwrap_err();
        assert!(e.starts_with("refusing to split") && e.contains(name), "{e}");
    }
}

#[test]
fn a_call_is_routed_to_the_first_lane_of_its_leader() {
    let data = merge_calldata(&USDC, &[0x11; 32], &BINARY_PARTITION, 5_000_000);
    let to = format!("0x{}", "AB".repeat(20));
    assert!(is_leader_safe(&to, &[0xab; 20]) && !is_leader_safe(&to, &[0xac; 20]));
    let lanes = [(3usize, [0xabu8; 20]), (4, [0xac; 20]), (5, [0xab; 20])];
    let r = route(&to, &data, &lanes);
    assert_eq!(r.iter().map(|x| x.0).collect::<Vec<_>>(), vec![3]);
}

#[test]
fn a_merge_of_the_leader_is_answered_in_proportion() {
    let half = Qty::Finite(u(0.5));
    let r = plan_response(u(30.0), u(20.0), "A", "B", u(50.0), half).unwrap();
    assert_eq!(r.merge_pairs, u(20.0));
    assert_eq!(r.flatten, Some(("A".to_string(), u(10.0))));
    let lone = plan_response(u(30.0), 0, "A", "B", u(50.0), half).unwrap();
    assert_eq!((lone.merge_pairs, lone.flatten), (0, Some(("A".to_string(), u(25.0)))));
    assert!(plan_response(0, 0, "A", "B", u(50.0), half).is_none());
    assert!(plan_response(u(1.0), u(1.0), "A", "B", 0, half).is_none());
    assert!(plan_response(u(1.0), u(1.0), "A", "B", u(1.0), Qty::NotFinite).is_none());
}
