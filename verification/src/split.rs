//! Splitting collateral into complementary tokens: the call, alone or in a batch.

use vstd::prelude::*;
use crate::merge;
use crate::text;
use crate::text::{owned, push_bytes};
use crate::units::Reading;
use crate::words;
use crate::words::word_u128;

verus! {

/// The adapter that splits.
pub const SPLIT_ADAPTER: [u8; 20] = [
    0xad,
    0xa1,
    0x00,
    0x87,
    0x4d,
    0x00,
    0xe3,
    0x33,
    0x1d,
    0x00,
    0xf2,
    0x00,
    0x7a,
    0x9c,
    0x33,
    0x6a,
    0x65,
    0x00,
    0x97,
    0x18,
];

/// The contract that sends a batch of calls.
pub const MULTISEND: [u8; 20] = [
    0xa2,
    0x38,
    0xcb,
    0xeb,
    0x14,
    0x2c,
    0x10,
    0xef,
    0x7a,
    0xd8,
    0x44,
    0x2c,
    0x6d,
    0x1f,
    0x9e,
    0x89,
    0xe0,
    0x7e,
    0x77,
    0x61,
];

/// Units of the collateral in one share.
pub const UNITS_PER_SHARE: i64 = 1_000_000;

/// How many pairs the leader splits at a time, in millionths.
pub const HIS_PAIRS: i64 = 200_000_000;

/// The call that splits.
pub open spec fn split_call(
    collateral: Seq<u8>,
    condition_id: Seq<u8>,
    partition: Seq<u64>,
    amount_units: int,
) -> Seq<u8> {
    merge::pair_call(
        merge::selector("splitPosition(address,bytes32,bytes32,uint256[],uint256)"@),
        collateral,
        condition_id,
        partition,
        amount_units,
    )
}

/// The call that splits; see [`split_call`].
pub fn split_calldata(
    collateral: &[u8; 20],
    condition_id: &[u8; 32],
    partition: &[u64],
    amount_units: u128,
) -> (r: Vec<u8>)
    ensures
        r@ == split_call(collateral@, condition_id@, partition@, amount_units as int),
        merge::selector("splitPosition(address,bytes32,bytes32,uint256[],uint256)"@).len() == 4,
{
    merge::write_pair_call(
        "splitPosition(address,bytes32,bytes32,uint256[],uint256)",
        collateral,
        condition_id,
        partition,
        amount_units,
    )
}

/// The units of collateral that so many pairs take, where they take any.
pub open spec fn units_of(pairs: int) -> Option<int> {
    if pairs < UNITS_PER_SHARE {
        None
    } else {
        Some(pairs / (UNITS_PER_SHARE as int))
    }
}

/// The units of an amount of pairs, which is given in units of twelve places, or not
/// at all where it is no finite number. Part of a unit is dropped; what is not positive,
/// or less than a unit, is refused.
pub fn amount_units(pairs: Reading<i128>) -> (r: Result<u128, String>)
    ensures
        match pairs {
            Reading::Finite(p) => if p <= 0 {
                r matches Err(e) && e@ == "refusing to split "@ + text::plain(p as int, 12)
                    + " pairs"@
            } else if p < UNITS_PER_SHARE {
                r matches Err(e) && e@ == "split amount rounds to zero"@
            } else {
                r matches Ok(u) && u == p / (UNITS_PER_SHARE as i128)
            },
            _ => r matches Err(e) && e@ == "refusing to split "@ + pairs.word() + " pairs"@,
        },
        match (pairs, r) {
            (Reading::Finite(p), Ok(u)) => units_of(p as int) == Some(u as int),
            (Reading::Finite(p), Err(_)) => units_of(p as int) is None,
            (_, Ok(_)) => false,
            _ => true,
        },
{
    match pairs {
        Reading::Finite(p) => {
            if p <= 0 {
                let mut e = owned("refusing to split ");
                e.append(text::show_plain(p, 12).as_str());
                e.append(" pairs");
                return Err(e);
            }
            let units: i128 = p / 1_000_000;
            if units < 1 {
                return Err(owned("split amount rounds to zero"));
            }
            Ok(units as u128)
        },
        _ => {
            let mut e = owned("refusing to split ");
            e.append(pairs.name());
            e.append(" pairs");
            Err(e)
        },
    }
}

/// One call of a batch.
#[derive(Debug, PartialEq, Eq)]
pub struct BatchCall {
    pub to: [u8; 20],
    pub data: Vec<u8>,
}

/// One call as a batch holds it: a plain call, where to, no value, how long, and what.
pub open spec fn packed_call(to: Seq<u8>, data: Seq<u8>) -> Seq<u8> {
    seq![0u8] + to + Seq::new(32, |i: int| 0u8) + words::word_of(data.len() as int) + data
}

/// These calls as a batch holds them.
pub open spec fn packed(calls: Seq<(Seq<u8>, Seq<u8>)>) -> Seq<u8>
    decreases calls.len(),
{
    if calls.len() == 0 {
        Seq::empty()
    } else {
        packed(calls.drop_last()) + packed_call(calls.last().0, calls.last().1)
    }
}

/// The zeros that bring a length to whole words.
pub open spec fn padding(len: int) -> Seq<u8> {
    Seq::new(((32 - len % 32) % 32) as nat, |i: int| 0u8)
}

/// The call that sends a batch.
pub open spec fn batch(calls: Seq<(Seq<u8>, Seq<u8>)>) -> Seq<u8> {
    let p = packed(calls);
    merge::selector("multiSend(bytes)"@) + words::word_of(32) + words::word_of(p.len() as int) + p
        + padding(p.len() as int)
}

/// What these calls say.
pub open spec fn call_views(calls: Seq<BatchCall>) -> Seq<(Seq<u8>, Seq<u8>)> {
    calls.map_values(|c: BatchCall| (c.to@, c.data@))
}

/// The call that sends a batch; see [`batch`].
pub fn multi_send_calldata(calls: &[BatchCall]) -> (r: Vec<u8>)
    ensures
        r@ == batch(call_views(calls@)),
        merge::selector("multiSend(bytes)"@).len() == 4,
{
    let ghost all = call_views(calls@);
    let mut p: Vec<u8> = Vec::new();
    for i in 0..calls.len()
        invariant
            all == call_views(calls@),
            p@ == packed(all.take(i as int)),
    {
        assert(all.take(i + 1).drop_last() =~= all.take(i as int));
        let ghost before = p@;
        let c = &calls[i];
        p.push(0u8);
        push_bytes(&mut p, &c.to);
        let none = [0u8; 32];
        assert(none@ =~= Seq::new(32, |i: int| 0u8));
        push_bytes(&mut p, &none);
        push_bytes(&mut p, &word_u128(c.data.len() as u128));
        push_bytes(&mut p, c.data.as_slice());
        assert(p@ =~= before + packed_call(c.to@, c.data@));
    }
    assert(all.take(all.len() as int) =~= all);
    let mut out = merge::selector_of("multiSend(bytes)");
    push_bytes(&mut out, &word_u128(32));
    push_bytes(&mut out, &word_u128(p.len() as u128));
    push_bytes(&mut out, p.as_slice());
    let rem = p.len() % 32;
    if rem != 0 {
        text::push_fill(&mut out, 0u8, 32 - rem);
        assert(padding(p@.len() as int) =~= Seq::new((32 - rem) as nat, |k: int| 0u8));
    } else {
        assert(padding(p@.len() as int) =~= Seq::<u8>::empty());
        assert(out@ =~= out@ + padding(p@.len() as int));
    }
    out
}

/// The splits of these markets, as calls of the adapter.
pub open spec fn splits(
    condition_ids: Seq<[u8; 32]>,
    collateral: Seq<u8>,
    partition: Seq<u64>,
    amount_units: int,
) -> Seq<(Seq<u8>, Seq<u8>)> {
    condition_ids.map_values(
        |c: [u8; 32]| (SPLIT_ADAPTER@, split_call(collateral, c@, partition, amount_units)),
    )
}

/// The calldata that splits in all of these markets: the split itself for one, else a
/// batch.
pub open spec fn plan(
    condition_ids: Seq<[u8; 32]>,
    collateral: Seq<u8>,
    partition: Seq<u64>,
    amount_units: int,
) -> Seq<u8> {
    if condition_ids.len() == 1 {
        split_call(collateral, condition_ids[0]@, partition, amount_units)
    } else {
        batch(splits(condition_ids, collateral, partition, amount_units))
    }
}

/// The calldata that splits in all of these markets; see [`plan`].
pub fn plan_calldata(
    condition_ids: &[[u8; 32]],
    collateral: &[u8; 20],
    partition: &[u64],
    amount_units: u128,
) -> (r: Vec<u8>)
    ensures
        r@ == plan(condition_ids@, collateral@, partition@, amount_units as int),
        condition_ids@.len() > 0 ==> merge::selector("splitPosition(address,bytes32,bytes32,uint256[],uint256)"@).len() == 4,
        condition_ids@.len() != 1 ==> merge::selector("multiSend(bytes)"@).len() == 4,
{
    if condition_ids.len() == 1 {
        return split_calldata(collateral, &condition_ids[0], partition, amount_units);
    }
    let mut calls: Vec<BatchCall> = Vec::new();
    let ghost all = splits(condition_ids@, collateral@, partition@, amount_units as int);
    for i in 0..condition_ids.len()
        invariant
            all == splits(condition_ids@, collateral@, partition@, amount_units as int),
            call_views(calls@) == all.take(i as int),
            i > 0 ==> merge::selector("splitPosition(address,bytes32,bytes32,uint256[],uint256)"@).len() == 4,
    {
        let ghost before = call_views(calls@);
        let c = BatchCall {
            to: SPLIT_ADAPTER,
            data: split_calldata(collateral, &condition_ids[i], partition, amount_units),
        };
        assert((c.to@, c.data@) == all[i as int]);
        calls.push(c);
        assert(call_views(calls@) =~= before.push(all[i as int]));
        assert(before.push(all[i as int]) =~= all.take(i + 1));
    }
    assert(all.take(all.len() as int) =~= all);
    multi_send_calldata(calls.as_slice())
}

/// Whom a split of so many markets is sent to.
pub fn inner_callee(n: usize) -> (r: [u8; 20])
    ensures
        r@ == (if n == 1 {
            SPLIT_ADAPTER@
        } else {
            MULTISEND@
        }),
{
    if n == 1 {
        SPLIT_ADAPTER
    } else {
        MULTISEND
    }
}

/// A batch ends on a whole word after its selector.
pub proof fn batch_is_whole_words(calls: Seq<(Seq<u8>, Seq<u8>)>)
    requires
        packed(calls).len() <= u128::MAX,
    ensures
        (batch(calls).len() - merge::selector("multiSend(bytes)"@).len()) % 32 == 0,
{
    let p = packed(calls);
    words::word_reads_back(32);
    words::word_reads_back(p.len() as u128);
}

} // verus!
