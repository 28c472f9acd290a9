//! What we send to split collateral is what we would read it as.

use vstd::prelude::*;
use crate::merge;
use crate::merge::BINARY_PARTITION;
use crate::mergewatch;
use crate::mergewatch::{
    MergeView, PairKind, MAX_BATCH_CALLS, MAX_MERGE_SHARES, MERGE_SELECTOR, MULTISEND_SELECTOR,
    NEG_RISK_MERGE_SELECTOR, NEG_RISK_SPLIT_SELECTOR, SPLIT_SELECTOR,
};
use crate::split;
use crate::split::SPLIT_ADAPTER;
use crate::text;
use crate::words;

verus! {

/// A split of a market into its two outcomes, as it is written.
pub open spec fn one_split(collateral: Seq<u8>, condition_id: Seq<u8>, amount: int) -> Seq<u8> {
    merge::pair_call(SPLIT_SELECTOR@, collateral, condition_id, BINARY_PARTITION@, amount)
}

/// A split of a market, as it is read.
pub open spec fn split_seen(collateral: Seq<u8>, condition_id: Seq<u8>, amount: int) -> MergeView {
    MergeView {
        kind: PairKind::Split,
        condition_id: text::hex_of(condition_id),
        shares: amount,
        collateral,
        sized: true,
    }
}

/// The splits of these markets, as they are read.
pub open spec fn splits_seen(
    condition_ids: Seq<[u8; 32]>,
    collateral: Seq<u8>,
    amount: int,
) -> Seq<MergeView> {
    condition_ids.map_values(|c: [u8; 32]| split_seen(collateral, c@, amount))
}

/// Whether a selector begins with this byte.
spec fn loud(x: u8) -> bool {
    x == 0x9e || x == 0x72 || x == 0xa3 || x == 0xb1
}

/// Whether no action can begin at `i`: no selector begins there, or a zero follows, which
/// stands second in none.
spec fn quiet(b: Seq<u8>, i: int) -> bool {
    !loud(b[i]) || (i + 1 < b.len() && b[i + 1] == 0)
}

proof fn quiet_is_no_action(b: Seq<u8>, i: int)
    requires
        0 <= i < b.len(),
        quiet(b, i),
    ensures
        mergewatch::action_at(b, i) is None,
{
    if i + 4 <= b.len() {
        let s = b.subrange(i, i + 4);
        assert(s[0] == b[i] && s[1] == b[i + 1]);
        assert(NEG_RISK_SPLIT_SELECTOR@[0] == 0xa3 && NEG_RISK_SPLIT_SELECTOR@[1] == 0xd7);
        assert(NEG_RISK_MERGE_SELECTOR@[0] == 0xb1 && NEG_RISK_MERGE_SELECTOR@[1] == 0x0c);
        assert(MERGE_SELECTOR@[0] == 0x9e && MERGE_SELECTOR@[1] == 0x72);
        assert(SPLIT_SELECTOR@[0] == 0x72 && SPLIT_SELECTOR@[1] == 0xce);
    }
}

proof fn skip_quiet(b: Seq<u8>, i: int, j: int, room: int)
    requires
        0 <= i <= j <= b.len(),
        forall|k: int| i <= k < j ==> quiet(b, k),
    ensures
        mergewatch::actions_from(b, i, room) == mergewatch::actions_from(b, j, room),
    decreases j - i,
{
    if i < j {
        quiet_is_no_action(b, i);
        skip_quiet(b, i + 1, j, room);
    }
}

proof fn part_of(b: Seq<u8>, d: int, c: Seq<u8>, x: int, y: int)
    requires
        0 <= d,
        d + c.len() <= b.len(),
        b.subrange(d, d + c.len()) == c,
        0 <= x <= y <= c.len(),
    ensures
        b.subrange(d + x, d + y) == c.subrange(x, y),
{
    assert(b.subrange(d + x, d + y) =~= b.subrange(d, d + c.len()).subrange(x, y));
}

proof fn split_bytes(collateral: Seq<u8>, condition_id: Seq<u8>, amount: u128)
    requires
        collateral.len() == 20,
        condition_id.len() == 32,
    ensures
        one_split(collateral, condition_id, amount as int).len() == 260,
        forall|i: int|
            164 <= i < 260 ==> !loud(
                #[trigger] one_split(collateral, condition_id, amount as int)[i],
            ),
{
    let c = one_split(collateral, condition_id, amount as int);
    words::word_reads_back(160);
    words::word_reads_back(amount);
    words::small_word(1);
    words::small_word(2);
    let p = BINARY_PARTITION@;
    assert(p =~= seq![1u64, 2u64]);
    reveal_with_fuel(merge::as_words, 3);
    assert(p.drop_last() =~= seq![1u64]);
    assert(p.drop_last().drop_last() =~= Seq::<u64>::empty());
    let tail = words::word_of(2) + words::word_of(1) + words::word_of(2);
    assert(merge::as_words(p) =~= words::word_of(1) + words::word_of(2));
    assert forall|i: int| 164 <= i < 260 implies !loud(#[trigger] c[i]) by {
        assert(c[i] == tail[i - 164]);
    }
}

proof fn split_is_seen(
    b: Seq<u8>,
    d: int,
    collateral: Seq<u8>,
    condition_id: Seq<u8>,
    amount: u128,
)
    requires
        collateral.len() == 20,
        condition_id.len() == 32,
        !words::is_zero(condition_id),
        0 < amount <= MAX_MERGE_SHARES,
        0 <= d,
        d + 260 <= b.len(),
        b.subrange(d, d + 260) == one_split(collateral, condition_id, amount as int),
    ensures
        mergewatch::action_at(b, d) == Some(
            (split_seen(collateral, condition_id, amount as int), 164int),
        ),
{
    let c = one_split(collateral, condition_id, amount as int);
    split_bytes(collateral, condition_id, amount);
    merge::call_words(SPLIT_SELECTOR@, collateral, condition_id, BINARY_PARTITION@, amount);
    part_of(b, d, c, 0, 4);
    part_of(b, d, c, 4, 36);
    part_of(b, d, c, 36, 68);
    part_of(b, d, c, 68, 100);
    part_of(b, d, c, 100, 132);
    part_of(b, d, c, 132, 164);
    assert(c.subrange(0, 4) =~= SPLIT_SELECTOR@);
    assert(words::address_word(collateral).skip(12) =~= collateral);
    let s = b.subrange(d, d + 4);
    assert(s[0] == SPLIT_SELECTOR@[0] && SPLIT_SELECTOR@[0] == 0x72);
    assert(NEG_RISK_SPLIT_SELECTOR@[0] == 0xa3);
    assert(NEG_RISK_MERGE_SELECTOR@[0] == 0xb1);
    assert(MERGE_SELECTOR@[0] == 0x9e);
}

/// Where the split of market `k` stands in a batch.
spec fn place(k: int) -> int {
    153 + 345 * k
}

/// Whether the byte at `i` is one of a split that is read, in a batch of `n`.
spec fn inside(i: int, n: int) -> bool {
    i >= 153 && (i - 153) / 345 < n && (i - 153) % 345 < 164
}

/// Whether `b` holds the splits of these markets at their places, and nothing else that
/// an action could begin with.
spec fn laid_out(b: Seq<u8>, ids: Seq<[u8; 32]>, collateral: Seq<u8>, amount: int) -> bool {
    &&& place(ids.len() as int) - 85 <= b.len()
    &&& forall|k: int|
        #![trigger ids[k]]
        0 <= k < ids.len() ==> b.subrange(place(k), place(k) + 260) == one_split(
            collateral,
            ids[k]@,
            amount,
        )
    &&& forall|i: int| 0 <= i < b.len() && !inside(i, ids.len() as int) ==> #[trigger] quiet(b, i)
}

proof fn read_from(
    b: Seq<u8>,
    ids: Seq<[u8; 32]>,
    collateral: Seq<u8>,
    amount: u128,
    k: int,
    room: int,
)
    requires
        0 <= k < ids.len(),
        room >= ids.len() - k,
        collateral.len() == 20,
        forall|i: int| 0 <= i < ids.len() ==> !words::is_zero((#[trigger] ids[i])@),
        0 < amount <= MAX_MERGE_SHARES,
        laid_out(b, ids, collateral, amount as int),
    ensures
        mergewatch::actions_from(b, place(k), room) == splits_seen(
            ids,
            collateral,
            amount as int,
        ).skip(k),
    decreases ids.len() - k,
{
    let n = ids.len() as int;
    let all = splits_seen(ids, collateral, amount as int);
    let d = place(k);
    split_is_seen(b, d, collateral, ids[k]@, amount);
    let from = d + 164;
    if k + 1 < n {
        let next = place(k + 1);
        assert forall|i: int| from <= i < next implies quiet(b, i) by {
            gap_is_outside(i, k, n);
        }
        skip_quiet(b, from, next, room - 1);
        read_from(b, ids, collateral, amount, k + 1, room - 1);
    } else {
        let end = b.len() as int;
        assert forall|i: int| from <= i < end implies quiet(b, i) by {
            tail_is_outside(i, n);
        }
        skip_quiet(b, from, end, room - 1);
        assert(mergewatch::actions_from(b, end, room - 1) =~= all.skip(k + 1));
    }
    assert(all.skip(k) =~= seq![all[k]] + all.skip(k + 1));
}

proof fn gap_is_outside(i: int, k: int, n: int)
    requires
        0 <= k,
        place(k) + 164 <= i < place(k + 1),
    ensures
        !inside(i, n),
{
    let x = i - 153 - 345 * k;
    vstd::arithmetic::div_mod::lemma_fundamental_div_mod_converse(i - 153, 345, k, x);
}

proof fn tail_is_outside(i: int, n: int)
    requires
        1 <= n,
        place(n - 1) + 164 <= i,
    ensures
        !inside(i, n),
{
    if i < place(n) {
        gap_is_outside(i, n - 1, n);
    } else {
        assert((i - 153) / 345 >= n) by (nonlinear_arith)
            requires
                i - 153 >= 345 * n,
        ;
    }
}

proof fn packed_at(calls: Seq<(Seq<u8>, Seq<u8>)>, k: int)
    requires
        forall|i: int|
            0 <= i < calls.len() ==> (#[trigger] calls[i]).0.len() == 20 && calls[i].1.len() == 260,
    ensures
        split::packed(calls).len() == 345 * calls.len(),
        0 <= k < calls.len() ==> split::packed(calls).subrange(345 * k, 345 * k + 345)
            == split::packed_call(calls[k].0, calls[k].1),
    decreases calls.len(),
{
    words::small_word(260);
    if calls.len() > 0 {
        let before = calls.drop_last();
        assert forall|i: int| 0 <= i < before.len() implies (#[trigger] before[i]).0.len() == 20
            && before[i].1.len() == 260 by {
            assert(before[i] == calls[i]);
        }
        packed_at(before, k);
        let last = split::packed_call(calls.last().0, calls.last().1);
        assert(calls.last() == calls[calls.len() - 1]);
        assert(last.len() == 345);
        let p = split::packed(before);
        if 0 <= k < calls.len() - 1 {
            assert(before[k] == calls[k]);
            assert((p + last).subrange(345 * k, 345 * k + 345) =~= p.subrange(
                345 * k,
                345 * k + 345,
            ));
        } else {
            assert((p + last).subrange(p.len() as int, p.len() as int + 345) =~= last);
        }
    }
}

proof fn record_is_quiet(collateral: Seq<u8>, condition_id: Seq<u8>, amount: u128, i: int)
    requires
        collateral.len() == 20,
        condition_id.len() == 32,
        0 <= i < 85 || 249 <= i < 345,
    ensures
        !loud(
            split::packed_call(
                SPLIT_ADAPTER@,
                one_split(collateral, condition_id, amount as int),
            )[i],
        ),
{
    split_bytes(collateral, condition_id, amount);
    words::small_word(260);
    let c = one_split(collateral, condition_id, amount as int);
    let r = split::packed_call(SPLIT_ADAPTER@, c);
    if i >= 249 {
        assert(r[i] == c[i - 85]);
    } else if i >= 53 {
        assert(r[i] == words::word_of(260)[i - 53]);
    } else if i >= 21 {
        assert(r[i] == 0);
    } else if i >= 1 {
        let a = SPLIT_ADAPTER@;
        assert(r[i] == a[i - 1]);
        assert(a[0] == 0xad && a[1] == 0xa1 && a[2] == 0 && a[3] == 0x87 && a[4] == 0x4d && a[5]
            == 0 && a[6] == 0xe3 && a[7] == 0x33 && a[8] == 0x1d && a[9] == 0 && a[10] == 0xf2
            && a[11] == 0 && a[12] == 0x7a && a[13] == 0x9c && a[14] == 0x33 && a[15] == 0x6a
            && a[16] == 0x65 && a[17] == 0 && a[18] == 0x97 && a[19] == 0x18);
    }
}

/// The splits of these markets as the calls of a batch, the selector written out.
spec fn calls_of(ids: Seq<[u8; 32]>, collateral: Seq<u8>, amount: int) -> Seq<
    (Seq<u8>, Seq<u8>),
> {
    ids.map_values(|c: [u8; 32]| (SPLIT_ADAPTER@, one_split(collateral, c@, amount)))
}

/// A batch, the selector written out.
spec fn sent(calls: Seq<(Seq<u8>, Seq<u8>)>) -> Seq<u8> {
    let p = split::packed(calls);
    MULTISEND_SELECTOR@ + words::word_of(32) + words::word_of(p.len() as int) + p + split::padding(
        p.len() as int,
    )
}

proof fn batch_is_laid_out(ids: Seq<[u8; 32]>, collateral: Seq<u8>, amount: u128)
    requires
        1 <= ids.len() <= MAX_BATCH_CALLS,
        collateral.len() == 20,
    ensures
        laid_out(sent(calls_of(ids, collateral, amount as int)), ids, collateral, amount as int),
        forall|i: int|
            0 <= i < 153 ==> quiet(sent(calls_of(ids, collateral, amount as int)), i),
{
    let n = ids.len() as int;
    let calls = calls_of(ids, collateral, amount as int);
    let p = split::packed(calls);
    let b = sent(calls);
    assert forall|i: int| 0 <= i < calls.len() implies (#[trigger] calls[i]).0.len() == 20
        && calls[i].1.len() == 260 by {
        split_bytes(collateral, ids[i]@, amount);
    }
    packed_at(calls, 0);
    words::small_word(32);
    words::small_word(345 * n);
    assert forall|k: int| #![trigger ids[k]] 0 <= k < n implies b.subrange(
        place(k),
        place(k) + 260,
    ) == one_split(collateral, ids[k]@, amount as int) by {
        packed_at(calls, k);
        split_bytes(collateral, ids[k]@, amount);
        let c = one_split(collateral, ids[k]@, amount as int);
        let r = split::packed_call(SPLIT_ADAPTER@, c);
        assert(calls[k] == (SPLIT_ADAPTER@, c));
        assert(r.subrange(85, 345) =~= c);
        part_of(p, 345 * k, r, 85, 345);
        assert(b.subrange(place(k), place(k) + 260) =~= p.subrange(345 * k + 85, 345 * k + 345));
    }
    assert forall|i: int| 0 <= i < b.len() && !inside(i, n) implies #[trigger] quiet(b, i) by {
        if i < 4 {
            let m = MULTISEND_SELECTOR@;
            assert(b[i] == m[i]);
            assert(m[0] == 0x8d && m[1] == 0x80 && m[2] == 0xff && m[3] == 0x0a);
        } else if i < 36 {
            assert(b[i] == words::word_of(32)[i - 4]);
        } else if i < 68 {
            assert(b[i] == words::word_of(345 * n)[i - 36]);
            if i == 67 {
                assert(b[68] == p[0]);
                assert(p[0] == p.subrange(0, 345)[0]);
            }
        } else if i - 68 < p.len() {
            let k = (i - 68) / 345;
            let x = (i - 68) % 345;
            assert(i - 68 == 345 * k + x);
            packed_at(calls, k);
            assert(b[i] == p[i - 68]);
            assert(p[i - 68] == p.subrange(345 * k, 345 * k + 345)[x]);
            assert(calls[k] == (SPLIT_ADAPTER@, one_split(collateral, ids[k]@, amount as int)));
            if 85 <= x < 249 {
                vstd::arithmetic::div_mod::lemma_fundamental_div_mod_converse(
                    i - 153,
                    345,
                    k,
                    x - 85,
                );
            } else {
                record_is_quiet(collateral, ids[k]@, amount, x);
            }
        } else {
            assert(b[i] == 0);
        }
    }
    assert forall|i: int| 0 <= i < 153 implies quiet(b, i) by {
        assert(!inside(i, n));
    }
}

/// A plan to split reads back whole: calldata that splits in these markets, alone or in a
/// batch, is read as one split of each, in their order. It rests on the two signatures
/// having the selectors that the reader looks for.
pub proof fn planned_splits_read_back(
    condition_ids: Seq<[u8; 32]>,
    collateral: Seq<u8>,
    amount: u128,
)
    requires
        1 <= condition_ids.len() <= MAX_BATCH_CALLS,
        forall|i: int|
            0 <= i < condition_ids.len() ==> !words::is_zero((#[trigger] condition_ids[i])@),
        collateral.len() == 20,
        0 < amount <= MAX_MERGE_SHARES,
    ensures
        merge::selector("splitPosition(address,bytes32,bytes32,uint256[],uint256)"@)
            == SPLIT_SELECTOR@ && merge::selector("multiSend(bytes)"@) == MULTISEND_SELECTOR@ ==> (
        mergewatch::actions_from(
            split::plan(condition_ids, collateral, BINARY_PARTITION@, amount as int),
            0,
            MAX_BATCH_CALLS as int,
        ) == splits_seen(condition_ids, collateral, amount as int)),
{
    let room = MAX_BATCH_CALLS as int;
    let all = splits_seen(condition_ids, collateral, amount as int);
    if condition_ids.len() == 1 {
        let c = one_split(collateral, condition_ids[0]@, amount as int);
        split_bytes(collateral, condition_ids[0]@, amount);
        assert(c.subrange(0, 260) =~= c);
        split_is_seen(c, 0, collateral, condition_ids[0]@, amount);
        skip_quiet(c, 164, 260, room - 1);
        assert(mergewatch::actions_from(c, 260, room - 1) =~= Seq::<MergeView>::empty());
        assert(mergewatch::actions_from(c, 0, room) =~= all);
    } else {
        let calls = calls_of(condition_ids, collateral, amount as int);
        let b = sent(calls);
        batch_is_laid_out(condition_ids, collateral, amount);
        skip_quiet(b, 0, 153, room);
        read_from(b, condition_ids, collateral, amount, 0, room);
        assert(all.skip(0) =~= all);
        if merge::selector("splitPosition(address,bytes32,bytes32,uint256[],uint256)"@)
            == SPLIT_SELECTOR@ && merge::selector("multiSend(bytes)"@) == MULTISEND_SELECTOR@ {
            let made = split::splits(condition_ids, collateral, BINARY_PARTITION@, amount as int);
            assert(made =~= calls);
        }
    }
}

} // verus!
