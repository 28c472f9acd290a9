//! How a merge of the leader is read and answered.

use vstd::prelude::*;
use crate::mergewatch;
use crate::mergewatch::{
    MergeView, PairKind, ResponseView, MERGE_SELECTOR, NEG_RISK_MERGE_SELECTOR,
    NEG_RISK_SPLIT_SELECTOR, SPLIT_SELECTOR,
};
use crate::text;
use crate::units::Qty;
use crate::words;

verus! {

/// What can be disposed of: what is held, nothing where less than nothing is.
pub open spec fn on_hand(ours: i64) -> int {
    if ours > 0 {
        ours as int
    } else {
        0
    }
}

/// Whether `want` is how many of the leader's pairs are ours to follow: the leader's number
/// times our fraction, which is in millionths, rounded down.
pub open spec fn is_our_part(want: int, his_pairs: int, fraction: int) -> bool {
    want * 1_000_000 <= his_pairs * fraction < (want + 1) * 1_000_000
}

/// As many pairs are merged as our part of the leader's, and either side, allow: no more than
/// any of the three, and exactly one of them.
pub proof fn as_many_pairs_as_there_are(
    ours_a: i64,
    ours_b: i64,
    token_a: Seq<char>,
    token_b: Seq<char>,
    his_pairs: i64,
    fraction: i64,
    want: int,
)
    requires
        his_pairs > 0,
        fraction > 0,
        is_our_part(want, his_pairs as int, fraction as int),
    ensures
        ({
            let r = mergewatch::response(
                ours_a,
                ours_b,
                token_a,
                token_b,
                his_pairs,
                Qty::Finite(fraction),
            );
            let a = on_hand(ours_a);
            let b = on_hand(ours_b);
            &&& r is None <==> a == 0 && b == 0
            &&& r matches Some(m) ==> {
                &&& 0 <= m.merge_pairs <= want && m.merge_pairs <= a && m.merge_pairs <= b
                &&& m.merge_pairs == want || m.merge_pairs == a || m.merge_pairs == b
            }
        }),
{
    part_is_one(want, his_pairs as int, fraction as int);
}

proof fn part_is_one(want: int, his_pairs: int, fraction: int)
    requires
        is_our_part(want, his_pairs, fraction),
        his_pairs > 0,
        fraction > 0,
    ensures
        mergewatch::intended(his_pairs, fraction) == want,
        want >= 0,
{
    let p = his_pairs * fraction;
    assert(p > 0) by (nonlinear_arith)
        requires
            p == his_pairs * fraction,
            his_pairs > 0,
            fraction > 0,
    ;
    assert(p / 1_000_000 == want);
}

/// Where pairs are merged, the side that holds more is the one that could not pair off, and as
/// much of it is sold as it holds over the pairs, but no more than our part of the leader's;
/// where both hold the same, the first is. Nothing is sold only where both sides pair off
/// whole.
pub proof fn the_leg_that_could_not_pair_is_sold(
    ours_a: i64,
    ours_b: i64,
    token_a: Seq<char>,
    token_b: Seq<char>,
    his_pairs: i64,
    fraction: i64,
    want: int,
)
    requires
        his_pairs > 0,
        fraction > 0,
        is_our_part(want, his_pairs as int, fraction as int),
        want > 0,
        ours_a > 0,
        ours_b > 0,
    ensures
        mergewatch::response(
            ours_a,
            ours_b,
            token_a,
            token_b,
            his_pairs,
            Qty::Finite(fraction),
        ) matches Some(m) && {
            let over_a = ours_a - m.merge_pairs;
            let over_b = ours_b - m.merge_pairs;
            &&& m.merge_pairs > 0
            &&& m.flatten is None <==> over_a == 0 && over_b == 0
            &&& m.flatten matches Some(f) ==> {
                &&& f.1 > 0 && f.1 <= want
                &&& ours_a >= ours_b ==> f.0 == token_a && f.1 <= over_a && (f.1 == over_a || f.1
                    == want)
                &&& ours_b > ours_a ==> f.0 == token_b && f.1 <= over_b && (f.1 == over_b || f.1
                    == want)
            }
        },
{
    part_is_one(want, his_pairs as int, fraction as int);
}

/// Where only one side is held nothing pairs off, and of that side as much is sold as is held,
/// but no more than our part of the leader's.
pub proof fn a_single_leg_is_sold(
    ours_a: i64,
    ours_b: i64,
    token_a: Seq<char>,
    token_b: Seq<char>,
    his_pairs: i64,
    fraction: i64,
    want: int,
)
    requires
        his_pairs > 0,
        fraction > 0,
        is_our_part(want, his_pairs as int, fraction as int),
        (ours_a > 0) != (ours_b > 0),
    ensures
        mergewatch::response(
            ours_a,
            ours_b,
            token_a,
            token_b,
            his_pairs,
            Qty::Finite(fraction),
        ) matches Some(m) && m.flatten matches Some(f) && {
            let n = if ours_a > 0 {
                ours_a
            } else {
                ours_b
            };
            &&& m.merge_pairs == 0
            &&& f.0 == (if ours_a > 0 {
                token_a
            } else {
                token_b
            })
            &&& f.1 <= n && f.1 <= want && (f.1 == n || f.1 == want)
        },
{
    part_is_one(want, his_pairs as int, fraction as int);
}

/// The answer does not depend on which token is named first, unless we hold the same of both.
pub proof fn the_answer_is_symmetric(
    ours_a: i64,
    ours_b: i64,
    token_a: Seq<char>,
    token_b: Seq<char>,
    his_pairs: i64,
    our_fraction: Qty,
)
    requires
        ours_a != ours_b,
        our_fraction matches Qty::Finite(f) ==> his_pairs * f >= 1_000_000,
    ensures
        mergewatch::response(ours_a, ours_b, token_a, token_b, his_pairs, our_fraction)
            == mergewatch::response(ours_b, ours_a, token_b, token_a, his_pairs, our_fraction),
{
}

/// Nothing is answered where the leader merged nothing, or our fraction is none.
pub proof fn nothing_to_follow(
    ours_a: i64,
    ours_b: i64,
    token_a: Seq<char>,
    token_b: Seq<char>,
    his_pairs: i64,
    our_fraction: Qty,
)
    requires
        his_pairs <= 0 || our_fraction == Qty::NotFinite || (our_fraction matches Qty::Finite(f)
            && f <= 0),
    ensures
        mergewatch::response(
            ours_a,
            ours_b,
            token_a,
            token_b,
            his_pairs,
            our_fraction,
        ) is None,
{
}

/// Whether an action stands at `i` in calldata: a selector of its kind, and behind it the
/// market, and for one with a size the collateral before and the amount after it.
pub open spec fn stands_at(b: Seq<u8>, i: int, m: MergeView) -> bool {
    &&& 0 <= i && i + 68 <= b.len()
    &&& m.sized ==> {
        &&& i + 164 <= b.len()
        &&& b.subrange(i, i + 4) == (if m.kind == PairKind::Merge {
            MERGE_SELECTOR@
        } else {
            SPLIT_SELECTOR@
        })
        &&& m.collateral == b.subrange(i + 16, i + 36)
        &&& words::is_zero(b.subrange(i + 36, i + 68))
        &&& !words::is_zero(b.subrange(i + 68, i + 100))
        &&& m.condition_id == text::hex_of(b.subrange(i + 68, i + 100))
        &&& words::be(b.subrange(i + 100, i + 132)) == 0xa0
        &&& words::be(b.subrange(i + 132, i + 164)) == m.shares
        &&& 0 < m.shares <= 1_000_000_000_000_000
    }
    &&& !m.sized ==> {
        &&& b.subrange(i, i + 4) == (if m.kind == PairKind::Merge {
            NEG_RISK_MERGE_SELECTOR@
        } else {
            NEG_RISK_SPLIT_SELECTOR@
        })
        &&& !words::is_zero(b.subrange(i + 4, i + 36))
        &&& m.condition_id == text::hex_of(b.subrange(i + 4, i + 36))
        &&& m.shares == 0
    }
}

proof fn action_stands(b: Seq<u8>, i: int)
    requires
        0 <= i,
        i + 68 <= b.len(),
    ensures
        mergewatch::action_at(b, i) matches Some(a) ==> stands_at(b, i, a.0) && a.1 == (
        if a.0.sized {
            164int
        } else {
            68
        }),
{
    if let Some(a) = mergewatch::action_at(b, i) {
        if a.0.sized {
            let w = b.subrange(i + 4, i + 36);
            assert(w.skip(12) =~= b.subrange(i + 16, i + 36));
            assert(b.subrange(i + 4 + 32, i + 4 + 32 + 32) =~= b.subrange(i + 36, i + 68));
            assert(b.subrange(i + 4 + 64, i + 4 + 64 + 32) =~= b.subrange(i + 68, i + 100));
            words::small_is_its_word(b, i + 4 + 96);
            words::large_is_its_word(b, i + 4 + 128);
            assert(b.subrange(i + 4 + 96, i + 4 + 96 + 32) =~= b.subrange(i + 100, i + 132));
            assert(b.subrange(i + 4 + 128, i + 4 + 128 + 32) =~= b.subrange(i + 132, i + 164));
        }
    }
}

/// Every action that is read stands in the calldata, and they are read in the order in which
/// they stand there, none of them inside another: each stands at a place behind the end of the
/// one before.
pub proof fn every_action_stands_in_the_calldata(b: Seq<u8>, from: int, room: int, k: int)
    requires
        0 <= from,
        0 <= k < mergewatch::actions_from(b, from, room).len(),
    ensures
        exists|i: int| from <= i && #[trigger] stands_at(b, i, mergewatch::actions_from(b, from, room)[k]),
        mergewatch::actions_from(b, from, room).len() <= room,
    decreases b.len() - from,
{
    let all = mergewatch::actions_from(b, from, room);
    action_stands(b, from);
    match mergewatch::action_at(b, from) {
        Some((m, step)) => {
            let rest = mergewatch::actions_from(b, from + step, room - 1);
            if k == 0 {
                assert(stands_at(b, from, all[0]));
            } else {
                every_action_stands_in_the_calldata(b, from + step, room - 1, k - 1);
                assert(all[k] == rest[k - 1]);
            }
            if rest.len() > 0 {
                every_action_stands_in_the_calldata(b, from + step, room - 1, 0);
            }
        },
        None => {
            every_action_stands_in_the_calldata(b, from + 1, room, k);
        },
    }
}

/// The first action of calldata is read, whatever stands before it, and reading goes on behind
/// it: where an action stands at `i` and none stands before it, it is the first that is read.
pub proof fn the_first_action_is_read(b: Seq<u8>, from: int, i: int, room: int)
    requires
        0 <= from <= i,
        i + 68 <= b.len(),
        room > 0,
        forall|j: int| from <= j < i ==> mergewatch::action_at(b, j) is None,
        mergewatch::action_at(b, i) is Some,
    ensures
        ({
            let (m, _) = mergewatch::action_at(b, i)->0;
            let end = if m.sized {
                i + 164
            } else {
                i + 68
            };
            mergewatch::actions_from(b, from, room) == seq![m] + mergewatch::actions_from(
                b,
                end,
                room - 1,
            )
        }),
    decreases i - from,
{
    action_stands(b, i);
    if from < i {
        the_first_action_is_read(b, from + 1, i, room);
    }
}

/// Whether a call with a size stands at `i`: the selector, the collateral, no parent, a market,
/// where the partition begins, and an amount that is no more than may be.
pub open spec fn calls_with_size(b: Seq<u8>, i: int, sel: Seq<u8>, amount: int) -> bool {
    &&& 0 <= i && i + 164 <= b.len()
    &&& b.subrange(i, i + 4) == sel
    &&& words::is_zero(b.subrange(i + 36, i + 68))
    &&& !words::is_zero(b.subrange(i + 68, i + 100))
    &&& words::small_at(b, i + 100) == Some(0xa0int)
    &&& words::large_at(b, i + 132) == Some(amount)
    &&& 0 < amount <= 1_000_000_000_000_000
}

/// No action is missed: a call that merges or splits, with a size or by an adapter, is read
/// where it stands, as what it is.
pub proof fn an_action_is_recognised(b: Seq<u8>, i: int, amount: int)
    ensures
        calls_with_size(b, i, MERGE_SELECTOR@, amount) ==> (mergewatch::action_at(
            b,
            i,
        ) matches Some(a) && a.0.kind == PairKind::Merge && a.0.shares == amount && a.0.sized),
        calls_with_size(b, i, SPLIT_SELECTOR@, amount) ==> (mergewatch::action_at(
            b,
            i,
        ) matches Some(a) && a.0.kind == PairKind::Split && a.0.shares == amount && a.0.sized),
        0 <= i && i + 68 <= b.len() && !words::is_zero(b.subrange(i + 4, i + 36)) && b.subrange(
            i,
            i + 4,
        ) == NEG_RISK_MERGE_SELECTOR@ ==> (mergewatch::action_at(b, i) matches Some(a) && a.0.kind
            == PairKind::Merge && !a.0.sized),
        0 <= i && i + 68 <= b.len() && !words::is_zero(b.subrange(i + 4, i + 36)) && b.subrange(
            i,
            i + 4,
        ) == NEG_RISK_SPLIT_SELECTOR@ ==> (mergewatch::action_at(b, i) matches Some(a) && a.0.kind
            == PairKind::Split && !a.0.sized),
{
    let (m, s, nm, ns) = (
        MERGE_SELECTOR@,
        SPLIT_SELECTOR@,
        NEG_RISK_MERGE_SELECTOR@,
        NEG_RISK_SPLIT_SELECTOR@,
    );
    assert(m[0] == 0x9e && s[0] == 0x72 && nm[0] == 0xb1 && ns[0] == 0xa3);
    if 0 <= i && i + 164 <= b.len() {
        assert(b.subrange(i + 4 + 32, i + 4 + 32 + 32) =~= b.subrange(i + 36, i + 68));
        assert(b.subrange(i + 4 + 64, i + 4 + 64 + 32) =~= b.subrange(i + 68, i + 100));
        assert(i + 4 + 96 == i + 100 && i + 4 + 128 == i + 132);
    }
}

/// Every action of a transaction goes to the lane that owns it, in its order, and a transaction
/// of nobody goes nowhere.
pub proof fn actions_go_to_their_lane(
    tx_to: Seq<char>,
    calldata: Seq<u8>,
    lanes: Seq<(usize, [u8; 20])>,
    k: int,
)
    ensures
        ({
            let r = mergewatch::routed(tx_to, calldata, lanes);
            let all = mergewatch::actions_from(calldata, 0, 64);
            &&& mergewatch::owner_of(tx_to, lanes, 0) is None ==> r.len() == 0
            &&& mergewatch::owner_of(tx_to, lanes, 0) matches Some(ix) ==> r.len() == all.len() && (
            0 <= k < all.len() ==> r[k] == (ix, all[k]))
        }),
{
}

/// The case of an address and the mark of a number make no other wallet.
pub proof fn a_wallet_is_its_bytes(tx_to: Seq<char>, leader: Seq<u8>)
    ensures
        mergewatch::goes_to("0x"@ + tx_to, leader) == mergewatch::goes_to(tx_to, leader),
        mergewatch::goes_to(text::hex_of(leader), leader),
{
    reveal_strlit("0x");
    assert(("0x"@ + tx_to).skip(2) =~= tx_to);
    crate::laws::text::hex_writes_two_digits_a_byte(leader);
    let h = text::hex_of(leader);
    if h.len() >= 2 {
        assert(0 <= crate::laws::text::hex_value(h[1]) < 16);
        assert(h[1] != 'x');
    }
    assert(text::bare(h) == h);
}

/// The merges of a transaction are its actions that merge: each of them is one, none is left
/// out, and they keep their order.
pub proof fn merges_are_the_actions_that_merge(s: Seq<MergeView>)
    ensures
        mergewatch::merges_of(s) == s.filter(|m: MergeView| m.kind == PairKind::Merge),
    decreases s.len(),
{
    reveal(Seq::filter);
    if s.len() > 0 {
        merges_are_the_actions_that_merge(s.drop_last());
    }
}

/// A transaction belongs to the first lane whose leader's wallet it goes to: it goes to that
/// lane's and to none before it. Where it goes to no leader's it belongs to nobody.
pub proof fn the_first_lane_owns(tx_to: Seq<char>, lanes: Seq<(usize, [u8; 20])>, from: int)
    requires
        0 <= from <= lanes.len(),
    ensures
        mergewatch::owner_of(tx_to, lanes, from) is None <==> forall|i: int|
            from <= i < lanes.len() ==> !mergewatch::goes_to(tx_to, (#[trigger] lanes[i]).1@),
        mergewatch::owner_of(tx_to, lanes, from) matches Some(ix) ==> exists|i: int|
            from <= i < lanes.len() && ix == (#[trigger] lanes[i]).0 && mergewatch::goes_to(
                tx_to,
                lanes[i].1@,
            ) && forall|j: int|
                from <= j < i ==> !mergewatch::goes_to(tx_to, (#[trigger] lanes[j]).1@),
    decreases lanes.len() - from,
{
    if from < lanes.len() {
        if mergewatch::goes_to(tx_to, lanes[from].1@) {
            assert(lanes[from].0 == lanes[from].0);
        } else {
            the_first_lane_owns(tx_to, lanes, from + 1);
        }
    }
}

/// Where our part of the leader's comes to nothing, nothing is merged and nothing is sold: what
/// is answered names the first side that is held, with none of it.
pub proof fn a_part_that_is_nothing_sells_nothing(
    ours_a: i64,
    ours_b: i64,
    token_a: Seq<char>,
    token_b: Seq<char>,
    his_pairs: i64,
    fraction: i64,
)
    requires
        his_pairs > 0,
        fraction > 0,
        his_pairs * fraction < 1_000_000,
        ours_a > 0 || ours_b > 0,
    ensures
        mergewatch::response(
            ours_a,
            ours_b,
            token_a,
            token_b,
            his_pairs,
            Qty::Finite(fraction),
        ) matches Some(m) && m.flatten matches Some(f) && {
            &&& m.merge_pairs == 0 && f.1 == 0
            &&& f.0 == (if ours_a > 0 {
                token_a
            } else {
                token_b
            })
        },
{
    assert(his_pairs * fraction > 0) by (nonlinear_arith)
        requires
            his_pairs > 0,
            fraction > 0,
    ;
    part_is_one(0, his_pairs as int, fraction as int);
}

} // verus!
