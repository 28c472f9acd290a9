//! What is merged of pairs that were left behind, and what a split takes.

use vstd::prelude::*;
use crate::merge;
use crate::merge::{OrphanView, ReconAction};
use crate::split;
use crate::words;

verus! {

/// What pairs off is the lesser side, whole, and what does not is the rest of the larger, where
/// that is more than one unit: together they are all that is held.
pub proof fn what_pairs_off_is_the_lesser_side(o: OrphanView)
    ensures
        o.pairs() <= o.shares_a && o.pairs() <= o.shares_b,
        o.pairs() == o.shares_a || o.pairs() == o.shares_b,
        o.rest() is None <==> -1 <= o.shares_a - o.shares_b <= 1,
        o.rest() matches Some(r) ==> if o.shares_a > o.shares_b {
            r.0 == o.token_a && o.pairs() + r.1 == o.shares_a
        } else {
            r.0 == o.token_b && o.pairs() + r.1 == o.shares_b
        },
{
}

/// Where merging is on, the pairs are merged and the rest is sold; where it is off, both sides
/// are sold whole.
pub proof fn pairs_are_merged_where_they_may_be(o: OrphanView, merge_enabled: bool, a: ReconAction)
    requires
        merge::closes(o, merge_enabled, a),
    ensures
        a is MergeThenSellResidual <==> merge_enabled,
        a matches ReconAction::MergeThenSellResidual { amount, residual, .. } ==> amount
            <= o.shares_a && amount <= o.shares_b && (amount == o.shares_a || amount == o.shares_b)
            && (residual matches Some(r) ==> amount + r.1 == (if o.shares_a > o.shares_b {
            o.shares_a
        } else {
            o.shares_b
        })),
        a matches ReconAction::SellBoth { shares_a, shares_b, .. } ==> shares_a == o.shares_a
            && shares_b == o.shares_b,
{
}

/// The legs of a market are the holdings of its tokens that are more than one unit, in their
/// order; none is left out.
pub proof fn the_legs_are_what_is_held(
    hs: Seq<(String, i64)>,
    markets: Map<Seq<char>, String>,
    c: Seq<char>,
    h: (String, i64),
)
    ensures
        merge::legs_in(hs.push(h), markets, c) == (if h.1 > 1 && markets.contains_key(h.0@)
            && markets[h.0@]@ == c {
            merge::legs_in(hs, markets, c).push((h.0@, h.1 as int))
        } else {
            merge::legs_in(hs, markets, c)
        }),
        merge::legs_in(Seq::empty(), markets, c).len() == 0,
{
    assert(hs.push(h).drop_last() =~= hs);
}

/// The markets of some holdings are those of which any is held, each once.
pub proof fn every_market_is_found_once(
    hs: Seq<(String, i64)>,
    markets: Map<Seq<char>, String>,
    c: Seq<char>,
)
    ensures
        merge::markets_in(hs, markets).contains(c) <==> merge::legs_in(hs, markets, c).len() > 0,
        merge::markets_in(hs, markets).no_duplicates(),
    decreases hs.len(),
{
    if hs.len() > 0 {
        let before = hs.drop_last();
        every_market_is_found_once(before, markets, c);
        let had = merge::markets_in(before, markets);
        let all = merge::markets_in(hs, markets);
        match merge::market_of(hs.last(), markets) {
            Some(d) => {
                if !had.contains(d) {
                    assert(all == had.push(d));
                    assert(all[had.len() as int] == d);
                    if had.contains(c) {
                        let k = choose|k: int| 0 <= k < had.len() && had[k] == c;
                        assert(all[k] == c);
                    }
                    if all.contains(c) {
                        let k = choose|k: int| 0 <= k < all.len() && all[k] == c;
                        if k < had.len() {
                            assert(had[k] == c);
                        }
                    }
                }
            },
            None => {},
        }
    }
}

/// A pair that was left behind is of a market of which exactly two legs are held, and is of
/// those legs: their tokens and their shares. No market gives more than one.
pub proof fn a_pair_is_of_its_two_legs<F: Fn(&str) -> bool, G: Fn(&str) -> Option<usize>>(
    hs: Seq<(String, i64)>,
    markets: Map<Seq<char>, String>,
    leader_flat: F,
    outcomes_of: G,
    among: Seq<Seq<char>>,
    out: Seq<OrphanView>,
    k: int,
)
    requires
        merge::pairs_among(hs, markets, leader_flat, outcomes_of, among, out),
        0 <= k < out.len(),
    ensures
        out.len() <= among.len(),
        among.contains(out[k].condition_id),
        ({
            let legs = merge::legs_in(hs, markets, out[k].condition_id);
            &&& legs.len() == 2
            &&& legs[0] == (out[k].token_a, out[k].shares_a)
            &&& legs[1] == (out[k].token_b, out[k].shares_b)
        }),
        merge::answered(leader_flat, outcomes_of, out[k].condition_id, true),
    decreases among.len(),
{
    let c = among.last();
    let rest = among.drop_last();
    let legs = merge::legs_in(hs, markets, c);
    assert(among[among.len() - 1] == c);
    if legs.len() == 2 && merge::answered(leader_flat, outcomes_of, c, true) && out.last()
        == (OrphanView {
        condition_id: c,
        token_a: legs[0].0,
        token_b: legs[1].0,
        shares_a: legs[0].1,
        shares_b: legs[1].1,
    }) && merge::pairs_among(hs, markets, leader_flat, outcomes_of, rest, out.drop_last()) {
        let less = out.drop_last();
        if less.len() > 0 {
            a_pair_is_of_its_two_legs(
                hs,
                markets,
                leader_flat,
                outcomes_of,
                rest,
                less,
                if k < less.len() {
                    k
                } else {
                    0
                },
            );
        }
        if k < less.len() {
            assert(less[k] == out[k]);
            let i = choose|i: int| 0 <= i < rest.len() && rest[i] == out[k].condition_id;
            assert(among[i] == rest[i]);
        }
    } else {
        a_pair_is_of_its_two_legs(hs, markets, leader_flat, outcomes_of, rest, out, k);
        let i = choose|i: int| 0 <= i < rest.len() && rest[i] == out[k].condition_id;
        assert(among[i] == rest[i]);
    }
}

/// Words are laid out one behind the other.
pub proof fn words_follow_each_other(v: Seq<u64>, i: int)
    requires
        0 <= i < v.len(),
    ensures
        merge::as_words(v).len() == 32 * v.len(),
        words::small_at(merge::as_words(v), 32 * i) == Some(v[i] as int),
    decreases v.len(),
{
    let before = v.drop_last();
    let w = words::word_of(v.last() as int);
    words::word_reads_back(v.last() as u128);
    words_fill(before);
    let all = merge::as_words(v);
    assert(all.len() == 32 * v.len());
    if i < before.len() {
        words_follow_each_other(before, i);
        let b = merge::as_words(before);
        assert(all.subrange(32 * i, 32 * i + 32) =~= b.subrange(32 * i, 32 * i + 32));
        assert(before[i] == v[i]);
    } else {
        assert(all.subrange(32 * i, 32 * i + 32) =~= w);
        assert(w.subrange(0, 32) =~= w);
    }
}

proof fn words_fill(v: Seq<u64>)
    ensures
        merge::as_words(v).len() == 32 * v.len(),
    decreases v.len(),
{
    if v.len() > 0 {
        words_fill(v.drop_last());
        words::word_reads_back(v.last() as u128);
    }
}

/// A split takes a unit of collateral for each millionth of a pair, rounded down, and is
/// refused where that is none.
pub proof fn a_split_takes_its_pairs(pairs: int)
    ensures
        split::units_of(pairs) is Some <==> pairs >= 1_000_000,
        split::units_of(pairs) matches Some(u) ==> u * 1_000_000 <= pairs < (u + 1) * 1_000_000,
{
}

/// A call in a batch is its callee, no value, its length and its data, behind the mark of a
/// call.
pub proof fn a_call_is_packed_whole(to: Seq<u8>, data: Seq<u8>)
    requires
        to.len() == 20,
        data.len() <= u64::MAX,
    ensures
        ({
            let p = split::packed_call(to, data);
            &&& p.len() == 85 + data.len()
            &&& p[0] == 0
            &&& p.subrange(1, 21) == to
            &&& words::is_zero(p.subrange(21, 53))
            &&& words::small_at(p, 53) == Some(data.len() as int)
            &&& p.skip(85) == data
        }),
{
    let p = split::packed_call(to, data);
    let w = words::word_of(data.len() as int);
    words::word_reads_back(data.len() as u128);
    assert(p.subrange(1, 21) =~= to);
    assert(p.subrange(53, 85) =~= w);
    assert(w.subrange(0, 32) =~= w);
    assert(p.skip(85) =~= data);
}

/// The calls of a batch stand one behind the other, in their order.
pub proof fn calls_follow_each_other(a: Seq<(Seq<u8>, Seq<u8>)>, b: Seq<(Seq<u8>, Seq<u8>)>)
    ensures
        split::packed(a + b) == split::packed(a) + split::packed(b),
    decreases b.len(),
{
    if b.len() == 0 {
        assert(a + b =~= a);
        assert(split::packed(a) + split::packed(b) =~= split::packed(a));
    } else {
        assert((a + b).drop_last() =~= a + b.drop_last());
        calls_follow_each_other(a, b.drop_last());
        assert(split::packed(a + b) =~= split::packed(a) + split::packed(b));
    }
}

/// No pair is missed: a market of which exactly two legs are held, and of which nothing was
/// answered against it, gives one.
pub proof fn no_pair_is_missed<F: Fn(&str) -> bool, G: Fn(&str) -> Option<usize>>(
    hs: Seq<(String, i64)>,
    markets: Map<Seq<char>, String>,
    leader_flat: F,
    outcomes_of: G,
    among: Seq<Seq<char>>,
    out: Seq<OrphanView>,
    i: int,
)
    requires
        merge::pairs_among(hs, markets, leader_flat, outcomes_of, among, out),
        0 <= i < among.len(),
        merge::legs_in(hs, markets, among[i]).len() == 2,
        !merge::answered(leader_flat, outcomes_of, among[i], false),
    ensures
        exists|k: int| 0 <= k < out.len() && (#[trigger] out[k]).condition_id == among[i],
    decreases among.len(),
{
    let c = among.last();
    let rest = among.drop_last();
    let legs = merge::legs_in(hs, markets, c);
    let less = out.drop_last();
    if legs.len() == 2 && merge::answered(leader_flat, outcomes_of, c, true) && out.len() > 0
        && out.last() == (OrphanView {
        condition_id: c,
        token_a: legs[0].0,
        token_b: legs[1].0,
        shares_a: legs[0].1,
        shares_b: legs[1].1,
    }) && merge::pairs_among(hs, markets, leader_flat, outcomes_of, rest, less) {
        if i < rest.len() {
            no_pair_is_missed(hs, markets, leader_flat, outcomes_of, rest, less, i);
            let k = choose|k: int| 0 <= k < less.len() && (#[trigger] less[k]).condition_id == among[i];
            assert(out[k] == less[k]);
        } else {
            assert(out[out.len() - 1].condition_id == among[i]);
        }
    } else {
        assert(i < rest.len());
        no_pair_is_missed(hs, markets, leader_flat, outcomes_of, rest, out, i);
    }
}

/// What fills up a batch makes whole words, with less than one more.
pub proof fn padding_makes_whole_words(len: int)
    requires
        len >= 0,
    ensures
        (len + split::padding(len).len()) % 32 == 0,
        split::padding(len).len() < 32,
        words::is_zero(split::padding(len)),
{
}

/// A batch says behind its name how far off its calls are told, a word, and then how long they
/// are.
pub proof fn a_batch_says_where_its_calls_stand(calls: Seq<(Seq<u8>, Seq<u8>)>)
    ensures
        ({
            let k = merge::selector("multiSend(bytes)"@).len() as int;
            let b = split::batch(calls);
            let n = split::packed(calls).len() as int;
            &&& b.len() >= k + 64 + n
            &&& b.subrange(k, k + 32) == words::word_of(32)
            &&& b.subrange(k + 32, k + 64) == words::word_of(n)
            &&& b.subrange(k + 64, k + 64 + n) == split::packed(calls)
            &&& words::word_of(n).len() == 32
        }),
{
    let name = merge::selector("multiSend(bytes)"@);
    let k = name.len() as int;
    let p = split::packed(calls);
    let b = split::batch(calls);
    words::word_is_long(32);
    words::word_is_long(p.len() as int);
    assert(b.subrange(k, k + 32) =~= words::word_of(32));
    assert(b.subrange(k + 32, k + 64) =~= words::word_of(p.len() as int));
    assert(b.subrange(k + 64, k + 64 + p.len()) =~= p);
}

} // verus!
