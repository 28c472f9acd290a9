//! Merging complementary tokens back into collateral: the call, and the pairs that are
//! left behind when the leader has gone.

use vstd::prelude::*;
use crate::digests;
use crate::mergewatch;
use crate::table::Table;
use crate::text;
use crate::text::push_bytes;
use crate::units;
use crate::units::{abs_of, min64};
use crate::words;
use crate::words::{word_addr, word_u128};

verus! {

/// The contract that holds the tokens.
pub const CTF: [u8; 20] = [
    0x4d,
    0x97,
    0xdc,
    0xd9,
    0x7e,
    0xc9,
    0x45,
    0xf4,
    0x0c,
    0xf6,
    0x5f,
    0x87,
    0x09,
    0x7a,
    0xce,
    0x5e,
    0xa0,
    0x47,
    0x60,
    0x45,
];

/// The collateral of old.
pub const USDC: [u8; 20] = [
    0x27,
    0x91,
    0xbc,
    0xa1,
    0xf2,
    0xde,
    0x46,
    0x61,
    0xed,
    0x88,
    0xa3,
    0x0c,
    0x99,
    0xa7,
    0xa9,
    0x44,
    0x9a,
    0xa8,
    0x41,
    0x74,
];

/// The partition of a market of two outcomes.
pub const BINARY_PARTITION: [u64; 2] = [1, 2];

/// The adapter that merges in markets of two outcomes.
pub const MERGE_ADAPTER_BINARY: [u8; 20] = [
    0xad,
    0xa1,
    0x00,
    0xdb,
    0x00,
    0xca,
    0x00,
    0x07,
    0x38,
    0x11,
    0x82,
    0x06,
    0x92,
    0x00,
    0x54,
    0x00,
    0x21,
    0x8f,
    0xce,
    0x1f,
];

/// The adapter that merges where outcomes of several markets exclude each other.
pub const MERGE_ADAPTER_NEGRISK: [u8; 20] = [
    0xad,
    0xa2,
    0x00,
    0x56,
    0x00,
    0xde,
    0xc9,
    0x49,
    0xba,
    0xf3,
    0x00,
    0xf4,
    0xc6,
    0x12,
    0x00,
    0x00,
    0xbd,
    0xb6,
    0xea,
    0xab,
];

/// The collateral of today.
pub const COLLATERAL_PUSD: [u8; 20] = [
    0xc0,
    0x11,
    0xa7,
    0xe1,
    0x2a,
    0x19,
    0xf7,
    0xb1,
    0xf6,
    0x70,
    0xd4,
    0x6f,
    0x03,
    0xb0,
    0x3f,
    0x33,
    0x42,
    0xe8,
    0x2d,
    0xfb,
];

/// The adapter that merges in a market of this kind.
pub fn merge_adapter_for(neg_risk: bool) -> (r: [u8; 20])
    ensures
        r@ == (if neg_risk {
            MERGE_ADAPTER_NEGRISK@
        } else {
            MERGE_ADAPTER_BINARY@
        }),
{
    if neg_risk {
        MERGE_ADAPTER_NEGRISK
    } else {
        MERGE_ADAPTER_BINARY
    }
}

/// A merge that is to be sent.
#[derive(Debug, PartialEq, Eq)]
pub struct MergePlan {
    pub lane: String,
    pub condition_id: [u8; 32],
    pub yes_token: String,
    pub no_token: String,
    pub amount_units: u128,
}

/// The first four bytes of the digest of a function's signature.
pub open spec fn selector(signature: Seq<char>) -> Seq<u8> {
    digests::keccak256(vstd::utf8::encode_utf8(signature)).take(4)
}

/// These numbers as words, one after the other.
pub open spec fn as_words(v: Seq<u64>) -> Seq<u8>
    decreases v.len(),
{
    if v.len() == 0 {
        Seq::empty()
    } else {
        as_words(v.drop_last()) + words::word_of(v.last() as int)
    }
}

/// A call that merges or splits: its selector, the collateral, no parent collection,
/// the market, where the partition stands, the amount, and the partition.
pub open spec fn pair_call(
    sel: Seq<u8>,
    collateral: Seq<u8>,
    condition_id: Seq<u8>,
    partition: Seq<u64>,
    amount_units: int,
) -> Seq<u8> {
    sel + words::address_word(collateral) + Seq::new(32, |i: int| 0u8) + condition_id
        + words::word_of(160) + words::word_of(amount_units) + words::word_of(
        partition.len() as int,
    ) + as_words(partition)
}

/// The first four bytes of the digest of a function's signature; see [`selector`].
pub(crate) fn selector_of(signature: &str) -> (r: Vec<u8>)
    ensures
        r@ == selector(signature@),
        r@.len() == 4,
{
    let d = digests::keccak(signature.as_bytes());
    let mut out: Vec<u8> = Vec::new();
    for i in 0..4usize
        invariant
            d@.len() == 32,
            out@ == d@.take(i as int),
    {
        out.push(d[i]);
        assert(d@.take(i as int).push(d@[i as int]) =~= d@.take(i + 1));
    }
    out
}

/// Writes a call that merges or splits; see [`pair_call`].
pub(crate) fn write_pair_call(
    signature: &str,
    collateral: &[u8; 20],
    condition_id: &[u8; 32],
    partition: &[u64],
    amount_units: u128,
) -> (r: Vec<u8>)
    ensures
        r@ == pair_call(
            selector(signature@),
            collateral@,
            condition_id@,
            partition@,
            amount_units as int,
        ),
        selector(signature@).len() == 4,
{
    let mut out = selector_of(signature);
    push_bytes(&mut out, &word_addr(collateral));
    let none = [0u8; 32];
    assert(none@ =~= Seq::new(32, |i: int| 0u8));
    push_bytes(&mut out, &none);
    push_bytes(&mut out, condition_id);
    push_bytes(&mut out, &word_u128(160));
    push_bytes(&mut out, &word_u128(amount_units));
    push_bytes(&mut out, &word_u128(partition.len() as u128));
    let ghost head = out@;
    assert(head =~= head + as_words(partition@.take(0)));
    for i in 0..partition.len()
        invariant
            out@ == head + as_words(partition@.take(i as int)),
    {
        assert(partition@.take(i + 1).drop_last() =~= partition@.take(i as int));
        let ghost before = as_words(partition@.take(i as int));
        push_bytes(&mut out, &word_u128(partition[i] as u128));
        assert(out@ =~= head + (before + words::word_of(partition@[i as int] as int)));
    }
    assert(partition@.take(partition@.len() as int) =~= partition@);
    out
}

/// The call that merges; see [`pair_call`].
pub fn merge_calldata(
    collateral: &[u8; 20],
    condition_id: &[u8; 32],
    partition: &[u64],
    amount_units: u128,
) -> (r: Vec<u8>)
    ensures
        r@ == pair_call(
            selector("mergePositions(address,bytes32,bytes32,uint256[],uint256)"@),
            collateral@,
            condition_id@,
            partition@,
            amount_units as int,
        ),
        selector("mergePositions(address,bytes32,bytes32,uint256[],uint256)"@).len() == 4,
{
    write_pair_call(
        "mergePositions(address,bytes32,bytes32,uint256[],uint256)",
        collateral,
        condition_id,
        partition,
        amount_units,
    )
}

/// Reads a market's number: 32 bytes in hexadecimal, with or without `0x`.
pub fn condition_id_bytes(hex: &str) -> (r: Option<[u8; 32]>)
    ensures
        ({
            let s = text::unmarked(hex@);
            match r {
                Some(b) => digests::is_hex_text(s) && s.len() == 64 && b@ == digests::unhex(s),
                None => !digests::is_hex_text(s) || s.len() != 64,
            }
        }),
{
    match digests::hex_decode(text::strip_mark(hex).as_str()) {
        Ok(bytes) => {
            if bytes.len() != 32 {
                return None;
            }
            let mut o = [0u8; 32];
            for i in 0..32usize
                invariant
                    bytes@.len() == 32,
                    forall|j: int| 0 <= j < i ==> o@[j] == bytes@[j],
            {
                o[i] = bytes[i];
            }
            assert(o@ =~= bytes@);
            Some(o)
        },
        Err(_) => None,
    }
}

/// A pair that we hold although the leader holds neither leg.
#[derive(Debug, PartialEq, Eq)]
pub struct Orphan {
    pub condition_id: String,
    pub token_a: String,
    pub token_b: String,
    pub shares_a: i64,
    pub shares_b: i64,
}

/// What a pair says.
#[verifier::ext_equal]
pub struct OrphanView {
    pub condition_id: Seq<char>,
    pub token_a: Seq<char>,
    pub token_b: Seq<char>,
    pub shares_a: int,
    pub shares_b: int,
}

impl View for Orphan {
    type V = OrphanView;

    open spec fn view(&self) -> OrphanView {
        OrphanView {
            condition_id: self.condition_id@,
            token_a: self.token_a@,
            token_b: self.token_b@,
            shares_a: self.shares_a as int,
            shares_b: self.shares_b as int,
        }
    }
}

/// What these pairs say.
pub open spec fn orphan_views(v: Seq<Orphan>) -> Seq<OrphanView> {
    v.map_values(|o: Orphan| o@)
}

impl OrphanView {
    /// How much pairs off.
    pub open spec fn pairs(self) -> int {
        units::smaller(self.shares_a, self.shares_b)
    }

    /// What is left of the larger leg, where it is more than a millionth of a share.
    pub open spec fn rest(self) -> Option<(Seq<char>, int)> {
        let d = units::size_of(self.shares_a - self.shares_b);
        if d <= 1 {
            None
        } else if self.shares_a > self.shares_b {
            Some((self.token_a, d))
        } else {
            Some((self.token_b, d))
        }
    }
}

impl Orphan {
    /// How much pairs off.
    pub fn mergeable(&self) -> (r: i64)
        ensures
            r == self@.pairs(),
    {
        min64(self.shares_a, self.shares_b)
    }

    /// What is left of the larger leg; see [`OrphanView::rest`].
    pub fn residual(&self) -> (r: Option<(&str, i128)>)
        ensures
            match self@.rest() {
                Some(x) => r matches Some(y) && y.0@ == x.0 && y.1 == x.1,
                None => r is None,
            },
    {
        let d = abs_of(self.shares_a as i128 - self.shares_b as i128);
        if d <= 1 {
            None
        } else if self.shares_a > self.shares_b {
            Some((self.token_a.as_str(), d))
        } else {
            Some((self.token_b.as_str(), d))
        }
    }
}

/// The market of a holding, where it is known and more than a millionth is held.
pub open spec fn market_of(h: (String, i64), markets: Map<Seq<char>, String>) -> Option<Seq<char>> {
    if h.1 > 1 && markets.contains_key(h.0@) {
        Some(markets[h.0@]@)
    } else {
        None
    }
}

/// The markets of these holdings, each once, in the order of their first holding.
pub open spec fn markets_in(hs: Seq<(String, i64)>, markets: Map<Seq<char>, String>) -> Seq<
    Seq<char>,
>
    decreases hs.len(),
{
    if hs.len() == 0 {
        Seq::empty()
    } else {
        let before = markets_in(hs.drop_last(), markets);
        match market_of(hs.last(), markets) {
            Some(c) => if before.contains(c) {
                before
            } else {
                before.push(c)
            },
            None => before,
        }
    }
}

/// The holdings in one market, in order.
pub open spec fn legs_in(
    hs: Seq<(String, i64)>,
    markets: Map<Seq<char>, String>,
    c: Seq<char>,
) -> Seq<(Seq<char>, int)>
    decreases hs.len(),
{
    if hs.len() == 0 {
        Seq::empty()
    } else {
        let before = legs_in(hs.drop_last(), markets, c);
        if market_of(hs.last(), markets) == Some(c) {
            before.push((hs.last().0@, hs.last().1 as int))
        } else {
            before
        }
    }
}

/// Whether `keep` is what the two questions may answer of a market: that the leader is
/// flat there and that it has two outcomes.
pub open spec fn answered<F: Fn(&str) -> bool, G: Fn(&str) -> Option<usize>>(
    leader_flat: F,
    outcomes_of: G,
    c: Seq<char>,
    keep: bool,
) -> bool {
    exists|s: &str| #[trigger]
        s@ == c && (if keep {
            call_ensures(leader_flat, (s,), true) && call_ensures(outcomes_of, (s,), Some(2usize))
        } else {
            call_ensures(leader_flat, (s,), false) || exists|n: Option<usize>|
                n != Some(2usize) && #[trigger] call_ensures(outcomes_of, (s,), n)
        })
}

/// Whether `out` are the pairs among these markets: two holdings, a flat leader, and two
/// outcomes.
pub open spec fn pairs_among<F: Fn(&str) -> bool, G: Fn(&str) -> Option<usize>>(
    hs: Seq<(String, i64)>,
    markets: Map<Seq<char>, String>,
    leader_flat: F,
    outcomes_of: G,
    among: Seq<Seq<char>>,
    out: Seq<OrphanView>,
) -> bool
    decreases among.len(),
{
    if among.len() == 0 {
        out.len() == 0
    } else {
        let c = among.last();
        let legs = legs_in(hs, markets, c);
        let rest = among.drop_last();
        ||| {
            &&& legs.len() == 2
            &&& answered(leader_flat, outcomes_of, c, true)
            &&& out.len() > 0
            &&& out.last() == OrphanView {
                condition_id: c,
                token_a: legs[0].0,
                token_b: legs[1].0,
                shares_a: legs[0].1,
                shares_b: legs[1].1,
            }
            &&& pairs_among(hs, markets, leader_flat, outcomes_of, rest, out.drop_last())
        }
        ||| {
            &&& legs.len() != 2 || answered(leader_flat, outcomes_of, c, false)
            &&& pairs_among(hs, markets, leader_flat, outcomes_of, rest, out)
        }
    }
}

fn held_markets(holdings: &[(String, i64)], token_condition: &Table<String, String>) -> (r: Vec<
    String,
>)
    ensures
        text::texts(r@) == markets_in(holdings@, token_condition@),
{
    let ghost m = token_condition@;
    let mut out: Vec<String> = Vec::new();
    assert(text::texts(out@) =~= Seq::<Seq<char>>::empty());
    for i in 0..holdings.len()
        invariant
            m == token_condition@,
            text::texts(out@) == markets_in(holdings@.take(i as int), m),
    {
        assert(holdings@.take(i + 1).drop_last() =~= holdings@.take(i as int));
        let h = &holdings[i];
        if h.1 > 1 {
            if let Some(c) = token_condition.get(&h.0) {
                let ghost before = text::texts(out@);
                if !among(&out, c.as_str()) {
                    out.push(c.clone());
                    assert(text::texts(out@) =~= before.push(c@));
                }
            }
        }
    }
    assert(holdings@.take(holdings@.len() as int) =~= holdings@);
    out
}

fn among(v: &Vec<String>, c: &str) -> (r: bool)
    ensures
        r == text::texts(v@).contains(c@),
{
    for i in 0..v.len()
        invariant
            forall|j: int| 0 <= j < i ==> text::texts(v@)[j] != c@,
    {
        if text::same(v[i].as_str(), c) {
            assert(text::texts(v@)[i as int] == c@);
            return true;
        }
        assert(text::texts(v@)[i as int] == v@[i as int]@);
    }
    assert(forall|j: int| 0 <= j < v@.len() ==> text::texts(v@)[j] != c@);
    false
}

/// What these legs say.
pub open spec fn leg_views(v: Seq<(String, i64)>) -> Seq<(Seq<char>, int)> {
    v.map_values(|l: (String, i64)| (l.0@, l.1 as int))
}

fn held_legs(
    holdings: &[(String, i64)],
    token_condition: &Table<String, String>,
    c: &str,
) -> (r: Vec<(String, i64)>)
    ensures
        leg_views(r@) == legs_in(holdings@, token_condition@, c@),
{
    let ghost m = token_condition@;
    let mut out: Vec<(String, i64)> = Vec::new();
    assert(leg_views(out@) =~= Seq::<(Seq<char>, int)>::empty());
    for i in 0..holdings.len()
        invariant
            m == token_condition@,
            leg_views(out@) == legs_in(holdings@.take(i as int), m, c@),
    {
        assert(holdings@.take(i + 1).drop_last() =~= holdings@.take(i as int));
        let h = &holdings[i];
        if h.1 > 1 {
            if let Some(d) = token_condition.get(&h.0) {
                if text::same(d.as_str(), c) {
                    let ghost before = leg_views(out@);
                    out.push((h.0.clone(), h.1));
                    assert(leg_views(out@) =~= before.push((h.0@, h.1 as int)));
                }
            }
        }
    }
    assert(holdings@.take(holdings@.len() as int) =~= holdings@);
    out
}

/// The pairs that we hold in markets of two outcomes where the leader is flat, in the
/// order in which their markets are first held.
pub fn find_orphans<F: Fn(&str) -> bool, G: Fn(&str) -> Option<usize>>(
    holdings: &[(String, i64)],
    token_condition: &Table<String, String>,
    leader_flat: F,
    outcomes_of: G,
) -> (r: Vec<Orphan>)
    requires
        forall|s: &str| #[trigger] call_requires(leader_flat, (s,)),
        forall|s: &str| #[trigger] call_requires(outcomes_of, (s,)),
    ensures
        pairs_among(
            holdings@,
            token_condition@,
            leader_flat,
            outcomes_of,
            markets_in(holdings@, token_condition@),
            orphan_views(r@),
        ),
{
    let ghost m = token_condition@;
    let conds = held_markets(holdings, token_condition);
    let ghost all = text::texts(conds@);
    let mut out: Vec<Orphan> = Vec::new();
    for i in 0..conds.len()
        invariant
            m == token_condition@,
            all == text::texts(conds@),
            forall|s: &str| #[trigger] call_requires(leader_flat, (s,)),
            forall|s: &str| #[trigger] call_requires(outcomes_of, (s,)),
            pairs_among(
                holdings@,
                m,
                leader_flat,
                outcomes_of,
                all.take(i as int),
                orphan_views(out@),
            ),
    {
        let c = conds[i].as_str();
        let ghost before = orphan_views(out@);
        assert(all.take(i + 1).drop_last() =~= all.take(i as int));
        assert(all.take(i + 1).last() == c@);
        let legs = held_legs(holdings, token_condition, c);
        assert(leg_views(legs@).len() == legs@.len());
        if legs.len() == 2 {
            if leader_flat(c) {
                let n = outcomes_of(c);
                let two = match n {
                    Some(k) => k == 2,
                    None => false,
                };
                if two {
                    assert(answered(leader_flat, outcomes_of, c@, true));
                    let o = Orphan {
                        condition_id: conds[i].clone(),
                        token_a: legs[0].0.clone(),
                        token_b: legs[1].0.clone(),
                        shares_a: legs[0].1,
                        shares_b: legs[1].1,
                    };
                    let ghost v = o@;
                    out.push(o);
                    assert(orphan_views(out@) =~= before.push(v));
                    assert(orphan_views(out@).drop_last() =~= before);
                    assert(leg_views(legs@)[0] == (legs@[0].0@, legs@[0].1 as int));
                    assert(leg_views(legs@)[1] == (legs@[1].0@, legs@[1].1 as int));
                } else {
                    assert(call_ensures(outcomes_of, (c,), n) && n != Some(2usize));
                    assert(answered(leader_flat, outcomes_of, c@, false));
                }
            } else {
                assert(answered(leader_flat, outcomes_of, c@, false));
            }
        }
    }
    assert(all.take(all.len() as int) =~= all);
    out
}

/// How a pair is closed.
#[derive(Debug, PartialEq, Eq)]
pub enum ReconAction {
    MergeThenSellResidual {
        condition_id: String,
        yes_token: String,
        no_token: String,
        amount: i64,
        residual: Option<(String, i128)>,
    },
    SellBoth { yes_token: String, no_token: String, shares_a: i64, shares_b: i64 },
}

/// Whether `a` closes the pair `o`: merged with the rest sold, or both legs sold.
pub open spec fn closes(o: OrphanView, merge_enabled: bool, a: ReconAction) -> bool {
    match a {
        ReconAction::MergeThenSellResidual {
            condition_id,
            yes_token,
            no_token,
            amount,
            residual,
        } => {
            &&& merge_enabled
            &&& condition_id@ == o.condition_id
            &&& yes_token@ == o.token_a
            &&& no_token@ == o.token_b
            &&& amount == o.pairs()
            &&& match o.rest() {
                Some(x) => residual matches Some(y) && y.0@ == x.0 && y.1 == x.1,
                None => residual is None,
            }
        },
        ReconAction::SellBoth { yes_token, no_token, shares_a, shares_b } => {
            &&& !merge_enabled
            &&& yes_token@ == o.token_a
            &&& no_token@ == o.token_b
            &&& shares_a == o.shares_a
            &&& shares_b == o.shares_b
        },
    }
}

/// How each pair is closed; see [`closes`].
pub fn plan_reconciliation(orphans: &[Orphan], merge_enabled: bool) -> (r: Vec<ReconAction>)
    ensures
        r@.len() == orphans@.len(),
        forall|i: int|
            0 <= i < r@.len() ==> closes(orphans@[i]@, merge_enabled, #[trigger] r@[i]),
{
    let mut out: Vec<ReconAction> = Vec::new();
    for i in 0..orphans.len()
        invariant
            out@.len() == i,
            forall|k: int|
                0 <= k < out@.len() ==> closes(orphans@[k]@, merge_enabled, #[trigger] out@[k]),
    {
        let o = &orphans[i];
        if merge_enabled {
            let residual = match o.residual() {
                Some((t, d)) => Some((text::owned(t), d)),
                None => None,
            };
            out.push(
                ReconAction::MergeThenSellResidual {
                    condition_id: o.condition_id.clone(),
                    yes_token: o.token_a.clone(),
                    no_token: o.token_b.clone(),
                    amount: o.mergeable(),
                    residual,
                },
            );
        } else {
            out.push(
                ReconAction::SellBoth {
                    yes_token: o.token_a.clone(),
                    no_token: o.token_b.clone(),
                    shares_a: o.shares_a,
                    shares_b: o.shares_b,
                },
            );
        }
    }
    out
}

/// Merging and selling the rest leaves nothing of a pair: what is merged of a leg and
/// what is sold of it make up the leg, but for a millionth of a share.
pub proof fn reconciliation_is_complete(o: OrphanView)
    requires
        o.token_a != o.token_b,
    ensures
        match o.rest() {
            Some((t, d)) => {
                &&& d > 1
                &&& t == o.token_a ==> o.pairs() + d == o.shares_a && o.pairs() == o.shares_b
                &&& t == o.token_b ==> o.pairs() + d == o.shares_b && o.pairs() == o.shares_a
            },
            None => o.shares_a - o.pairs() <= 1 && o.shares_b - o.pairs() <= 1,
        },
{
}

/// A merge that we write reads as that merge: the market, the amount and the collateral
/// come back.
pub proof fn merge_reads_back(
    collateral: Seq<u8>,
    condition_id: Seq<u8>,
    partition: Seq<u64>,
    amount_units: u128,
)
    requires
        collateral.len() == 20,
        condition_id.len() == 32,
        !words::is_zero(condition_id),
        0 < amount_units <= mergewatch::MAX_MERGE_SHARES,
    ensures
        mergewatch::action_at(
            pair_call(
                mergewatch::MERGE_SELECTOR@,
                collateral,
                condition_id,
                partition,
                amount_units as int,
            ),
            0,
        ) == Some(
            (
                mergewatch::MergeView {
                    kind: mergewatch::PairKind::Merge,
                    condition_id: text::hex_of(condition_id),
                    shares: amount_units as int,
                    collateral,
                    sized: true,
                },
                164int,
            ),
        ),
{
    let b = pair_call(
        mergewatch::MERGE_SELECTOR@,
        collateral,
        condition_id,
        partition,
        amount_units as int,
    );
    call_words(mergewatch::MERGE_SELECTOR@, collateral, condition_id, partition, amount_units);
    assert(b.subrange(0, 4) =~= mergewatch::MERGE_SELECTOR@);
    assert(words::address_word(collateral).skip(12) =~= collateral);
    assert(b[0] == 0x9e);
    if words::holds_at(b, 0, mergewatch::NEG_RISK_SPLIT_SELECTOR@) {
        assert(b.subrange(0, 4)[0] == 0xa3);
    }
    if words::holds_at(b, 0, mergewatch::NEG_RISK_MERGE_SELECTOR@) {
        assert(b.subrange(0, 4)[0] == 0xb1);
    }
}

/// The words of a call that merges or splits.
pub proof fn call_words(
    sel: Seq<u8>,
    collateral: Seq<u8>,
    condition_id: Seq<u8>,
    partition: Seq<u64>,
    amount_units: u128,
)
    requires
        sel.len() == 4,
        collateral.len() == 20,
        condition_id.len() == 32,
    ensures
        ({
            let b = pair_call(sel, collateral, condition_id, partition, amount_units as int);
            &&& words::word_at(b, 4) == Some(words::address_word(collateral))
            &&& words::word_at(b, 36) == Some(Seq::new(32, |i: int| 0u8))
            &&& words::word_at(b, 68) == Some(condition_id)
            &&& words::small_at(b, 100) == Some(160int)
            &&& words::large_at(b, 132) == Some(amount_units as int)
        }),
{
    let b = pair_call(sel, collateral, condition_id, partition, amount_units as int);
    words::word_reads_back(160);
    words::word_reads_back(amount_units);
    words::word_reads_back(partition.len() as u128);
    let w = words::word_of(160);
    let x = words::word_of(amount_units as int);
    assert(b.subrange(4, 36) =~= words::address_word(collateral));
    assert(b.subrange(36, 68) =~= Seq::new(32, |i: int| 0u8));
    assert(b.subrange(68, 100) =~= condition_id);
    assert(b.subrange(100, 132) =~= w);
    assert(b.subrange(132, 164) =~= x);
    assert(w.subrange(0, 32) =~= w);
    assert(x.subrange(0, 32) =~= x);
}

} // verus!
