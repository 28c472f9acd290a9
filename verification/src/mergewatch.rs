//! Reading merges and splits of complementary tokens out of the leader's calldata,
//! and answering them with our own.

use vstd::prelude::*;
use crate::text;
use crate::text::owned;
use crate::units;
use crate::units::{max64, min64, min_of, Qty};
use crate::words;

verus! {

/// The selector of a Safe's `execTransaction`.
pub const SAFE_EXEC_SELECTOR: [u8; 4] = [0x6a, 0x76, 0x12, 0x02];

/// The selector of `multiSend`.
pub const MULTISEND_SELECTOR: [u8; 4] = [0x8d, 0x80, 0xff, 0x0a];

/// The selector of a merge of positions.
pub const MERGE_SELECTOR: [u8; 4] = [0x9e, 0x72, 0x12, 0xad];

/// The selector of a split of a position.
pub const SPLIT_SELECTOR: [u8; 4] = [0x72, 0xce, 0x42, 0x75];

/// The selector of a split by the adapter for exclusive outcomes.
pub const NEG_RISK_SPLIT_SELECTOR: [u8; 4] = [0xa3, 0xd7, 0xda, 0x1d];

/// The selector of a merge by the adapter for exclusive outcomes.
pub const NEG_RISK_MERGE_SELECTOR: [u8; 4] = [0xb1, 0x0c, 0x5c, 0x17];

/// Units of the collateral in one whole.
pub const COLLATERAL_DECIMALS: i64 = 1_000_000;

/// The collateral that the markets settle in.
pub const OBSERVED_COLLATERAL: [u8; 20] = [
    0xc0,
    0x11,
    0xa7,
    0xe1,
    0x2a,
    0x19,
    0xf7,
    0xb1,
    0xf6,
    0x70,
    0xd4,
    0x6f,
    0x03,
    0xb0,
    0x3f,
    0x33,
    0x42,
    0xe8,
    0x2d,
    0xfb,
];

/// The most shares that one merge is believed to move, in millionths.
pub const MAX_MERGE_SHARES: i64 = 1_000_000_000_000_000;

/// How many actions are read out of one transaction.
pub const MAX_BATCH_CALLS: usize = 64;

/// How deep calls may be nested.
pub const MAX_DEPTH: usize = 4;

/// Where the partition of a merge stands among its arguments.
pub const PARTITION_OFFSET: u64 = 0xa0;

/// Whether tokens are merged into collateral or split out of it.
#[derive(Debug, Clone, Copy, PartialEq, Eq, Structural)]
pub enum PairKind {
    Merge,
    Split,
}

/// One merge or split. Without a size, only the market is known.
#[derive(Debug)]
pub struct Merge {
    pub kind: PairKind,
    pub condition_id: String,
    pub shares: i64,
    pub collateral: [u8; 20],
    pub sized: bool,
}

/// What a merge or split says.
#[verifier::ext_equal]
pub struct MergeView {
    pub kind: PairKind,
    pub condition_id: Seq<char>,
    pub shares: int,
    pub collateral: Seq<u8>,
    pub sized: bool,
}

impl View for Merge {
    type V = MergeView;

    open spec fn view(&self) -> MergeView {
        MergeView {
            kind: self.kind,
            condition_id: self.condition_id@,
            shares: self.shares as int,
            collateral: self.collateral@,
            sized: self.sized,
        }
    }
}

/// What these actions say.
pub open spec fn actions(v: Seq<Merge>) -> Seq<MergeView> {
    v.map_values(|m: Merge| m@)
}

/// An action of the adapter at `i`: its selector and a market.
pub open spec fn adapter_at(b: Seq<u8>, i: int, sel: Seq<u8>, kind: PairKind) -> Option<MergeView> {
    match words::word_at(b, i + 4) {
        Some(c) => if words::holds_at(b, i, sel) && !words::is_zero(c) {
            Some(
                MergeView {
                    kind,
                    condition_id: text::hex_of(c),
                    shares: 0,
                    collateral: Seq::new(20, |k: int| 0u8),
                    sized: false,
                },
            )
        } else {
            None
        },
        None => None,
    }
}

/// An action with a size at `i`: its selector, no parent collection, a market, the
/// partition where it belongs, and an amount within reason.
pub open spec fn sized_at(b: Seq<u8>, i: int, sel: Seq<u8>, kind: PairKind) -> Option<MergeView> {
    match (
        words::word_at(b, i + 4),
        words::word_at(b, i + 4 + 32),
        words::word_at(b, i + 4 + 64),
        words::small_at(b, i + 4 + 96),
        words::large_at(b, i + 4 + 128),
    ) {
        (Some(money), Some(parent), Some(c), Some(part), Some(amount)) => if words::holds_at(
            b,
            i,
            sel,
        ) && words::is_zero(parent) && !words::is_zero(c) && part == PARTITION_OFFSET && 0 < amount
            <= MAX_MERGE_SHARES {
            Some(
                MergeView {
                    kind,
                    condition_id: text::hex_of(c),
                    shares: amount,
                    collateral: money.skip(12),
                    sized: true,
                },
            )
        } else {
            None
        },
        _ => None,
    }
}

/// The action that stands at `i`, and how many bytes it takes.
pub open spec fn action_at(b: Seq<u8>, i: int) -> Option<(MergeView, int)> {
    match adapter_at(b, i, NEG_RISK_SPLIT_SELECTOR@, PairKind::Split) {
        Some(m) => Some((m, 68)),
        None => match adapter_at(b, i, NEG_RISK_MERGE_SELECTOR@, PairKind::Merge) {
            Some(m) => Some((m, 68)),
            None => match sized_at(b, i, MERGE_SELECTOR@, PairKind::Merge) {
                Some(m) => Some((m, 164)),
                None => match sized_at(b, i, SPLIT_SELECTOR@, PairKind::Split) {
                    Some(m) => Some((m, 164)),
                    None => None,
                },
            },
        },
    }
}

/// The actions from `i` on, at most `room` of them; what stands inside an action is
/// not read again.
pub open spec fn actions_from(b: Seq<u8>, i: int, room: int) -> Seq<MergeView>
    decreases b.len() - i,
{
    if i + 68 > b.len() || room <= 0 {
        Seq::empty()
    } else {
        match action_at(b, i) {
            Some((m, step)) => if step > 0 {
                seq![m] + actions_from(b, i + step, room - 1)
            } else {
                Seq::empty()
            },
            None => actions_from(b, i + 1, room),
        }
    }
}

fn adapter(b: &[u8], i: usize, sel: &[u8; 4], kind: PairKind) -> (r: Option<Merge>)
    ensures
        match adapter_at(b@, i as int, sel@, kind) {
            Some(m) => r matches Some(n) && n@ == m,
            None => r is None,
        },
{
    match words::word(b, i as u128 + 4) {
        None => None,
        Some(c) => {
            assert(c@.subrange(0, 32) =~= c@);
            if words::selects(b, i, sel) && !words::zeros(&c, 0, 32) {
                let m = Merge {
                    kind,
                    condition_id: text::hex_text(&c),
                    shares: 0,
                    collateral: [0u8;20],
                    sized: false,
                };
                assert(m@.collateral =~= Seq::new(20, |k: int| 0u8));
                Some(m)
            } else {
                None
            }
        },
    }
}

fn sized(b: &[u8], i: usize, sel: &[u8; 4], kind: PairKind) -> (r: Option<Merge>)
    ensures
        match sized_at(b@, i as int, sel@, kind) {
            Some(m) => r matches Some(n) && n@ == m,
            None => r is None,
        },
{
    let at: u128 = i as u128 + 4;
    match (
        words::word(b, at),
        words::word(b, at + 32),
        words::word(b, at + 64),
        words::small(b, at + 96),
        words::large(b, at + 128),
    ) {
        (Some(money), Some(parent), Some(c), Some(part), Some(amount)) => {
            assert(c@.subrange(0, 32) =~= c@);
            assert(parent@.subrange(0, 32) =~= parent@);
            if words::selects(b, i, sel) && words::zeros(&parent, 0, 32) && !words::zeros(&c, 0, 32)
                && part == PARTITION_OFFSET && amount > 0 && amount <= MAX_MERGE_SHARES as u128 {
                Some(
                    Merge {
                        kind,
                        condition_id: text::hex_text(&c),
                        shares: amount as i64,
                        collateral: words::tail20(&money),
                        sized: true,
                    },
                )
            } else {
                None
            }
        },
        _ => None,
    }
}

fn action(b: &[u8], i: usize) -> (r: Option<(Merge, usize)>)
    ensures
        match action_at(b@, i as int) {
            Some(a) => r matches Some(c) && c.0@ == a.0 && c.1 == a.1 && (c.1 == 68 || c.1 == 164),
            None => r is None,
        },
{
    match adapter(b, i, &NEG_RISK_SPLIT_SELECTOR, PairKind::Split) {
        Some(m) => Some((m, 68)),
        None => match adapter(b, i, &NEG_RISK_MERGE_SELECTOR, PairKind::Merge) {
            Some(m) => Some((m, 68)),
            None => match sized(b, i, &MERGE_SELECTOR, PairKind::Merge) {
                Some(m) => Some((m, 164)),
                None => match sized(b, i, &SPLIT_SELECTOR, PairKind::Split) {
                    Some(m) => Some((m, 164)),
                    None => None,
                },
            },
        },
    }
}

proof fn sized_action_fits(b: Seq<u8>, i: int)
    requires
        0 <= i,
        i + 68 <= b.len(),
    ensures
        action_at(b, i) matches Some(a) ==> i + a.1 <= b.len(),
{
}

/// The merges and splits in the calldata, in the order in which they stand there.
pub fn decode_pair_actions(calldata: &[u8]) -> (r: Vec<Merge>)
    ensures
        actions(r@) == actions_from(calldata@, 0, MAX_BATCH_CALLS as int),
{
    let mut out: Vec<Merge> = Vec::new();
    assert(actions(out@) =~= Seq::<MergeView>::empty());
    let ghost all = actions_from(calldata@, 0, MAX_BATCH_CALLS as int);
    let mut i: usize = 0;
    assert(all =~= actions(out@) + actions_from(calldata@, 0, MAX_BATCH_CALLS - out@.len()));
    while calldata.len() - i >= 68 && out.len() < MAX_BATCH_CALLS
        invariant
            i <= calldata@.len(),
            out@.len() <= MAX_BATCH_CALLS,
            all == actions(out@) + actions_from(
                calldata@,
                i as int,
                MAX_BATCH_CALLS - out@.len(),
            ),
        decreases calldata@.len() - i,
    {
        let ghost before = actions(out@);
        let ghost room = MAX_BATCH_CALLS - out@.len();
        match action(calldata, i) {
            Some((m, step)) => {
                proof {
                    sized_action_fits(calldata@, i as int);
                }
                let ghost v = m@;
                out.push(m);
                assert(actions(out@) =~= before.push(v));
                assert(all =~= actions(out@) + actions_from(calldata@, i + step, room - 1));
                i = i + step;
            },
            None => {
                i = i + 1;
            },
        }
    }
    assert(all =~= actions(out@));
    out
}

/// The merges among these actions.
pub open spec fn merges_of(s: Seq<MergeView>) -> Seq<MergeView>
    decreases s.len(),
{
    if s.len() == 0 {
        Seq::empty()
    } else if s.last().kind == PairKind::Merge {
        merges_of(s.drop_last()).push(s.last())
    } else {
        merges_of(s.drop_last())
    }
}

/// The merges in the calldata.
pub fn decode_merges(calldata: &[u8]) -> (r: Vec<Merge>)
    ensures
        actions(r@) == merges_of(actions_from(calldata@, 0, MAX_BATCH_CALLS as int)),
{
    let all = decode_pair_actions(calldata);
    let ghost av = actions(all@);
    let mut out: Vec<Merge> = Vec::new();
    assert(actions(out@) =~= Seq::<MergeView>::empty());
    for i in 0..all.len()
        invariant
            av == actions(all@),
            actions(out@) == merges_of(av.take(i as int)),
    {
        assert(av.take(i + 1).drop_last() =~= av.take(i as int));
        let ghost before = actions(out@);
        if all[i].kind == PairKind::Merge {
            out.push(all[i].copy());
            assert(actions(out@) =~= before.push(av[i as int]));
        }
    }
    assert(av.take(av.len() as int) =~= av);
    out
}

impl Merge {
    /// A copy of an action.
    pub fn copy(&self) -> (r: Merge)
        ensures
            r@ == self@,
    {
        Merge {
            kind: self.kind,
            condition_id: self.condition_id.clone(),
            shares: self.shares,
            collateral: self.collateral,
            sized: self.sized,
        }
    }
}

/// Whether a transaction goes to the leader's Safe.
pub open spec fn goes_to(tx_to: Seq<char>, leader: Seq<u8>) -> bool {
    text::lower_of(text::bare(tx_to)) == text::lower_of(text::hex_of(leader))
}

/// Whether a transaction goes to the leader's Safe.
pub fn is_leader_safe(tx_to: &str, leader: &[u8; 20]) -> (r: bool)
    ensures
        r == goes_to(tx_to@, leader@),
{
    let v = text::chars_of(tx_to);
    let b = text::strip_0x(&v);
    let t = text::text_of(&b);
    let l = text::lower_chars(t.as_str());
    let want = text::hex_text(leader);
    let w = text::lower_chars(want.as_str());
    text::same(text::text_of(&l).as_str(), text::text_of(&w).as_str())
}

/// The lane that owns a transaction: the first whose leader's Safe it goes to.
pub open spec fn owner_of(tx_to: Seq<char>, lanes: Seq<(usize, [u8; 20])>, i: int) -> Option<usize>
    decreases lanes.len() - i,
{
    if i < 0 || i >= lanes.len() {
        None
    } else if goes_to(tx_to, lanes[i].1@) {
        Some(lanes[i].0)
    } else {
        owner_of(tx_to, lanes, i + 1)
    }
}

/// The actions of a transaction, each with the lane that it is of.
pub open spec fn routed(tx_to: Seq<char>, calldata: Seq<u8>, lanes: Seq<(usize, [u8; 20])>) -> Seq<
    (usize, MergeView),
> {
    let all = actions_from(calldata, 0, MAX_BATCH_CALLS as int);
    match owner_of(tx_to, lanes, 0) {
        Some(ix) => all.map_values(|m: MergeView| (ix, m)),
        None => Seq::empty(),
    }
}

/// Actions with their lanes.
pub open spec fn routed_views(v: Seq<(usize, Merge)>) -> Seq<(usize, MergeView)> {
    v.map_values(|e: (usize, Merge)| (e.0, e.1@))
}

/// The actions of a transaction, for the lane that owns it; nothing where none does.
pub fn route(tx_to: &str, calldata: &[u8], lanes: &[(usize, [u8; 20])]) -> (r: Vec<(usize, Merge)>)
    ensures
        match owner_of(tx_to@, lanes@, 0) {
            Some(ix) => {
                let all = actions_from(calldata@, 0, MAX_BATCH_CALLS as int);
                r@.len() == all.len() && forall|k: int|
                    0 <= k < all.len() ==> (#[trigger] r@[k]).0 == ix && r@[k].1@ == all[k]
            },
            None => r@.len() == 0,
        },
        routed_views(r@) == routed(tx_to@, calldata@, lanes@),
{
    let mut owner: Option<usize> = None;
    let mut i: usize = 0;
    while i < lanes.len() && owner.is_none()
        invariant
            i <= lanes@.len(),
            owner is None ==> owner_of(tx_to@, lanes@, 0) == owner_of(tx_to@, lanes@, i as int),
            owner is Some ==> owner == owner_of(tx_to@, lanes@, 0),
        decreases lanes@.len() - i,
    {
        if is_leader_safe(tx_to, &lanes[i].1) {
            owner = Some(lanes[i].0);
        }
        i = i + 1;
    }
    let mut out: Vec<(usize, Merge)> = Vec::new();
    if let Some(ix) = owner {
        let all = decode_pair_actions(calldata);
        let ghost av = actions(all@);
        for k in 0..all.len()
            invariant
                av == actions(all@),
                out@.len() == k,
                forall|j: int| 0 <= j < k ==> (#[trigger] out@[j]).0 == ix && out@[j].1@ == av[j],
        {
            out.push((ix, all[k].copy()));
        }
    }
    out
}

/// What we do when the leader merges.
#[derive(Debug)]
pub struct MergeResponse {
    pub merge_pairs: i64,
    pub flatten: Option<(String, i64)>,
    pub note: &'static str,
}

/// How many of the leader's pairs are ours to follow, rounded down to a millionth.
pub open spec fn intended(his_pairs: int, fraction: int) -> int {
    his_pairs * fraction / units::ONE as int
}

/// The leg that is to be sold when the leader merges, and how much of it.
pub open spec fn leg_to_sell(
    a: int,
    b: int,
    token_a: Seq<char>,
    token_b: Seq<char>,
    want: int,
) -> Option<(Seq<char>, int)> {
    let pairs = units::smaller(want, units::smaller(a, b));
    if pairs <= 0 {
        if a > 0 {
            Some((token_a, units::smaller(a, want)))
        } else if b > 0 {
            Some((token_b, units::smaller(b, want)))
        } else {
            None
        }
    } else {
        let ea = a - pairs;
        let eb = b - pairs;
        if ea > 0 && ea >= eb {
            Some((token_a, units::smaller(ea, want)))
        } else if eb > 0 {
            Some((token_b, units::smaller(eb, want)))
        } else {
            None
        }
    }
}

/// Whether an amount and a token are what is wanted.
pub open spec fn sells(r: Option<(String, i64)>, want: Option<(Seq<char>, int)>) -> bool {
    match want {
        Some(w) => r matches Some(s) && s.0@ == w.0 && s.1 == w.1,
        None => r is None,
    }
}

/// What an answer to a merge says.
#[verifier::ext_equal]
pub struct ResponseView {
    pub merge_pairs: int,
    pub flatten: Option<(Seq<char>, int)>,
    pub note: Seq<char>,
}

/// The answer to a merge of the leader, where there is one.
pub open spec fn response(
    ours_a: i64,
    ours_b: i64,
    token_a: Seq<char>,
    token_b: Seq<char>,
    his_pairs: i64,
    our_fraction: Qty,
) -> Option<ResponseView> {
    match our_fraction {
        Qty::Finite(f) => if his_pairs > 0 && f > 0 {
            let a = units::larger(ours_a as int, 0);
            let b = units::larger(ours_b as int, 0);
            let want = intended(his_pairs as int, f as int);
            let pairs = units::smaller(want, units::smaller(a, b));
            let leg = leg_to_sell(a, b, token_a, token_b, want);
            if pairs > 0 {
                Some(
                    ResponseView {
                        merge_pairs: pairs,
                        flatten: leg,
                        note: "merge the matched pairs at $1, sell the leg that could not pair"@,
                    },
                )
            } else if leg is Some {
                Some(
                    ResponseView {
                        merge_pairs: 0,
                        flatten: leg,
                        note:
                            "we hold ONE leg only — nothing pairs off, so his exit is ours to sell"@,
                    },
                )
            } else {
                None
            }
        } else {
            None
        },
        Qty::NotFinite => None,
    }
}

/// Whether an answer is the one that is wanted.
pub open spec fn responds(r: Option<MergeResponse>, want: Option<ResponseView>) -> bool {
    match want {
        Some(w) => r matches Some(m) && m.merge_pairs == w.merge_pairs && sells(
            m.flatten,
            w.flatten,
        ) && m.note@ == w.note,
        None => r is None,
    }
}

/// What we do when the leader merges `his_pairs`: merge as many pairs as our part of
/// them and what we hold allow, and sell the leg that could not pair. Nothing where
/// there is nothing to follow or nothing held.
pub fn plan_response(
    ours_a: i64,
    ours_b: i64,
    token_a: &str,
    token_b: &str,
    his_pairs: i64,
    our_fraction: Qty,
) -> (r: Option<MergeResponse>)
    ensures
        match our_fraction {
            Qty::Finite(f) => if his_pairs > 0 && f > 0 {
                let a = units::larger(ours_a as int, 0);
                let b = units::larger(ours_b as int, 0);
                let want = intended(his_pairs as int, f as int);
                let pairs = units::smaller(want, units::smaller(a, b));
                let leg = leg_to_sell(a, b, token_a@, token_b@, want);
                if pairs > 0 {
                    r matches Some(m) && m.merge_pairs == pairs && sells(m.flatten, leg) && m.note@
                        == "merge the matched pairs at $1, sell the leg that could not pair"@
                } else if leg is Some {
                    r matches Some(m) && m.merge_pairs == 0 && sells(m.flatten, leg) && m.note@
                        == "we hold ONE leg only — nothing pairs off, so his exit is ours to sell"@
                } else {
                    r is None
                }
            } else {
                r is None
            },
            Qty::NotFinite => r is None,
        },
        responds(r, response(ours_a, ours_b, token_a@, token_b@, his_pairs, our_fraction)),
{
    let f: i64 = match our_fraction {
        Qty::Finite(f) => f,
        Qty::NotFinite => 0,
    };
    if his_pairs <= 0 || f <= 0 {
        return None;
    }
    let a = max64(ours_a, 0);
    let b = max64(ours_b, 0);
    let product = units::product(his_pairs, f);
    assert(product > 0) by (nonlinear_arith)
        requires
            product == his_pairs * f,
            his_pairs > 0,
            f > 0,
    ;
    let want: i128 = product / 1_000_000;
    let pairs = min_of(want, min64(a, b) as i128) as i64;
    if pairs <= 0 {
        let held = if a > 0 {
            Some((owned(token_a), min_of(a as i128, want) as i64))
        } else if b > 0 {
            Some((owned(token_b), min_of(b as i128, want) as i64))
        } else {
            None
        };
        return match held {
            Some(h) => Some(
                MergeResponse {
                    merge_pairs: 0,
                    flatten: Some(h),
                    note: "we hold ONE leg only — nothing pairs off, so his exit is ours to sell",
                },
            ),
            None => None,
        };
    }
    let ea: i64 = a - pairs;
    let eb: i64 = b - pairs;
    let flatten = if ea > 0 && ea >= eb {
        Some((owned(token_a), min_of(ea as i128, want) as i64))
    } else if eb > 0 {
        Some((owned(token_b), min_of(eb as i128, want) as i64))
    } else {
        None
    };
    Some(
        MergeResponse {
            merge_pairs: pairs,
            flatten,
            note: "merge the matched pairs at $1, sell the leg that could not pair",
        },
    )
}

/// An answer to a merge never disposes of more of a token than is held of it.
pub proof fn response_stays_within_holdings(
    a: int,
    b: int,
    token_a: Seq<char>,
    token_b: Seq<char>,
    want: int,
)
    requires
        a >= 0,
        b >= 0,
        want >= 0,
        token_a != token_b,
    ensures
        ({
            let pairs = units::larger(units::smaller(want, units::smaller(a, b)), 0);
            let leg = leg_to_sell(a, b, token_a, token_b, want);
            &&& pairs <= a && pairs <= b
            &&& leg matches Some(l) ==> l.1 >= 0 && (l.0 == token_a ==> pairs + l.1 <= a) && (l.0
                == token_b ==> pairs + l.1 <= b)
        }),
{
}

} // verus!
