//! Positions that we still hold although the leader has left.

use vstd::prelude::*;
use crate::sorting;
use crate::text;
use crate::text::dec_u128;
use crate::units;
use crate::units::max_of;

verus! {

/// One position: ours, the leader's, and what of either does not count.
#[derive(Debug, PartialEq, Eq)]
pub struct Holding {
    pub lane: String,
    pub token: String,
    pub ours: i64,
    pub his: i64,
    pub reserved: i64,
    pub legacy: i64,
}

/// What a position says.
#[verifier::ext_equal]
pub struct HoldingView {
    pub lane: Seq<char>,
    pub token: Seq<char>,
    pub ours: int,
    pub his: int,
    pub reserved: int,
    pub legacy: int,
}

impl View for Holding {
    type V = HoldingView;

    open spec fn view(&self) -> HoldingView {
        HoldingView {
            lane: self.lane@,
            token: self.token@,
            ours: self.ours as int,
            his: self.his as int,
            reserved: self.reserved as int,
            legacy: self.legacy as int,
        }
    }
}

impl HoldingView {
    /// What is not on its way out already.
    pub open spec fn free(self) -> int {
        units::larger(self.ours - self.reserved, 0)
    }

    /// Whether the leader has left: nothing is held but what was held before us.
    pub open spec fn left(self) -> bool {
        units::larger(self.his - self.legacy, 0) <= 0
    }

    /// Whether we hold anything.
    pub open spec fn is_held(self) -> bool {
        self.ours > 0
    }

    /// Whether the position is stranded.
    pub open spec fn is_orphan(self, min_shares: int) -> bool {
        self.is_held() && self.left() && self.free() >= min_shares
    }
}

impl Holding {
    /// What is not on its way out already.
    pub fn strandable(&self) -> (r: i128)
        ensures
            r == self@.free(),
    {
        max_of(self.ours as i128 - self.reserved as i128, 0)
    }

    fn he_is_out(&self) -> (r: bool)
        ensures
            r == self@.left(),
    {
        self.his as i128 - self.legacy as i128 <= 0
    }

    /// A copy of a position.
    pub fn copy(&self) -> (r: Holding)
        ensures
            r@ == self@,
    {
        Holding {
            lane: self.lane.clone(),
            token: self.token.clone(),
            ours: self.ours,
            his: self.his,
            reserved: self.reserved,
            legacy: self.legacy,
        }
    }
}

/// What is to be done about stranded positions.
#[derive(Debug, PartialEq, Eq)]
pub enum Sweep {
    Idle,
    Fire(Vec<Holding>),
    Refused { why: String, would_have_fired: usize, held: usize },
}

/// The least that is sold, in millionths of a share.
pub const MIN_SHARES: i64 = 1_000_000;

/// From what part of the book on the reading is doubted, in millionths.
pub const MAX_ORPHAN_FRAC: i64 = 340_000;

/// Up to how many positions that part is not judged.
pub const FRAC_APPLIES_ABOVE: usize = 5;

/// How many positions one sweep sells.
pub const MAX_PER_SWEEP: usize = 3;

/// What these positions say.
pub open spec fn views(v: Seq<Holding>) -> Seq<HoldingView> {
    v.map_values(|h: Holding| h@)
}

/// How many positions are held.
pub open spec fn held_count(rows: Seq<HoldingView>) -> nat
    decreases rows.len(),
{
    if rows.len() == 0 {
        0
    } else {
        held_count(rows.drop_last()) + (if rows.last().is_held() {
            1nat
        } else {
            0
        })
    }
}

/// The stranded positions, in order.
pub open spec fn orphans(rows: Seq<HoldingView>, min_shares: int) -> Seq<HoldingView>
    decreases rows.len(),
{
    if rows.len() == 0 {
        Seq::empty()
    } else if rows.last().is_orphan(min_shares) {
        orphans(rows.drop_last(), min_shares).push(rows.last())
    } else {
        orphans(rows.drop_last(), min_shares)
    }
}

/// What is free of these positions.
pub open spec fn free_of(rows: Seq<HoldingView>) -> Seq<i128> {
    rows.map_values(|h: HoldingView| h.free() as i128)
}

/// Whether so many of the positions look stranded at once that the reading is doubted.
pub open spec fn is_mass(n: int, held: int) -> bool {
    held > FRAC_APPLIES_ABOVE && n * units::ONE >= held * MAX_ORPHAN_FRAC
}

/// `n` out of `held` in hundredths, rounded half to even.
pub open spec fn percent(n: int, held: int) -> nat {
    let q = n * 100 / held;
    let r = n * 100 % held;
    (if 2 * r > held || (2 * r == held && q % 2 == 1) {
        q + 1
    } else {
        q
    }) as nat
}

/// Whether `s` is what is to be done: nothing without a stranded position; refusal
/// where a good part of the book looks stranded at once; else the largest of them are
/// sold, no more than one sweep sells.
pub open spec fn plans(rows: Seq<HoldingView>, min_shares: int, s: Sweep) -> bool {
    let o = orphans(rows, min_shares);
    let held = held_count(rows);
    if o.len() == 0 {
        s is Idle
    } else if is_mass(o.len() as int, held as int) {
        s matches Sweep::Refused { why, would_have_fired, held: h } && would_have_fired == o.len()
            && h == held && why@ == text::dec(o.len()) + "/"@ + text::dec(held)
            + " held positions ("@ + text::dec(percent(o.len() as int, held as int))
            + "%) look orphaned at once — that is a stale or unseeded view of his book, not "@
            + text::dec(o.len()) + " exits"@
    } else {
        s matches Sweep::Fire(v) && exists|order: Seq<usize>| #[trigger]
            sorting::ranks(order, free_of(o)) && views(v@) == Seq::new(
                units::smaller(o.len() as int, MAX_PER_SWEEP as int) as nat,
                |i: int| o[order[i] as int],
            )
    }
}

/// What is to be done about stranded positions; see [`plans`].
pub fn plan(rows: &[Holding], min_shares: i64) -> (r: Sweep)
    ensures
        plans(views(rows@), min_shares as int, r),
{
    let ghost all = views(rows@);
    let mut held: usize = 0;
    let mut found: Vec<Holding> = Vec::new();
    let mut keys: Vec<i128> = Vec::new();
    assert(views(found@) =~= Seq::<HoldingView>::empty());
    for i in 0..rows.len()
        invariant
            all == views(rows@),
            held == held_count(all.take(i as int)),
            held <= i,
            views(found@) == orphans(all.take(i as int), min_shares as int),
            found@.len() <= held,
            keys@ == free_of(views(found@)),
    {
        let h = &rows[i];
        assert(all.take(i + 1).drop_last() =~= all.take(i as int));
        let ghost before = views(found@);
        if h.ours > 0 {
            held = held + 1;
            if h.he_is_out() && h.strandable() >= min_shares as i128 {
                found.push(h.copy());
                keys.push(h.strandable());
                assert(views(found@) =~= before.push(h@));
                assert(keys@ =~= free_of(views(found@)));
            }
        }
    }
    assert(all.take(all.len() as int) =~= all);
    let ghost o = views(found@);
    assert(o.len() == found@.len());
    let n = found.len();
    if n == 0 {
        return Sweep::Idle;
    }
    if held > FRAC_APPLIES_ABOVE && n as i128 * 1_000_000 >= held as i128
        * MAX_ORPHAN_FRAC as i128 {
        let q: u128 = n as u128 * 100 / (held as u128);
        let m: u128 = n as u128 * 100 % (held as u128);
        let p: u128 = if 2 * m > held as u128 || (2 * m == held as u128 && q % 2 == 1) {
            q + 1
        } else {
            q
        };
        let mut why = dec_u128(n as u128);
        why.append("/");
        why.append(dec_u128(held as u128).as_str());
        why.append(" held positions (");
        why.append(dec_u128(p).as_str());
        why.append("%) look orphaned at once — that is a stale or unseeded view of his book, not ");
        why.append(dec_u128(n as u128).as_str());
        why.append(" exits");
        return Sweep::Refused { why, would_have_fired: n, held };
    }
    let order = sorting::rank(&keys);
    let k: usize = if n <= MAX_PER_SWEEP {
        n
    } else {
        MAX_PER_SWEEP
    };
    let mut out: Vec<Holding> = Vec::new();
    for i in 0..k
        invariant
            k <= order@.len(),
            sorting::ranks(order@, free_of(o)),
            o == views(found@),
            views(out@) == Seq::new(i as nat, |j: int| o[order@[j] as int]),
    {
        assert(order@[i as int] < free_of(o).len());
        let ghost before = views(out@);
        out.push(found[order[i]].copy());
        assert(views(out@) =~= before.push(o[order@[i as int] as int]));
        assert(views(out@) =~= Seq::new((i + 1) as nat, |j: int| o[order@[j] as int]));
    }
    assert(sorting::ranks(order@, free_of(o)));
    Sweep::Fire(out)
}

proof fn orphans_are_orphans(rows: Seq<HoldingView>, min_shares: int, i: int)
    requires
        0 <= i < orphans(rows, min_shares).len(),
    ensures
        orphans(rows, min_shares)[i].is_orphan(min_shares),
    decreases rows.len(),
{
    if rows.len() > 0 {
        if i < orphans(rows.drop_last(), min_shares).len() {
            orphans_are_orphans(rows.drop_last(), min_shares, i);
        }
    }
}

/// A position that the leader still holds is never sold by the sweep, nor one of which
/// less than the least is free.
pub proof fn only_orphans_are_fired(rows: Seq<HoldingView>, min_shares: int, s: Sweep, i: int)
    requires
        plans(rows, min_shares, s),
        s matches Sweep::Fire(v) && 0 <= i < v@.len(),
    ensures
        s matches Sweep::Fire(v) && v@[i]@.left() && v@[i]@.free() >= min_shares && v@.len()
            <= MAX_PER_SWEEP,
{
    if let Sweep::Fire(v) = s {
        let o = orphans(rows, min_shares);
        let order = choose|order: Seq<usize>| #[trigger]
            sorting::ranks(order, free_of(o)) && views(v@) == Seq::new(
                units::smaller(o.len() as int, MAX_PER_SWEEP as int) as nat,
                |i: int| o[order[i] as int],
            );
        assert(views(v@).len() == v@.len());
        assert(views(v@)[i] == v@[i]@);
        assert(free_of(o).len() == o.len());
        assert(i < order.len());
        assert(order[i] < free_of(o).len());
        orphans_are_orphans(rows, min_shares, order[i] as int);
    }
}

} // verus!
