//! Which positions are sold because the leader has left.

use vstd::prelude::*;
use crate::orphan;
use crate::orphan::{HoldingView, Sweep};
use crate::sorting;
use crate::units;

verus! {

/// A position is an orphan exactly where we hold it, the leader holds no more than from before,
/// and enough of it is not already being sold.
pub proof fn an_orphan_is_left_by_its_leader(h: HoldingView, min_shares: int)
    requires
        min_shares > 0,
    ensures
        h.is_orphan(min_shares) <==> h.ours > 0 && h.his <= h.legacy && h.ours - h.reserved
            >= min_shares,
        h.free() >= 0,
        h.ours >= h.reserved ==> h.free() + h.reserved == h.ours,
{
}

/// The orphans are all of them, in their order, and as many are held as we hold any of.
pub proof fn every_orphan_is_found(rows: Seq<HoldingView>, min_shares: int)
    ensures
        orphan::orphans(rows, min_shares) == rows.filter(
            |h: HoldingView| h.is_orphan(min_shares),
        ),
        orphan::held_count(rows) == rows.filter(|h: HoldingView| h.ours > 0).len(),
        orphan::orphans(rows, min_shares).len() <= orphan::held_count(rows) <= rows.len(),
    decreases rows.len(),
{
    reveal(Seq::filter);
    if rows.len() > 0 {
        every_orphan_is_found(rows.drop_last(), min_shares);
    }
}

/// Nothing is sold where more than five positions are held and thirty-four of a hundred of them
/// or more look orphaned at once; nor where none does. Else as many are sold as there are, three
/// at the most.
pub proof fn too_many_orphans_are_none(rows: Seq<HoldingView>, min_shares: int, s: Sweep)
    requires
        orphan::plans(rows, min_shares, s),
    ensures
        ({
            let n = orphan::orphans(rows, min_shares).len();
            let held = orphan::held_count(rows);
            let mass = held > 5 && 100 * n >= 34 * held;
            &&& s is Idle <==> n == 0
            &&& s is Refused <==> n > 0 && mass
            &&& s is Fire <==> n > 0 && !mass
            &&& s matches Sweep::Fire(v) ==> v@.len() == (if n > 3 {
                3
            } else {
                n
            })
            &&& s matches Sweep::Refused { would_have_fired, held: h, .. } ==> would_have_fired == n
                && h == held
        }),
{
    if s is Fire {
        let o = orphan::orphans(rows, min_shares);
        let v = s->Fire_0;
        let order = choose|order: Seq<usize>| #[trigger]
            sorting::ranks(order, orphan::free_of(o)) && orphan::views(v@) == Seq::new(
                units::smaller(o.len() as int, 3) as nat,
                |i: int| o[order[i] as int],
            );
        assert(orphan::views(v@).len() == v@.len());
    }
}

/// The largest go first: none that is sold is smaller than one that is sold after it.
pub proof fn the_largest_orphans_go_first(
    rows: Seq<HoldingView>,
    min_shares: int,
    s: Sweep,
    i: int,
    j: int,
)
    requires
        orphan::plans(rows, min_shares, s),
        s matches Sweep::Fire(v) && 0 <= i < j < v@.len(),
        forall|k: int| 0 <= k < rows.len() ==> (#[trigger] rows[k]).free() <= i128::MAX,
    ensures
        s matches Sweep::Fire(v) && v@[i]@.free() >= v@[j]@.free(),
{
    let o = orphan::orphans(rows, min_shares);
    every_orphan_is_found(rows, min_shares);
    let v = s->Fire_0;
    let order = choose|order: Seq<usize>| #[trigger]
        sorting::ranks(order, orphan::free_of(o)) && orphan::views(v@) == Seq::new(
            units::smaller(o.len() as int, 3) as nat,
            |i: int| o[order[i] as int],
        );
    assert(orphan::views(v@).len() == v@.len());
    assert(order.len() == o.len());
    assert(sorting::ranks_before(orphan::free_of(o), order[i], order[j]));
    assert(orphan::views(v@)[i] == v@[i]@);
    assert(orphan::views(v@)[j] == v@[j]@);
    let f = |h: HoldingView| h.is_orphan(min_shares);
    is_one_of(rows, f, order[i] as int);
    is_one_of(rows, f, order[j] as int);
}

proof fn is_one_of(rows: Seq<HoldingView>, f: spec_fn(HoldingView) -> bool, i: int)
    requires
        0 <= i < rows.filter(f).len(),
    ensures
        exists|k: int| 0 <= k < rows.len() && rows[k] == rows.filter(f)[i],
{
    assert(rows.filter(f).contains(rows.filter(f)[i]));
    rows.lemma_filter_contains_rev(f, rows.filter(f)[i]);
}

/// The percentage that is told is the nearest.
pub proof fn the_percentage_is_nearest(n: int, held: int)
    requires
        n >= 0,
        held > 0,
    ensures
        -held <= 2 * (orphan::percent(n, held) * held - n * 100) <= held,
{
    let a = n * 100;
    vstd::arithmetic::div_mod::lemma_fundamental_div_mod(a, held);
    vstd::arithmetic::div_mod::lemma_mod_bound(a, held);
    let q = a / held;
    assert(held * q == q * held) by (nonlinear_arith);
    assert((q + 1) * held == q * held + held) by (nonlinear_arith);
    assert(q >= 0) by (nonlinear_arith)
        requires
            a >= 0,
            held > 0,
            q == a / held,
    ;
}

} // verus!
