//! How often a lane fires.

use vstd::prelude::*;
use crate::firerate;
use crate::firerate::FireRateView;
use crate::units::Qty;

verus! {

/// We copied too much where we hold more than the leader's fill, times our fraction, times the
/// tolerance: never of a leader that filled nothing, and the more the leader filled the less.
pub proof fn copying_is_held_to_the_leader(his: i64, more: i64, ours: i64, frac: int, tol: int)
    requires
        his > 0,
        more >= his,
        frac > 0,
        tol > 0,
    ensures
        firerate::overcopied(Qty::Finite(his), Qty::Finite(ours), frac, tol) <==> ours
            * 1_000_000_000_000 > his * frac * tol,
        firerate::overcopied(Qty::Finite(more), Qty::Finite(ours), frac, tol)
            ==> firerate::overcopied(Qty::Finite(his), Qty::Finite(ours), frac, tol),
        !firerate::overcopied(Qty::Finite(0), Qty::Finite(ours), frac, tol),
        !firerate::overcopied(Qty::NotFinite, Qty::Finite(ours), frac, tol),
        !firerate::overcopied(Qty::Finite(his), Qty::NotFinite, frac, tol),
{
    assert(ours * 1_000_000 * 1_000_000 == ours * 1_000_000_000_000);
    assert(more * frac * tol >= his * frac * tol) by (nonlinear_arith)
        requires
            more >= his,
            frac > 0,
            tol > 0,
            his > 0,
    ;
}

/// The window holds the fires of the last thirty seconds: one that is as old as that has left
/// it, one that is a second younger has not.
pub proof fn the_window_is_thirty_seconds(q: Seq<i64>, now: int, i: int)
    requires
        0 <= i < q.len(),
        forall|a: int, b: int| 0 <= a <= b < q.len() ==> q[a] <= q[b],
    ensures
        firerate::within(q, now).contains(q[i]) <==> q[i] > now - 30,
        firerate::within(q, now).len() <= q.len(),
        firerate::within(q, now) == q.skip(q.len() - firerate::within(q, now).len()),
    decreases q.len(),
{
    if q[0] <= now - 30 {
        let r = q.skip(1);
        if r.len() > 0 {
            the_window_is_thirty_seconds(
                r,
                now,
                if i > 0 {
                    i - 1
                } else {
                    0
                },
            );
            if i > 0 {
                assert(r[i - 1] == q[i]);
            }
            let n = firerate::within(r, now).len();
            assert(r.skip(r.len() - n) =~= q.skip(q.len() - n));
            if i == 0 && firerate::within(r, now).contains(q[0]) {
                let k = choose|k: int|
                    0 <= k < firerate::within(r, now).len() && firerate::within(r, now)[k] == q[0];
                let at = q.len() - n + k;
                assert(q[at] == q[0]);
                the_window_is_thirty_seconds(r, now, at - 1);
                assert(r[at - 1] == q[0]);
            }
        } else {
            assert(firerate::within(r, now) =~= r);
            assert(q.skip(1) =~= r);
        }
    } else {
        assert(q.skip(0) =~= q);
        assert(q[0] <= q[i]);
    }
}

/// A fire of a lane counts it and no other, once, and the limit is reached when as many have
/// fired within the window as it says, this one with them.
pub proof fn a_fire_counts_once(f: FireRateView, lane: int, now: i64)
    requires
        0 <= lane < f.fires.len(),
        forall|i: int| 0 <= i < f.fires[lane].len() ==> #[trigger] f.fires[lane][i] > now - 30,
    ensures
        f.fired(lane, now as int).counted(lane, now as int) == f.counted(lane, now as int) + 1,
        f.trips(lane, now as int) <==> f.counted(lane, now as int) + 1 >= f.limit,
        f.fired(lane, now as int).limit == f.limit,
{
    let q = f.fires[lane];
    assert(firerate::grown(f.fires, lane + 1) == f.fires);
    let p = q.push(now);
    if q.len() > 0 {
        assert(p[0] == q[0]);
    }
    assert(firerate::within(q, now as int) == q);
    assert(firerate::within(p, now as int) == p);
}

} // verus!
