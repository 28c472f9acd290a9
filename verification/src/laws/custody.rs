//! When a holding moved without an order of ours.

use vstd::prelude::*;
use crate::custody;
use crate::custody::{Holding, RowView, Verdict};
use crate::units::Qty;

verus! {

/// Whether a difference is small: a hundredth of a share, or a thousandth of the holding.
pub open spec fn small(diff: int, ledger: int) -> bool {
    diff <= 10_000 || 1_000 * diff <= ledger || 1_000 * diff <= -ledger
}

/// A holding alarms exactly where, on a whole reading, the venue shows a share or more too much
/// or too little and no order of ours in flight explains it: what is missing by sells, what is
/// over by buys. The difference is the venue's less ours.
pub proof fn an_alarm_is_what_no_order_explains(h: Holding, complete: bool, v: i64, l: i64)
    requires
        h.venue == Qty::Finite(v),
        h.ledger == Qty::Finite(l),
        h.in_flight >= 0,
        h.in_flight_buy >= 0,
    ensures
        ({
            let d = v - l;
            let wide = if d < 0 {
                -d
            } else {
                d
            };
            let sold = d < 0 && small(-d - h.in_flight, l as int);
            let bought = d > 0 && small(d - h.in_flight_buy, l as int);
            let r = custody::verdict(h, complete);
            &&& r is Unattributed <==> complete && !small(wide, l as int) && !sold && !bought
                && wide >= 1_000_000
            &&& r matches Verdict::Unattributed { delta } ==> delta == d
            &&& r is Explained <==> complete && !small(wide, l as int) && (sold || bought)
            &&& r matches Verdict::Explained { delta, in_flight } ==> delta == d && in_flight == (
            if d < 0 {
                h.in_flight
            } else {
                h.in_flight_buy
            })
            &&& r is Unknown <==> !complete
        }),
{
}

/// What is not a number is unknown.
pub proof fn what_is_no_number_is_unknown(h: Holding, complete: bool)
    requires
        h.venue == Qty::NotFinite || h.ledger == Qty::NotFinite,
    ensures
        custody::verdict(h, complete) == Verdict::Unknown,
{
}

/// A lane's share of a wallet is what is left of it when the others' claims are taken off:
/// what the lane claims is given back, and nothing less than nothing is left.
pub proof fn a_lane_shares_what_is_left(total: int, pool_claim: int, ours: int)
    requires
        -1_000_000_000_000_000_000_000_000 <= total <= 1_000_000_000_000_000_000_000_000,
        -1_000_000_000_000_000_000_000_000 <= pool_claim <= 1_000_000_000_000_000_000_000_000,
        -1_000_000_000_000_000_000_000_000 <= ours <= 1_000_000_000_000_000_000_000_000,
    ensures
        custody::lane_share(total, pool_claim, ours) >= 0,
        total - (pool_claim - ours) >= 0 ==> custody::lane_share(total, pool_claim, ours) == total
            - (pool_claim - ours),
        total - (pool_claim - ours) < 0 ==> custody::lane_share(total, pool_claim, ours) == 0,
{
}

/// The shares that moved, summed.
pub open spec fn moved(hs: Seq<Holding>, complete: bool) -> int
    decreases hs.len(),
{
    if hs.len() == 0 {
        0
    } else {
        moved(hs.drop_last(), complete) + (match custody::verdict(hs.last(), complete) {
            Verdict::Unattributed { delta } => if delta < 0 {
                -delta
            } else {
                delta as int
            },
            _ => 0,
        })
    }
}

/// What is reported lost is the sum of what moved, and each holding that alarms has its row.
pub proof fn every_alarm_is_counted(hs: Seq<Holding>, complete: bool)
    requires
        hs.len() < 1_000_000_000_000,
    ensures
        custody::lost(hs, complete) == moved(hs, complete),
        0 <= moved(hs, complete) <= hs.len() * 0x2_0000_0000_0000_0000,
        custody::differences(hs, complete).len() == custody::count(
            hs,
            complete,
            |v: Verdict| v is Unattributed,
        ),
    decreases hs.len(),
{
    if hs.len() > 0 {
        every_alarm_is_counted(hs.drop_last(), complete);
    }
}

/// The rows come worst first: none that is shown moved less than one that follows it.
pub proof fn the_worst_comes_first(rows: Seq<RowView>, out: Seq<RowView>, i: int, j: int)
    requires
        custody::worst_first(rows, out),
        forall|k: int| 0 <= k < rows.len() ==> -0x2_0000_0000_0000_0000 <= (#[trigger] rows[k]).delta
            <= 0x2_0000_0000_0000_0000,
        0 <= i < j < out.len(),
    ensures
        out[i].delta >= out[j].delta || -out[i].delta >= out[j].delta,
        out[i].delta >= -out[j].delta || -out[i].delta >= -out[j].delta,
        out.len() == (if rows.len() > 12 {
            12
        } else {
            rows.len()
        }),
{
    let order = choose|order: Seq<usize>| #[trigger]
        crate::sorting::ranks(order, custody::sizes(rows)) && out == Seq::new(
            crate::units::smaller(rows.len() as int, 12) as nat,
            |i: int| rows[order[i] as int],
        );
    assert(crate::sorting::ranks_before(custody::sizes(rows), order[i], order[j]));
    assert(out[i] == rows[order[i] as int]);
    assert(out[j] == rows[order[j] as int]);
}

} // verus!
