//! What a sweep sells.

use vstd::prelude::*;
use crate::sweep;
use crate::sweep::{SweepInputs, SweepView};

verus! {

/// What can be sold: what the lane owns and the wallet holds, the lesser.
pub open spec fn sellable(i: SweepInputs, n: int) -> bool {
    &&& n >= 0
    &&& n == i.owned || n == i.physical || n == 0
    &&& i.owned > 0 ==> n <= i.owned
    &&& i.physical > 0 ==> n <= i.physical
    &&& i.owned <= 0 || i.physical <= 0 ==> n == 0
    &&& i.owned > 0 && i.physical > 0 ==> n > 0
}

/// What the lane should keep: nothing where the leader holds nothing.
pub open spec fn to_keep(i: SweepInputs) -> Option<int> {
    if i.leader <= 0 {
        Some(0)
    } else {
        match i.proportional_target {
            Some(t) => if t < 0 {
                Some(0)
            } else {
                Some(t as int)
            },
            None => None,
        }
    }
}

/// A sale leaves exactly what is to be kept, and a sale of dust leaves nothing.
pub proof fn a_sale_leaves_the_target(i: SweepInputs, n: int)
    requires
        sellable(i, n),
    ensures
        sweep::decision(i) matches SweepView::Sell { qty, dust, .. } ==> if dust {
            n - qty == 0
        } else {
            to_keep(i) == Some(n - qty)
        },
        sweep::decision(i) matches SweepView::Observe { excess, .. } ==> to_keep(i) == Some(
            n - excess,
        ),
{
}

/// Whether what can be sold beyond the target is worth selling: more than a hundredth of a
/// share, for no less than the smallest sale, and, where the leader still holds, not within
/// half as much again as the target.
pub open spec fn too_much(i: SweepInputs, n: int, keep: int, target: int) -> bool {
    &&& n - keep > 10_000
    &&& (n - keep) * i.mark >= i.min_usd * 1_000_000
    &&& i.leader > 0 ==> 2 * n > 3 * target
}

/// Whether the same was already seen, and for long enough: within a twentieth of a share.
pub open spec fn long_seen(i: SweepInputs, target: int, excess: int) -> bool {
    i.prior matches Some(p) && p.0 >= i.confirm_secs && -50_000 <= target - p.1 <= 50_000
        && -50_000 <= excess - p.2 <= 50_000
}

/// Something is sold exactly when there is something to sell of a market that is not resolved,
/// and either dust was left of a sale to a leader that is out, or too much was seen for long
/// enough. While dust is left and the leader is not out, nothing is sold.
pub proof fn a_sale_has_its_reason(i: SweepInputs, n: int, target: int, keep: int)
    requires
        sellable(i, n),
        to_keep(i) is Some ==> keep == to_keep(i)->0,
        i.leader <= 0 ==> target == 0,
        i.leader > 0 && i.proportional_target is Some ==> target == i.proportional_target->0,
    ensures
        ({
            let dust = i.just_sold && n < i.dust_shares;
            let due = to_keep(i) is Some && too_much(i, n, keep, target);
            &&& sweep::decision(i) is Sell <==> !i.redeemable && n > 0 && if dust {
                i.leader <= 0
            } else {
                due && long_seen(i, target, n - keep)
            }
            &&& sweep::decision(i) is Observe <==> !i.redeemable && n > 0 && !dust && due
                && !long_seen(i, target, n - keep)
        }),
{
}

/// The more the leader justifies, the less is sold.
pub proof fn a_higher_target_sells_less(i: SweepInputs, j: SweepInputs)
    requires
        i.owned == j.owned,
        i.physical == j.physical,
        i.leader > 0,
        j.leader > 0,
        i.proportional_target matches Some(a) && (j.proportional_target matches Some(b) && a <= b),
        sweep::decision(i) is Sell,
        sweep::decision(j) is Sell,
    ensures
        sweep::decision(j)->qty <= sweep::decision(i)->qty,
{
}

/// An observation is kept since when the same was first seen, and starts anew where what is
/// seen has moved by more than a twentieth of a share; what is kept beside it is what is seen
/// now.
pub proof fn an_observation_lasts_while_it_is_the_same(
    prior: Option<(u64, i64, i64)>,
    now: u64,
    target: i64,
    excess: i64,
)
    ensures
        ({
            let r = sweep::stored(prior, now, target, excess);
            &&& r.1 == target && r.2 == excess
            &&& prior is None ==> r.0 == now
            &&& prior matches Some(p) ==> r.0 == (if -50_000 <= p.1 - target <= 50_000 && -50_000
                <= p.2 - excess <= 50_000 {
                p.0
            } else {
                now
            })
        }),
{
}

} // verus!
