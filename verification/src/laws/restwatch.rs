//! When the leader is taken to have left.

use vstd::prelude::*;
use crate::restwatch;
use crate::restwatch::{Evidence, RestVerdict};
use crate::units::Qty;

verus! {

/// The leader has left exactly where, on full evidence, less stands at the level than was left
/// of the leader's order after what was printed since, by more than a tenth of the order; where
/// no less stands there, the leader is still there.
pub proof fn the_leader_left_where_too_little_stands(
    e: Evidence,
    remaining: i64,
    before: i64,
    level: i64,
    printed: i64,
)
    requires
        e.anchor_remaining == Qty::Finite(remaining),
        e.anchor_printed == Qty::Finite(before),
        e.level_now == Some(Qty::Finite(level)),
        e.printed_now == Qty::Finite(printed),
        level >= 0,
    ensures
        ({
            let sound = remaining > 0 && !e.anchor_contested && printed >= before;
            &&& restwatch::verdict(e) == RestVerdict::HeCancelled <==> sound && 10 * level
                + remaining < 10 * (remaining - (printed - before)) && e.feed_alive
            &&& restwatch::verdict(e) == RestVerdict::Corroborated <==> sound && 10 * level
                + remaining >= 10 * (remaining - (printed - before))
            &&& restwatch::verdict(e) == RestVerdict::HeCancelled ==> 10 * (level + (printed
                - before)) < 9 * remaining
        }),
{
}

/// Evidence that is not whole decides nothing.
pub proof fn doubt_decides_nothing(e: Evidence)
    requires
        e.anchor_remaining == Qty::NotFinite || e.anchor_printed == Qty::NotFinite || e.level_now is None
            || e.level_now == Some(Qty::NotFinite) || e.printed_now == Qty::NotFinite,
    ensures
        restwatch::verdict(e) == RestVerdict::Uncertain,
{
}

/// An order rests on while the leader is seen there, a buy for less than four hours and a sell
/// for less than a day.
pub proof fn an_order_rests_on_while_he_is_there(v: RestVerdict, age_secs: int)
    ensures
        restwatch::may_renew(v, age_secs, 0) <==> v == RestVerdict::Corroborated && age_secs
            < 4 * 3600,
        restwatch::may_renew(v, age_secs, 1) <==> v == RestVerdict::Corroborated && age_secs
            < 24 * 3600,
{
}

} // verus!
