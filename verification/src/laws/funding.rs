//! What was paid in and what was earned.

use vstd::prelude::*;
use crate::funding;
use crate::funding::MovementView;
use crate::json;
use crate::json::Json;

verus! {

/// Movements, summed.
pub open spec fn paid(v: Seq<MovementView>) -> int
    decreases v.len(),
{
    if v.len() == 0 {
        0
    } else {
        paid(v.drop_last()) + v.last().usd
    }
}

/// What stands in is the sum of all that was paid, in less out, to the nearest cent; nothing
/// is known where nothing was paid.
pub proof fn what_stands_in_is_the_sum(v: Seq<MovementView>)
    requires
        v.len() < 1_000_000_000_000,
    ensures
        funding::net(v) == paid(v),
        -(v.len() as int) * 0x1_0000_0000_0000_0000 <= paid(v) <= v.len() * 0x1_0000_0000_0000_0000,
        funding::basis_of(v) is None <==> v.len() == 0,
        funding::basis_of(v) matches Some(b) ==> b % 10_000 == 0 && -5_000 <= b - paid(v) <= 5_000,
    decreases v.len(),
{
    if v.len() > 0 {
        what_stands_in_is_the_sum(v.drop_last());
        cents_are_nearest(paid(v));
    }
}

/// An amount to the nearest cent, away from nothing from the middle.
pub proof fn cents_are_nearest(m: int)
    requires
        -1_000_000_000_000_000_000_000_000_000_000_000_000 <= m
            <= 1_000_000_000_000_000_000_000_000_000_000_000_000,
    ensures
        funding::to_cents(m) % 10_000 == 0,
        -5_000 <= funding::to_cents(m) - m <= 5_000,
        funding::to_cents(-m) == -funding::to_cents(m),
        m > 0 ==> funding::to_cents(m) - m > -5_000,
{
}

/// What was earned is what there is less what stands in: more by as much as there is more, to
/// the cent.
pub proof fn what_was_earned_is_the_difference(equity: int, basis: int)
    requires
        -1_000_000_000_000_000_000_000_000_000_000 <= equity
            <= 1_000_000_000_000_000_000_000_000_000_000,
        -1_000_000_000_000_000_000_000_000_000_000 <= basis
            <= 1_000_000_000_000_000_000_000_000_000_000,
    ensures
        -5_000 <= funding::earned(equity, basis) - (equity - basis) <= 5_000,
        (equity - basis) % 10_000 == 0 ==> funding::earned(equity, basis) == equity - basis,
{
    cents_are_nearest(equity - basis);
}

/// A movement says each thing under its own name.
pub proof fn a_movement_says_each_thing_under_its_name(j: Json)
    requires
        j is Fields,
    ensures
        funding::movement_in(j) matches Some(m) ==> {
            &&& json::signed_in(json::field(j, "t"@)) == Some(m.t)
            &&& json::micros_in(json::field(j, "usd"@)) == Some(m.usd)
            &&& json::text_in(json::field(j, "note"@)) matches Some(n) ==> m.note == n
            &&& json::field(j, "note"@) is None ==> m.note.len() == 0
        },
{
}

} // verus!
