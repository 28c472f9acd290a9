//! When a lane's positions are closed.

use vstd::prelude::*;
use crate::flatten;
use crate::flatten::{Intent, Mode};

verus! {

/// An intent is granted exactly where it names the lane, repeats its mode and the lane as its
/// phrase, is no older than a minute and no more than five seconds ahead, and meets its mode's
/// own condition: panic of a lane that is not armed, hybrid with the forfeit acknowledged.
pub proof fn an_intent_is_granted_when_it_is_meant(
    i: Intent,
    lane: Seq<char>,
    armed: bool,
    now: int,
    m: Mode,
)
    ensures
        flatten::granted(i, lane, armed, now) == Ok::<Mode, Seq<char>>(m) <==> i.mode@
            == flatten::name_of(m) && i.lane@ == lane && i.phrase@ == flatten::name_of(m) + " "@
            + lane && now - i.ts <= 60 && i.ts - now <= 5 && (m == Mode::Panic ==> !armed) && (m
            == Mode::Hybrid ==> i.acknowledge_forfeit),
{
    flatten::names_parse_back(m);
}

/// Panic sells everything, hybrid what is worth more than it cost, and graceful nothing.
pub proof fn what_is_sold_depends_on_the_mode(mark: int, cost: int)
    ensures
        flatten::sells(Mode::Panic, mark, cost),
        !flatten::sells(Mode::Graceful, mark, cost),
        flatten::sells(Mode::Hybrid, mark, cost) <==> mark > cost,
{
}

} // verus!
