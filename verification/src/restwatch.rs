//! Whether the leader still stands where a resting order of ours follows.

use vstd::prelude::*;
use crate::units;
use crate::units::{max_of, Qty};

verus! {

/// What the evidence says.
#[derive(Debug, Clone, Copy, PartialEq, Eq, Structural)]
pub enum RestVerdict {
    Corroborated,
    Uncertain,
    HeCancelled,
}

/// The part of the leader's order that may be missing, in millionths.
pub const DEFICIT_TOLERANCE: i64 = 100_000;

/// Within how many microseconds the feed has to have said something.
pub const FEED_LIVENESS_WINDOW: u64 = 60_000_000;

/// How many seconds a sale may rest.
pub const MAX_REST_AGE_SECS: i64 = 86_400;

/// How many seconds a purchase may rest.
pub const MAX_REST_AGE_BUY_SECS: i64 = 14_400;

/// What was known when the order was placed, and what is known now.
#[derive(Debug, Clone, Copy, PartialEq, Eq)]
pub struct Evidence {
    pub anchor_remaining: Qty,
    pub anchor_printed: Qty,
    pub anchor_contested: bool,
    pub level_now: Option<Qty>,
    pub printed_now: Qty,
    pub feed_alive: bool,
}

/// What should be left of the leader's order, given what was traded at its price since.
pub open spec fn expected(remaining: int, printed_since: int) -> int {
    units::larger(remaining - printed_since, 0)
}

/// What the evidence says: nothing without an anchor that is the leader's alone, a level
/// and readings that went forward; the leader stands where the level holds what should be
/// left, but for the tolerance; else it was pulled, if the feed is alive to tell.
pub open spec fn verdict(e: Evidence) -> RestVerdict {
    match (e.anchor_remaining, e.anchor_printed, e.level_now, e.printed_now) {
        (
            Qty::Finite(remaining),
            Qty::Finite(before),
            Some(Qty::Finite(level)),
            Qty::Finite(printed),
        ) => if remaining <= 0 || e.anchor_contested || printed < before {
            RestVerdict::Uncertain
        } else if level * units::ONE + remaining * DEFICIT_TOLERANCE >= expected(
            remaining as int,
            printed - before,
        ) * units::ONE {
            RestVerdict::Corroborated
        } else if !e.feed_alive {
            RestVerdict::Uncertain
        } else {
            RestVerdict::HeCancelled
        },
        _ => RestVerdict::Uncertain,
    }
}

/// What the evidence says; see [`verdict`].
pub fn classify(e: &Evidence) -> (r: RestVerdict)
    ensures
        r == verdict(*e),
{
    match (e.anchor_remaining, e.anchor_printed, e.level_now, e.printed_now) {
        (
            Qty::Finite(remaining),
            Qty::Finite(before),
            Some(Qty::Finite(level)),
            Qty::Finite(printed),
        ) => {
            if remaining <= 0 || e.anchor_contested || printed < before {
                return RestVerdict::Uncertain;
            }
            let since: i128 = printed as i128 - before as i128;
            let left = max_of(remaining as i128 - since, 0);
            if level as i128 * 1_000_000 + remaining as i128 * 100_000 >= left * 1_000_000 {
                return RestVerdict::Corroborated;
            }
            if !e.feed_alive {
                return RestVerdict::Uncertain;
            }
            RestVerdict::HeCancelled
        },
        _ => RestVerdict::Uncertain,
    }
}

/// Whether an order may go on resting: only where the leader stands, and not for ever.
pub fn renewable(verdict: RestVerdict, age_secs: i64, side: u8) -> (r: bool)
    ensures
        r == (verdict == RestVerdict::Corroborated && age_secs < age_limit(side)),
        r == may_renew(verdict, age_secs as int, side),
{
    match verdict {
        RestVerdict::Corroborated => age_secs < max_age_for(side),
        _ => false,
    }
}

/// Whether an order may rest on.
pub open spec fn may_renew(verdict: RestVerdict, age_secs: int, side: u8) -> bool {
    verdict == RestVerdict::Corroborated && age_secs < age_limit(side)
}

/// How many seconds an order may rest.
pub open spec fn age_limit(side: u8) -> i64 {
    if side == 0 {
        MAX_REST_AGE_BUY_SECS
    } else {
        MAX_REST_AGE_SECS
    }
}

/// How many seconds an order may rest.
pub fn max_age_for(side: u8) -> (r: i64)
    ensures
        r == age_limit(side),
{
    if side == 0 {
        MAX_REST_AGE_BUY_SECS
    } else {
        MAX_REST_AGE_SECS
    }
}

/// The leader is held to have pulled an order only on full evidence: an anchor that was
/// the leader's alone, a level that is known, prints that went forward and do not explain
/// what is missing, and a feed that is alive.
pub proof fn cancel_needs_full_evidence(e: Evidence)
    requires
        verdict(e) == RestVerdict::HeCancelled,
    ensures
        !e.anchor_contested,
        e.feed_alive,
        e.level_now is Some,
        (e.anchor_remaining matches Qty::Finite(a) && a > 0),
{
}

/// Trades alone never make the leader's order look pulled: where the level fell by no
/// more than was traded at it, the leader stands.
pub proof fn fills_are_no_cancel(e: Evidence, remaining: i64, before: i64, level: i64, printed: i64)
    requires
        e.anchor_remaining == Qty::Finite(remaining),
        e.anchor_printed == Qty::Finite(before),
        e.level_now == Some(Qty::Finite(level)),
        e.printed_now == Qty::Finite(printed),
        remaining > 0,
        level >= 0,
        printed >= before,
        level + (printed - before) >= remaining,
    ensures
        verdict(e) != RestVerdict::HeCancelled,
{
}

} // verus!
