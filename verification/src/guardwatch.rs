//! Whether anything supervises us: without a supervisor nothing is bought.

use vstd::prelude::*;
use crate::text;
use crate::text::{dec_i128, owned};
use crate::units;

verus! {

/// For how many seconds a pass of the supervisor is fresh.
pub const MAX_AGE_SECS: i64 = 60;

/// For how many seconds after the start no pass is asked for.
pub const BOOT_GRACE_SECS: i64 = 120;

/// By how many seconds a pass may lie in the future.
pub const MAX_FUTURE_SECS: i64 = 300;

/// What is known of the supervisor.
#[derive(Debug, Clone, Copy, PartialEq, Eq, Structural)]
pub enum Verdict {
    Warmup { since_start: i64 },
    NeverSeen { since_start: i64 },
    Fresh { age_secs: i64 },
    Stale { age_secs: i64 },
}

/// Whether buying is stopped.
pub open spec fn gates(v: Verdict) -> bool {
    v is Stale || v is NeverSeen
}

/// What an operator is told.
pub open spec fn told(v: Verdict) -> Seq<char> {
    match v {
        Verdict::Warmup { since_start } => "guardian not seen yet ("@ + text::dec_int(
            since_start as int,
        ) + "s since start, grace 120s) — not gated while warming up"@,
        Verdict::NeverSeen { since_start } => "⛔ NO GUARDIAN PASS HAS EVER BEEN SEEN in "@
            + text::dec_int(since_start as int)
            + "s since start (grace 120s) — nothing is supervising this bot, so BUYS ARE GATED. Exits keep mirroring. Check that the guardian timer is running and writing run/guardian_state.json; this clears itself as soon as it does."@,
        Verdict::Fresh { age_secs } => "guardian completed a pass "@ + text::dec_int(
            age_secs as int,
        ) + "s ago"@,
        Verdict::Stale { age_secs } => "⛔ NO GUARDIAN PASS IN "@ + text::dec_int(age_secs as int)
            + "s (limit 60s) — the bot is trading unsupervised, so BUYS ARE GATED until it returns. Exits keep mirroring. This clears itself the moment the guardian writes again; no operator action is needed if it comes back."@,
    }
}

impl Verdict {
    /// Whether buying is stopped.
    pub fn buys_gated(&self) -> (r: bool)
        ensures
            r == gates(*self),
    {
        match self {
            Verdict::Stale { .. } => true,
            Verdict::NeverSeen { .. } => true,
            _ => false,
        }
    }

    /// What an operator is told; see [`told`].
    pub fn describe(&self) -> (r: String)
        ensures
            r@ == told(*self),
    {
        match self {
            Verdict::Warmup { since_start } => {
                let mut s = owned("guardian not seen yet (");
                s.append(dec_i128(*since_start as i128).as_str());
                s.append("s since start, grace 120s) — not gated while warming up");
                s
            },
            Verdict::NeverSeen { since_start } => {
                let mut s = owned("⛔ NO GUARDIAN PASS HAS EVER BEEN SEEN in ");
                s.append(dec_i128(*since_start as i128).as_str());
                s.append(
                    "s since start (grace 120s) — nothing is supervising this bot, so BUYS ARE GATED. Exits keep mirroring. Check that the guardian timer is running and writing run/guardian_state.json; this clears itself as soon as it does.",
                );
                s
            },
            Verdict::Fresh { age_secs } => {
                let mut s = owned("guardian completed a pass ");
                s.append(dec_i128(*age_secs as i128).as_str());
                s.append("s ago");
                s
            },
            Verdict::Stale { age_secs } => {
                let mut s = owned("⛔ NO GUARDIAN PASS IN ");
                s.append(dec_i128(*age_secs as i128).as_str());
                s.append(
                    "s (limit 60s) — the bot is trading unsupervised, so BUYS ARE GATED until it returns. Exits keep mirroring. This clears itself the moment the guardian writes again; no operator action is needed if it comes back.",
                );
                s
            },
        }
    }
}

/// How many seconds lie between two times, none where they are the wrong way round.
pub open spec fn elapsed(from: int, to: int) -> i64 {
    units::clip64(units::larger(to - from, 0)) as i64
}

/// What is known of the supervisor: how old its last pass is, or how long none came.
pub open spec fn assessed(last_seen: Option<i64>, started_at: int, now: int) -> Verdict {
    match last_seen {
        None => {
            let since = elapsed(started_at, now);
            if since > BOOT_GRACE_SECS {
                Verdict::NeverSeen { since_start: since }
            } else {
                Verdict::Warmup { since_start: since }
            }
        },
        Some(t) => {
            let age = elapsed(t as int, now);
            if age > MAX_AGE_SECS {
                Verdict::Stale { age_secs: age }
            } else {
                Verdict::Fresh { age_secs: age }
            }
        },
    }
}

fn elapsed_of(from: i64, to: i64) -> (r: i64)
    ensures
        r == elapsed(from as int, to as int),
{
    let d = units::diff64(to, from);
    units::max64(d, 0)
}

/// What is known of the supervisor; see [`assessed`].
pub fn assess(last_seen: Option<i64>, started_at: i64, now: i64) -> (r: Verdict)
    ensures
        r == assessed(last_seen, started_at as int, now as int),
{
    match last_seen {
        None => {
            let since = elapsed_of(started_at, now);
            if since > BOOT_GRACE_SECS {
                Verdict::NeverSeen { since_start: since }
            } else {
                Verdict::Warmup { since_start: since }
            }
        },
        Some(t) => {
            let age = elapsed_of(t, now);
            if age > MAX_AGE_SECS {
                Verdict::Stale { age_secs: age }
            } else {
                Verdict::Fresh { age_secs: age }
            }
        },
    }
}

/// The last pass that was seen, and when we started.
#[derive(Debug)]
pub struct Watch {
    pub last_seen: Option<i64>,
    pub started_at: i64,
}

/// The last pass after a look at the supervisor's file: passes only move forward, and
/// one too far in the future is none.
pub open spec fn seen_after(last: Option<i64>, mtime: Option<i64>, now: int) -> Option<i64> {
    match mtime {
        Some(t) => if t > now + MAX_FUTURE_SECS {
            last
        } else {
            match last {
                Some(prev) => if prev > t {
                    Some(prev)
                } else {
                    Some(t)
                },
                None => Some(t),
            }
        },
        None => last,
    }
}

impl Watch {
    /// A watch that saw nothing yet.
    pub fn new(started_at: i64) -> (r: Self)
        ensures
            r.last_seen is None,
            r.started_at == started_at,
    {
        Watch { last_seen: None, started_at }
    }

    /// Looks at the supervisor's file; see [`seen_after`] and [`assessed`].
    pub fn observe(&mut self, mtime: Option<i64>, now: i64) -> (r: Verdict)
        ensures
            final(self).last_seen == seen_after(old(self).last_seen, mtime, now as int),
            final(self).started_at == old(self).started_at,
            r == assessed(final(self).last_seen, final(self).started_at as int, now as int),
    {
        if let Some(t) = mtime {
            if t as i128 <= now as i128 + MAX_FUTURE_SECS as i128 {
                self.last_seen = match self.last_seen {
                    Some(prev) => if prev > t {
                        Some(prev)
                    } else {
                        Some(t)
                    },
                    None => Some(t),
                };
            }
        }
        assess(self.last_seen, self.started_at, now)
    }

    /// The last pass that was seen.
    pub fn last_seen(&self) -> (r: Option<i64>)
        ensures
            r == self.last_seen,
    {
        self.last_seen
    }
}

/// The stop lifts by itself: whatever was seen before, a pass of now lets us buy.
pub proof fn gate_clears_itself(last: Option<i64>, started_at: int, now: i64)
    ensures
        !gates(assessed(seen_after(last, Some(now), now as int), started_at, now as int)),
{
}

/// A supervisor that went away stops buying, however often its file cannot be read.
pub proof fn absence_gates(last: i64, started_at: int, now: i64)
    requires
        now - last > MAX_AGE_SECS,
    ensures
        gates(assessed(seen_after(Some(last), None, now as int), started_at, now as int)),
{
}

/// What was seen never goes back.
pub proof fn passes_move_forward(last: i64, mtime: Option<i64>, now: int)
    ensures
        seen_after(Some(last), mtime, now) matches Some(t) && t >= last,
{
}

} // verus!
