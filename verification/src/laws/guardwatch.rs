//! When nothing is bought for want of a supervisor.

use vstd::prelude::*;
use crate::guardwatch;
use crate::guardwatch::Verdict;

verus! {

/// Buys wait exactly where the last pass is more than a minute old, or, while none was seen,
/// once more than two minutes have passed since the start.
pub proof fn buys_wait_without_a_supervisor(last: Option<i64>, started_at: i64, now: i64)
    requires
        -1_000_000_000_000_000_000 <= now <= 1_000_000_000_000_000_000,
        -1_000_000_000_000_000_000 <= started_at <= 1_000_000_000_000_000_000,
        last matches Some(t) ==> -1_000_000_000_000_000_000 <= t <= 1_000_000_000_000_000_000,
    ensures
        ({
            let v = guardwatch::assessed(last, started_at as int, now as int);
            &&& guardwatch::gates(v) <==> match last {
                Some(t) => now > t + 60,
                None => now > started_at + 120,
            }
            &&& v is Stale || v is Fresh <==> last is Some
            &&& v matches Verdict::Stale { age_secs } ==> age_secs == now - last->0
            &&& v matches Verdict::NeverSeen { since_start } ==> since_start == now - started_at
        }),
{
}

/// The last pass that was seen is the latest: an older one does not take its place, nor does
/// one from more than five minutes ahead.
pub proof fn the_latest_pass_counts(last: Option<i64>, mtime: i64, now: int)
    ensures
        mtime > now + 300 ==> guardwatch::seen_after(last, Some(mtime), now) == last,
        mtime <= now + 300 && (last matches Some(t) ==> t <= mtime) ==> guardwatch::seen_after(
            last,
            Some(mtime),
            now,
        ) == Some(mtime),
        last matches Some(t) && t > mtime ==> guardwatch::seen_after(last, Some(mtime), now) == last,
        guardwatch::seen_after(last, None, now) == last,
{
}

} // verus!
