//! What is timed under which name.

use vstd::prelude::*;
use crate::digest::DigestView;
use crate::latency;
use crate::units::Qty;

verus! {

/// The venue's own time is what an order takes at the median less what the line takes, and is
/// known only where both were timed.
pub proof fn the_venue_is_the_difference(m: Map<Seq<char>, DigestView>)
    ensures
        latency::venue(m) is Some <==> latency::is_timed(m, "order"@) && latency::is_timed(
            m,
            "baseline"@,
        ),
        latency::venue(m) matches Some(v) ==> v + m["baseline"@].percentile(500_000)
            == m["order"@].percentile(500_000),
{
}

/// A time goes to the series of its name, once, and to no other.
pub proof fn a_time_goes_to_its_series(
    m: Map<Seq<char>, DigestView>,
    name: Seq<char>,
    us: i64,
    at: u128,
    other: Seq<char>,
)
    requires
        us >= 0,
        0 <= latency::series_of(m, name).n < u64::MAX,
        other != name,
    ensures
        ({
            let a = latency::recorded(m, name, Qty::Finite(us), at);
            &&& latency::is_timed(a, name)
            &&& a[name].n == latency::series_of(m, name).n + 1
            &&& a[name].sum == latency::series_of(m, name).sum + us
            &&& latency::series_of(a, other) == latency::series_of(m, other)
        }),
{
}

/// The times of the paths go to the series of the paths, and what an order took to none of
/// them.
pub proof fn paths_are_timed_apart(
    m: Map<Seq<char>, DigestView>,
    paths: Seq<(String, Qty)>,
    at: u128,
    other: Seq<char>,
)
    requires
        forall|i: int| 0 <= i < paths.len() ==> "path."@ + (#[trigger] paths[i]).0@ != other,
    ensures
        latency::series_of(latency::paths_recorded(m, paths, at), other) == latency::series_of(
            m,
            other,
        ),
    decreases paths.len(),
{
    if paths.len() > 0 {
        let before = paths.drop_last();
        assert forall|i: int| 0 <= i < before.len() implies "path."@ + (#[trigger] before[i]).0@
            != other by {
            assert(before[i] == paths[i]);
        }
        paths_are_timed_apart(m, before, at, other);
        assert(paths[paths.len() - 1] == paths.last());
    }
}

/// A probe that was answered is timed as the line; one that was not is timed apart.
pub proof fn a_failed_probe_is_timed_apart(us: i64)
    ensures
        latency::sampled(true, us).0 == "baseline"@,
        latency::sampled(true, us).1 == Qty::Finite(us),
        latency::sampled(false, us).0 != "baseline"@,
        latency::sampled(false, us).1 == Qty::Finite(1_000),
{
    reveal_strlit("baseline");
    reveal_strlit("baseline.err");
    assert("baseline"@.len() != "baseline.err"@.len());
}

/// A series without a time is not timed, and has no median.
pub proof fn a_series_without_a_time_is_not_timed(m: Map<Seq<char>, DigestView>, name: Seq<char>)
    ensures
        !m.contains_key(name) || m[name].n == 0 ==> !latency::is_timed(m, name) && latency::median(
            m,
            name,
        ) is None,
        m.contains_key(name) && m[name].n > 0 ==> latency::median(m, name) == Some(
            m[name].percentile(500_000),
        ),
{
}

} // verus!
