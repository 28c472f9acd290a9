//! Which response times are kept.

use vstd::prelude::*;
use crate::json;
use crate::json::Json;
use crate::response_times;
use crate::response_times::SampleView;

verus! {

/// The newest stay, in their order: all of them where there are no more than is asked, and the
/// last ones where there are.
pub proof fn the_newest_stay(s: Seq<SampleView>, n: int, i: int)
    requires
        n >= 0,
        0 <= i < response_times::newest(s, n).len(),
    ensures
        response_times::newest(s, n).len() == (if s.len() <= n {
            s.len() as int
        } else {
            n
        }),
        response_times::newest(s, n)[i] == s[s.len() - response_times::newest(s, n).len() + i],
{
}

/// The tail shows the newest first.
pub proof fn the_tail_is_newest_first(s: Seq<SampleView>, n: int, i: int)
    requires
        n >= 0,
        0 <= i < response_times::latest_first(s, n).len(),
    ensures
        response_times::latest_first(s, n)[i] == s[s.len() - 1 - i],
        response_times::latest_first(s, n).len() == response_times::newest(s, n).len(),
{
}

/// A time says each thing under its own name.
pub proof fn a_sample_says_each_thing_under_its_name(j: Json)
    requires
        j is Fields,
    ensures
        response_times::sample_in(j) matches Some(s) ==> {
            &&& json::signed_in(json::field(j, "t"@)) == Some(s.t)
            &&& json::text_in(json::field(j, "lane"@)) == Some(s.lane)
            &&& json::text_in(json::field(j, "token"@)) == Some(s.token)
            &&& json::unsigned_in(json::field(j, "side"@)) == Some(s.side as u64)
            &&& json::micros_in(json::field(j, "us"@)) == Some(s.us)
        },
{
}

/// Sixty-four times are kept.
pub proof fn sixty_four_times_are_kept(v: Seq<SampleView>, s: SampleView)
    requires
        v.len() <= 64,
    ensures
        response_times::newest(v.push(s), response_times::CAP as int).len() == (if v.len() < 64 {
            v.len() + 1
        } else {
            64
        }),
        response_times::newest(v.push(s), response_times::CAP as int).last() == s,
{
}

} // verus!
