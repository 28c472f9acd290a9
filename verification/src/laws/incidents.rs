//! When a lane is stopped and let go.

use vstd::prelude::*;
use crate::incidents;
use crate::incidents::{IncidentView, JournalView};
use crate::json;
use crate::json::Json;

verus! {

/// A lane that is raised is held from then on, for the first reason that it was raised for, and
/// no other lane is; it is let go by a clear of its own.
pub proof fn a_raise_holds_its_lane(
    m: Map<Seq<char>, IncidentView>,
    lane: Seq<char>,
    kind: Seq<char>,
    why: Seq<char>,
    by: Seq<char>,
    now: i64,
    other: Seq<char>,
)
    requires
        other != lane,
    ensures
        ({
            let i = incidents::raised(lane, kind, why, now);
            let a = incidents::after_line(m, i);
            let c = incidents::after_line(a, incidents::cleared(lane, by, now));
            &&& a.contains_key(lane)
            &&& m.contains_key(lane) ==> a[lane] == m[lane]
            &&& !m.contains_key(lane) ==> a[lane] == i
            &&& !c.contains_key(lane)
            &&& a.contains_key(other) == m.contains_key(other)
            &&& c.contains_key(other) == m.contains_key(other)
            &&& m.contains_key(other) ==> c[other] == m[other]
        }),
{
    reveal_strlit("raise");
    reveal_strlit("clear");
    assert("raise"@[0] != "clear"@[0]);
}

/// A raise says who, what, why and when; of the why no more than four hundred characters.
pub proof fn a_raise_says_why(lane: Seq<char>, kind: Seq<char>, why: Seq<char>, now: i64)
    ensures
        ({
            let i = incidents::raised(lane, kind, why, now);
            &&& i.lane == lane && i.kind == kind && i.t == now
            &&& why.len() <= 400 ==> i.why == why
            &&& why.len() > 400 ==> i.why == why.take(400)
        }),
        incidents::cleared(lane, kind, now).by == kind,
        incidents::cleared(lane, kind, now).lane == lane,
{
}

/// An incident says each thing under its own name.
pub proof fn an_incident_says_each_thing_under_its_name(j: Json)
    requires
        j is Fields,
    ensures
        incidents::incident_in(j) matches Some(i) ==> {
            &&& json::signed_in(json::field(j, "t"@)) == Some(i.t)
            &&& json::text_in(json::field(j, "lane"@)) == Some(i.lane)
            &&& json::text_in(json::field(j, "kind"@)) == Some(i.kind)
            &&& json::text_in(json::field(j, "why"@)) == Some(i.why)
            &&& json::text_in(json::field(j, "ev"@)) == Some(i.ev)
            &&& json::text_in(json::field(j, "by"@)) matches Some(b) ==> i.by == b
            &&& json::field(j, "by"@) is None ==> i.by.len() == 0
        },
{
}

/// What is raised again for the same kind is not written again; a journal that cannot be read
/// holds every lane.
pub proof fn what_is_raised_is_written_once(
    v: JournalView,
    lane: Seq<char>,
    kind: Seq<char>,
    why: Seq<char>,
    now: i64,
)
    ensures
        v.to_raise(lane, kind, why, now) is None <==> v.open.contains_key(lane)
            && v.open[lane].kind == kind,
        v.to_raise(lane, kind, why, now) matches Some(i) ==> i == incidents::raised(
            lane,
            kind,
            why,
            now,
        ),
        v.unreadable is Some ==> v.holds(lane),
        v.unreadable is None ==> (v.holds(lane) <==> v.open.contains_key(lane)),
{
}

} // verus!
