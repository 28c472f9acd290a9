//! What the feed of errors keeps and counts.

use vstd::prelude::*;
use crate::errors;
use crate::errors::ErrorView;
use crate::json;
use crate::json::Json;
use crate::text;

verus! {

/// A stop is more urgent than a warning, a warning than a notice, and a notice than the rest.
pub proof fn stops_come_first(s: Seq<char>)
    ensures
        errors::urgency("stop"@) < errors::urgency("warn"@) < errors::urgency("notice"@),
        s != "stop"@ && s != "warn"@ && s != "notice"@ ==> errors::urgency(s) > errors::urgency(
            "notice"@,
        ),
{
    reveal_strlit("stop");
    reveal_strlit("warn");
    reveal_strlit("notice");
    assert("stop"@[0] != "warn"@[0]);
    assert("notice"@.len() == 6);
}

/// A feed is cut once it has more than eight hundred lines, to its newest four hundred; else it
/// stays as it is.
pub proof fn a_feed_is_cut_to_its_newest(raw: Seq<char>)
    ensures
        errors::kept_of(raw) is Some <==> text::lines_of(raw).len() > 800,
        errors::kept_of(raw) matches Some(t) ==> t == errors::written(
            text::lines_of(raw).skip(text::lines_of(raw).len() - 400),
        ),
{
}

/// What is written is each line with a break behind it, in their order.
pub proof fn lines_are_written_in_order(a: Seq<Seq<char>>, b: Seq<Seq<char>>)
    ensures
        errors::written(a + b) == errors::written(a) + errors::written(b),
        errors::written(seq![Seq::<char>::empty()]) == "\n"@,
    decreases b.len(),
{
    if b.len() == 0 {
        assert(a + b =~= a);
        assert(errors::written(b) =~= Seq::empty());
        assert(errors::written(a) + errors::written(b) =~= errors::written(a));
    } else {
        assert((a + b).drop_last() =~= a + b.drop_last());
        assert((a + b).last() == b.last());
        lines_are_written_in_order(a, b.drop_last());
        assert(errors::written(a + b) =~= errors::written(a) + errors::written(b));
    }
    let e = seq![Seq::<char>::empty()];
    assert(e.drop_last() =~= Seq::empty());
    assert(errors::written(e.drop_last()) =~= Seq::empty());
    assert(errors::written(e) =~= "\n"@);
}

/// The newest rows come first, and as many as are asked or there are.
pub proof fn the_newest_error_comes_first(all: Seq<ErrorView>, n: int, i: int)
    requires
        n >= 0,
        0 <= i < errors::newest_of(all, n).len(),
    ensures
        errors::newest_of(all, n)[i] == all[all.len() - 1 - i],
        errors::newest_of(all, n).len() == (if all.len() <= n {
            all.len() as int
        } else {
            n
        }),
{
}

/// The lanes that are counted are those of the rows from a time on.
pub proof fn lanes_with_rows_are_counted(rows: Seq<ErrorView>, cutoff: int, e: ErrorView)
    ensures
        errors::lanes_in(rows.push(e), cutoff) == (if e.t >= cutoff {
            errors::lanes_in(rows, cutoff).push(e.lane)
        } else {
            errors::lanes_in(rows, cutoff)
        }),
        errors::lanes_in(Seq::empty(), cutoff).len() == 0,
{
    assert(rows.push(e).drop_last() =~= rows);
}

/// An error says each thing under its own name, and the rows of a feed are all that say one.
pub proof fn an_error_says_each_thing_under_its_name(docs: Seq<Json>, j: Json)
    requires
        j is Fields,
    ensures
        errors::error_in(j) matches Some(e) ==> {
            &&& json::signed_in(json::field(j, "t"@)) == Some(e.t)
            &&& json::text_in(json::field(j, "lane"@)) == Some(e.lane)
            &&& json::text_in(json::field(j, "kind"@)) == Some(e.kind)
            &&& json::text_in(json::field(j, "detail"@)) == Some(e.detail)
            &&& json::text_in(json::field(j, "human"@)) == Some(e.human)
            &&& json::text_in(json::field(j, "severity"@)) == Some(e.severity)
            &&& errors::errors_in(docs.push(j)) == errors::errors_in(docs).push(e)
        },
        errors::error_in(j) is None ==> errors::errors_in(docs.push(j)) == errors::errors_in(docs),
{
    assert(docs.push(j).drop_last() =~= docs);
}

/// How many rows of a lane there are from a time on.
pub open spec fn rows_of(rows: Seq<ErrorView>, cutoff: int, lane: Seq<char>) -> int {
    rows.filter(|e: ErrorView| e.t >= cutoff && e.lane == lane).len() as int
}

/// Every row of a lane from a time on is counted once: as a stop, as a warning, or as something
/// else; and a row more counts for its own lane and severity.
pub proof fn every_row_is_counted_once(
    rows: Seq<ErrorView>,
    cutoff: int,
    lane: Seq<char>,
    e: ErrorView,
)
    ensures
        ({
            let c = errors::counts(rows, cutoff, lane);
            let d = errors::counts(rows.push(e), cutoff, lane);
            let own = e.t >= cutoff && e.lane == lane;
            &&& c.0 + c.1 + c.2 == rows_of(rows, cutoff, lane)
            &&& d.0 - c.0 == (if own && e.severity == "stop"@ {
                1int
            } else {
                0
            })
            &&& d.1 - c.1 == (if own && e.severity == "warn"@ {
                1int
            } else {
                0
            })
            &&& d.2 - c.2 == (if own && e.severity != "stop"@ && e.severity != "warn"@ {
                1int
            } else {
                0
            })
        }),
    decreases rows.len(),
{
    reveal_strlit("stop");
    reveal_strlit("warn");
    assert("stop"@[0] != "warn"@[0]);
    reveal(Seq::filter);
    assert(rows.push(e).drop_last() =~= rows);
    if rows.len() > 0 {
        every_row_is_counted_once(rows.drop_last(), cutoff, lane, rows.last());
        assert(rows.drop_last().push(rows.last()) =~= rows);
    }
}

} // verus!
