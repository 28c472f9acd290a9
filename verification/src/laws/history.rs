//! What the ledger's past shows.

use vstd::prelude::*;
use crate::history;
use crate::history::{ContinuityVerdict, Course, Prior};
use crate::json::Json;
use crate::ledger::LedgerView;
use crate::rows;
use crate::text;
use crate::units;

verus! {

/// Whether a line releases shares of a token of a lane, from a time on.
pub open spec fn releases(j: Json, lane: Seq<char>, token: Seq<char>, not_before: int) -> bool {
    history::is_release(j) && history::says(j, "lane"@, lane) && history::says(j, "token"@, token)
        && rows::read_row(j).t >= not_before
}

/// The last release of a token is the last line that is one: its shares, its price and its
/// time. There is none where no line is one.
#[verifier::spinoff_prover]
#[verifier::rlimit(50)]
pub proof fn the_last_release_is_the_last(
    docs: Seq<Json>,
    lane: Seq<char>,
    token: Seq<char>,
    not_before: i64,
    i: int,
)
    requires
        -1 <= i < docs.len(),
        i >= 0 ==> releases(docs[i], lane, token, not_before as int),
        forall|j: int|
            i < j < docs.len() ==> !releases(#[trigger] docs[j], lane, token, not_before as int),
    ensures
        history::last_release(docs, lane, token, not_before) == (if i < 0 {
            None
        } else {
            let r = rows::read_row(docs[i]);
            Some((r.shares, r.price, r.t))
        }),
    decreases docs.len(),
{
    if docs.len() > 0 {
        assert(docs.last() == docs[docs.len() - 1]);
        if i < docs.len() - 1 {
            let before = docs.drop_last();
            assert forall|j: int| i < j < before.len() implies !releases(
                #[trigger] before[j],
                lane,
                token,
                not_before as int,
            ) by {
                assert(before[j] == docs[j]);
            }
            if i >= 0 {
                assert(before[i] == docs[i]);
            }
            the_last_release_is_the_last(before, lane, token, not_before, i);
        }
    }
}

/// The newest reset is a reset, and none is newer; there is none only where none is told with a
/// time.
pub proof fn the_newest_reset_is_the_newest(docs: Seq<Json>, r: Option<i64>, i: int, t: i64)
    requires
        history::is_newest(docs, r),
        0 <= i < docs.len(),
        history::says(docs[i], "ev"@, "realised_reset"@),
        crate::json::signed_in(crate::json::field(docs[i], "t"@)) == Some(t),
    ensures
        r matches Some(m) && t <= m,
        r matches Some(m) && exists|k: int|
            0 <= k < docs.len() && history::says(#[trigger] docs[k], "ev"@, "realised_reset"@)
                && crate::json::signed_in(crate::json::field(docs[k], "t"@)) == Some(m),
{
    assert(history::reset_time(docs[i]) == Some(t));
    let m = r->0;
    let k = choose|k: int| 0 <= k < docs.len() && history::reset_time(#[trigger] docs[k]) == Some(m);
    assert(history::says(docs[k], "ev"@, "realised_reset"@));
}

/// A lane began with its oldest line: none of its own, with a time, is older.
pub proof fn a_lane_began_with_its_oldest_line(
    docs: Seq<Json>,
    lane: Seq<char>,
    r: Option<i64>,
    i: int,
    t: i64,
)
    requires
        history::is_oldest(docs, lane, r),
        0 <= i < docs.len(),
        history::says(docs[i], "lane"@, lane),
        crate::json::signed_in(crate::json::field(docs[i], "t"@)) == Some(t),
        t > 0,
    ensures
        r matches Some(m) && 0 < m <= t,
        r matches Some(m) && exists|k: int|
            0 <= k < docs.len() && history::says(#[trigger] docs[k], "lane"@, lane)
                && crate::json::signed_in(crate::json::field(docs[k], "t"@)) == Some(m),
{
    assert(history::lane_time(docs[i], lane) == Some(t));
    let m = r->0;
    let k = choose|k: int|
        0 <= k < docs.len() && history::lane_time(#[trigger] docs[k], lane) == Some(m);
    assert(history::says(docs[k], "lane"@, lane));
}

/// A key is known by either of the names that a line gives it, and for what is settled by the
/// first alone.
pub proof fn a_key_is_known_by_either_name(docs: Seq<Json>, j: Json, key: Seq<char>)
    ensures
        history::has_key(docs.push(j), key) <==> history::has_key(docs, key) || history::says(
            j,
            "key"@,
            key,
        ) || history::says(j, "alt_key"@, key),
        history::has_main_key(docs.push(j), key) <==> history::has_main_key(docs, key)
            || history::says(j, "key"@, key),
        history::has_main_key(docs, key) ==> history::has_key(docs, key),
{
    let all = docs.push(j);
    assert(all[docs.len() as int] == j);
    assert(forall|i: int| 0 <= i < docs.len() ==> #[trigger] docs[i] == all[i]);
    if history::has_key(docs, key) {
        let i = choose|i: int| 0 <= i < docs.len() && history::gives_key(#[trigger] docs[i], key);
        assert(history::gives_key(all[i], key));
    }
    if history::has_key(all, key) {
        let i = choose|i: int| 0 <= i < all.len() && history::gives_key(#[trigger] all[i], key);
        if i < docs.len() {
            assert(history::gives_key(docs[i], key));
        }
    }
    if history::says(j, "key"@, key) || history::says(j, "alt_key"@, key) {
        assert(history::gives_key(all[docs.len() as int], key));
    }
    if history::has_main_key(docs, key) {
        let i = choose|i: int| 0 <= i < docs.len() && history::says(#[trigger] docs[i], "key"@, key);
        assert(history::says(all[i], "key"@, key));
        assert(history::gives_key(docs[i], key));
    }
    if history::has_main_key(all, key) {
        let i = choose|i: int| 0 <= i < all.len() && history::says(#[trigger] all[i], "key"@, key);
        if i < docs.len() {
            assert(history::says(docs[i], "key"@, key));
        }
    }
}

/// Of all releases the last of each lane and token is kept.
pub proof fn the_last_release_of_each_is_kept(
    docs: Seq<Json>,
    j: Json,
    lane: Seq<char>,
    token: Seq<char>,
    other: (Seq<char>, Seq<char>),
)
    requires
        history::says(j, "lane"@, lane),
        history::says(j, "token"@, token),
        other != (lane, token),
    ensures
        ({
            let a = history::all_releases(docs.push(j));
            let b = history::all_releases(docs);
            let r = rows::read_row(j);
            &&& history::is_release(j) ==> a.contains_key((lane, token)) && a[(lane, token)] == (
                r.shares,
                r.price,
                r.t,
            )
            &&& !history::is_release(j) ==> a == b
            &&& a.contains_key(other) == b.contains_key(other)
            &&& b.contains_key(other) ==> a[other] == b[other]
        }),
{
    assert(docs.push(j).drop_last() =~= docs);
}

/// A value is plotted to the nearest cent, away from nothing from the middle: a cent is ten
/// thousand millionths of a dollar.
pub proof fn a_value_is_plotted_to_the_cent(x: int)
    ensures
        history::cents(x) % 10_000 == 0,
        -5_000_000_000 <= history::cents(x) * 1_000_000 - x <= 5_000_000_000,
        history::cents(-x) == -history::cents(x),
{
}

/// What the lanes realised, summed.
pub open spec fn realised(l: LedgerView, order: Seq<Seq<char>>) -> int
    decreases order.len(),
{
    if order.len() == 0 {
        0
    } else {
        realised(l, order.drop_last()) + l.lanes[order.last()].risk.realised_pnl
    }
}

/// All lanes together realised what each of them did, summed.
pub proof fn all_lanes_are_summed(l: LedgerView, order: Seq<Seq<char>>)
    requires
        forall|i: int|
            0 <= i <= order.len()
                ==> -1_000_000_000_000_000_000_000_000_000_000_000_000 <= realised(
                l,
                #[trigger] order.take(i),
            ) <= 1_000_000_000_000_000_000_000_000_000_000_000_000,
    ensures
        history::realised_by(l, order) == realised(l, order),
    decreases order.len(),
{
    if order.len() > 0 {
        let before = order.drop_last();
        assert forall|i: int| 0 <= i <= before.len() implies
            -1_000_000_000_000_000_000_000_000_000_000_000_000 <= realised(
            l,
            #[trigger] before.take(i),
        ) <= 1_000_000_000_000_000_000_000_000_000_000_000_000 by {
            assert(before.take(i) =~= order.take(i));
        }
        all_lanes_are_summed(l, before);
        assert(order.take(order.len() as int) =~= order);
    }
}

/// A row of the lane that is asked for, with a time, ends the series with what stands then; one
/// of another lane, or without a time, adds no point.
pub proof fn a_row_ends_the_series(c: Course, j: Json, lane: Option<Seq<char>>, now: int)
    ensures
        ({
            let r = rows::read_row(j);
            let a = c.after(j, lane, now);
            let own = r.lane.len() > 0 && r.t > 0 && (lane matches Some(n) ==> n == r.lane);
            &&& !own ==> a.series == c.series
            &&& own ==> a.series.len() > 0 && a.series.last() == (
                r.t,
                history::cents(units::clip(a.total(lane))) as i128,
            )
            &&& own ==> a.series.len() == c.series.len() + (if c.series.len() > 0
                && c.series.last().0 == r.t {
                0int
            } else {
                1
            })
            &&& own ==> forall|i: int|
                0 <= i < a.series.len() - 1 ==> #[trigger] a.series[i] == c.series[i]
        }),
{
    let r = rows::read_row(j);
    let w = c.with_lane(r.lane, now);
    let next = Course { ledger: w.ledger.applied(r, now), ..w };
    let a = c.after(j, lane, now);
    assert(next.series == c.series);
    assert(a.ledger == next.ledger || r.lane.len() == 0);
    assert(a.order == next.order || r.lane.len() == 0);
}

/// The value at a time is that of the last point no later than it, and nothing where there is
/// none.
pub proof fn the_value_at_a_time(series: Seq<(i64, i128)>, cutoff: int, i: int)
    requires
        -1 <= i < series.len(),
        i >= 0 ==> series[i].0 <= cutoff,
        forall|j: int| i < j < series.len() ==> (#[trigger] series[j]).0 > cutoff,
    ensures
        history::value_at(series, cutoff) == (if i < 0 {
            0
        } else {
            series[i].1 as int
        }),
    decreases series.len(),
{
    if series.len() > 0 {
        assert(series.last() == series[series.len() - 1]);
        if i < series.len() - 1 {
            let before = series.drop_last();
            assert forall|j: int| i < j < before.len() implies (#[trigger] before[j]).0
                > cutoff by {
                assert(before[j] == series[j]);
            }
            if i >= 0 {
                assert(before[i] == series[i]);
            }
            the_value_at_a_time(before, cutoff, i);
        }
    }
}

/// What was realised since a time is what stands at the end less what stood then, to the cent.
pub proof fn a_window_is_the_difference(series: Seq<(i64, i128)>, cutoff: int, x: int)
    requires
        x == history::end_value(series) - history::value_at(series, cutoff),
        -1_000_000_000_000_000_000_000_000_000_000 <= x
            <= 1_000_000_000_000_000_000_000_000_000_000,
    ensures
        -5_000 <= history::since(series, cutoff) - x <= 5_000,
        x % 10_000 == 0 ==> history::since(series, cutoff) == x,
        series.len() > 0 ==> history::end_value(series) == series.last().1,
{
}

/// The windows are a day, seven, thirty and three hundred and sixty-five of them, and the year
/// that it is; a window that began before the first point holds everything.
pub proof fn windows_are_as_long_as_they_say(
    series: Seq<(i64, i128)>,
    now: int,
    r: history::RealisedWindows,
)
    requires
        history::windows(series, now, r),
    ensures
        r.d1 == history::since(series, now - 24 * 60 * 60),
        r.d7 == history::since(series, now - 7 * 24 * 60 * 60),
        r.d30 == history::since(series, now - 30 * 24 * 60 * 60),
        r.y1 == history::since(series, now - 365 * 24 * 60 * 60),
        (forall|i: int| 0 <= i < series.len() ==> (#[trigger] series[i]).0 > now - 24 * 60 * 60)
            ==> r.d1 == r.total,
{
    if forall|i: int| 0 <= i < series.len() ==> (#[trigger] series[i]).0 > now - 24 * 60 * 60 {
        the_value_at_a_time(series, now - 24 * 60 * 60, -1);
    }
}

/// A file whose past was kept is intact exactly where it has no fewer lines than then and its
/// first lines hash to what they did; one that cannot be read is broken.
pub proof fn a_past_that_was_kept_is_held_to(
    path: Seq<char>,
    prev: history::Continuity,
    raw: Option<Seq<char>>,
    v: ContinuityVerdict,
)
    requires
        history::verdict(path, Prior::Found(prev), raw, v),
    ensures
        v is Intact <==> (raw matches Some(s) && text::lines_of(s).len() >= prev.lines
            && history::prefix_hash(text::lines_of(s), prev.lines as int) == prev.prefix_sha256@),
        !(v is FirstRun),
{
}

/// What the first lines hash to does not change as lines are added behind them, and all the lines
/// are hashed where there are no more than are asked for.
pub proof fn what_was_hashed_stays_hashed(
    lines: Seq<Seq<char>>,
    more: Seq<Seq<char>>,
    n: int,
)
    requires
        0 <= n,
    ensures
        n <= lines.len() ==> history::prefix_hash(lines + more, n) == history::prefix_hash(
            lines,
            n,
        ),
        n <= lines.len() ==> history::prefix_hash(lines, n) == history::prefix_hash(
            lines.take(n),
            n,
        ),
        n >= lines.len() ==> history::prefix_hash(lines, n) == history::prefix_hash(
            lines,
            lines.len() as int,
        ),
        history::prefix_hash(lines, lines.len() as int) == text::hex_of(
            crate::digests::sha256(history::line_bytes(lines)),
        ),
{
    if n <= lines.len() {
        assert((lines + more).take(n) =~= lines.take(n));
        assert(lines.take(n).take(n) =~= lines.take(n));
    }
    assert(lines.take(lines.len() as int) =~= lines);
}

} // verus!
