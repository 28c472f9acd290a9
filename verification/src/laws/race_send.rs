//! What comes of an order that was sent over several paths.

use vstd::prelude::*;
use crate::race_send;
use crate::race_send::{OutcomeView, PathResult};
use crate::text;

verus! {

/// The quickest of the replies that count: it counts, none that counts was quicker, and of two
/// as quick it is the first. There is none only where none counts.
pub proof fn the_quickest_is_the_quickest(
    results: Seq<PathResult>,
    counts: Seq<bool>,
    n: int,
    j: int,
)
    requires
        0 <= n <= results.len(),
        n <= counts.len(),
    ensures
        race_send::quickest(results, counts, n) matches Some(i) ==> 0 <= i < n && counts[i] && (0
            <= j < n && counts[j] ==> results[i].ms <= results[j].ms && (j < i ==> results[i].ms
            < results[j].ms)),
        race_send::quickest(results, counts, n) is None ==> (0 <= j < n ==> !counts[j]),
    decreases n,
{
    if n > 0 {
        the_quickest_is_the_quickest(results, counts, n - 1, j);
        if race_send::quickest(results, counts, n - 1) is Some {
            let b = race_send::quickest(results, counts, n - 1)->0;
            the_quickest_is_the_quickest(results, counts, n - 1, b);
        }
    }
}

/// A match is won by the quickest reply that says so, with its body, path and time.
pub proof fn the_quickest_match_wins(
    results: Seq<PathResult>,
    ids: Seq<Option<Seq<char>>>,
    j: int,
)
    requires
        0 <= j < results.len(),
    ensures
        race_send::resolution(results, ids) is Matched <==> exists|k: int|
            0 <= k < results.len() && race_send::is_matched((#[trigger] results[k]).body@),
        race_send::resolution(results, ids) matches OutcomeView::Matched { body, winner, ms }
            ==> exists|i: int|
            0 <= i < results.len() && (#[trigger] results[i]).body@ == body && results[i].path@
                == winner && results[i].ms == ms && race_send::is_matched(results[i].body@) && (
            race_send::is_matched(results[j].body@) ==> ms <= results[j].ms),
{
    let f = race_send::matched_flags(results);
    let n = results.len() as int;
    the_quickest_is_the_quickest(results, f, n, j);
    if race_send::quickest(results, f, n) is Some {
        let i = race_send::quickest(results, f, n)->0;
        the_quickest_is_the_quickest(results, f, n, i);
        assert(race_send::is_matched(results[i].body@));
    } else {
        assert forall|k: int| 0 <= k < results.len() implies !race_send::is_matched(
            (#[trigger] results[k]).body@,
        ) by {
            the_quickest_is_the_quickest(results, f, n, k);
            assert(!f[k]);
        }
    }
}

/// Where nothing matched, the order rests with the quickest reply that says it rests and names
/// it; the outcome carries that name.
pub proof fn the_quickest_resting_order_stands(
    results: Seq<PathResult>,
    ids: Seq<Option<Seq<char>>>,
    j: int,
)
    requires
        0 <= j < results.len(),
        ids.len() == results.len(),
    ensures
        race_send::resolution(results, ids) matches OutcomeView::Resting {
            order_id,
            body,
            winner,
            ms,
        } ==> exists|i: int|
            0 <= i < results.len() && (#[trigger] results[i]).body@ == body && results[i].path@
                == winner && results[i].ms == ms && ids[i] == Some(order_id)
                && race_send::is_resting(results[i].body@) && (race_send::is_resting(
                results[j].body@,
            ) && ids[j] is Some ==> ms <= results[j].ms),
{
    let f = race_send::resting_flags(results, ids);
    let n = results.len() as int;
    the_quickest_is_the_quickest(results, f, n, j);
    if race_send::quickest(results, f, n) is Some {
        let i = race_send::quickest(results, f, n)->0;
        the_quickest_is_the_quickest(results, f, n, i);
        assert(race_send::is_resting(results[i].body@));
        assert(ids[i] is Some);
    }
}

/// Where nothing matched or rests: a path that calls the order a duplicate means that it
/// stands; else the order is refused where any path answered, with what the first path said,
/// and open where none did.
pub proof fn what_is_left_is_a_duplicate_a_refusal_or_open(
    results: Seq<PathResult>,
    ids: Seq<Option<Seq<char>>>,
)
    requires
        results.len() > 0,
        ids.len() == results.len(),
        forall|k: int| 0 <= k < results.len() ==> !race_send::is_matched((#[trigger] results[k]).body@),
        forall|k: int|
            0 <= k < results.len() ==> !(race_send::is_resting((#[trigger] results[k]).body@)
                && ids[k] is Some),
    ensures
        ({
            let o = race_send::resolution(results, ids);
            let duplicated = exists|k: int|
                0 <= k < results.len() && race_send::is_duplicate((#[trigger] results[k]).body@);
            let answered = exists|k: int|
                0 <= k < results.len() && 0 < (#[trigger] results[k]).http < 500;
            &&& o is DuplicateOnly <==> duplicated
            &&& o is Rejected <==> !duplicated && answered
            &&& o is Ambiguous <==> !duplicated && !answered
            &&& o matches OutcomeView::Rejected { body } ==> body == results[0].body@
            &&& o matches OutcomeView::DuplicateOnly { winner } ==> exists|i: int|
                0 <= i < results.len() && (#[trigger] results[i]).path@ == winner
                    && race_send::is_duplicate(results[i].body@) && forall|k: int|
                    0 <= k < i ==> !race_send::is_duplicate((#[trigger] results[k]).body@)
        }),
{
    let n = results.len() as int;
    let m = race_send::matched_flags(results);
    let f = race_send::resting_flags(results, ids);
    if race_send::quickest(results, m, n) is Some {
        the_quickest_is_the_quickest(results, m, n, 0);
        assert(race_send::is_matched(results[race_send::quickest(results, m, n)->0].body@));
    }
    if race_send::quickest(results, f, n) is Some {
        the_quickest_is_the_quickest(results, f, n, 0);
        let i = race_send::quickest(results, f, n)->0;
        assert(race_send::is_resting(results[i].body@));
    }
    the_first_duplicate_is_first(results, 0);
    if race_send::first_duplicate(results, 0) is Some {
        let i = race_send::first_duplicate(results, 0)->0;
        assert(race_send::is_duplicate(results[i].body@));
    }
    if !race_send::all_silent(results) {
        let k = choose|k: int|
            0 <= k < results.len() && !((#[trigger] results[k]).http == 0 || results[k].http >= 500);
        assert(0 < results[k].http < 500);
    }
}

proof fn the_first_duplicate_is_first(results: Seq<PathResult>, from: int)
    requires
        0 <= from <= results.len(),
    ensures
        race_send::first_duplicate(results, from) matches Some(i) ==> from <= i < results.len()
            && race_send::is_duplicate(results[i].body@) && forall|k: int|
            from <= k < i ==> !race_send::is_duplicate((#[trigger] results[k]).body@),
        race_send::first_duplicate(results, from) is None ==> forall|k: int|
            from <= k < results.len() ==> !race_send::is_duplicate((#[trigger] results[k]).body@),
    decreases results.len() - from,
{
    if from < results.len() {
        the_first_duplicate_is_first(results, from + 1);
    }
}

/// A body that says it failed is neither a match nor an order that rests, whatever status it
/// names.
pub proof fn a_failure_is_no_success(body: Seq<char>)
    requires
        race_send::is_failure(body),
    ensures
        !race_send::is_matched(body),
        !race_send::is_resting(body),
{
}

/// Of the names that an order may go by, the first that is there is taken, and an empty one is
/// none.
pub proof fn an_order_goes_by_its_first_name(v: crate::json::Json)
    ensures
        race_send::id_under(v, "orderID"@) is Some ==> race_send::id_in(v) == race_send::id_under(
            v,
            "orderID"@,
        ),
        race_send::id_in(v) matches Some(s) ==> s.len() > 0,
        race_send::id_in(v) is None <==> race_send::id_under(v, "orderID"@) is None
            && race_send::id_under(v, "orderId"@) is None && race_send::id_under(v, "order_id"@) is None
            && race_send::id_under(v, "id"@) is None,
{
}

/// The reply that is told beside a duplicate is the first one in which the venue answered, and
/// which is not itself a duplicate.
pub proof fn the_first_verdict_is_first(results: Seq<PathResult>, from: int)
    requires
        0 <= from <= results.len(),
    ensures
        race_send::first_verdict(results, from) matches Some(i) ==> from <= i < results.len()
            && !race_send::is_duplicate(results[i].body@) && 0 < results[i].http < 500 && forall|k: int|
            from <= k < i ==> race_send::is_duplicate((#[trigger] results[k]).body@)
                || results[k].http == 0 || results[k].http >= 500,
        race_send::first_verdict(results, from) is None ==> forall|k: int|
            from <= k < results.len() ==> race_send::is_duplicate((#[trigger] results[k]).body@)
                || results[k].http == 0 || results[k].http >= 500,
    decreases results.len() - from,
{
    if from < results.len() {
        the_first_verdict_is_first(results, from + 1);
    }
}

/// What a body says is read in any case of its letters: that it failed, that it is a duplicate,
/// and, where it did not fail, that it matched or that it rests.
pub proof fn a_body_is_read_by_what_it_says(body: Seq<char>)
    ensures
        ({
            let b = text::lower_of(body);
            &&& race_send::is_failure(body) <==> text::occurs(b, "\"success\":false"@)
                || text::occurs(b, "\"success\": false"@)
            &&& text::occurs(b, "duplicate"@) || text::occurs(b, "already exists"@) || text::occurs(
                b,
                "already known"@,
            ) || text::occurs(b, "order exists"@) || text::occurs(b, "already placed"@)
                || text::occurs(b, "same order"@) || text::occurs(b, "orderalreadyexists"@)
                ==> race_send::is_duplicate(body)
            &&& !race_send::is_failure(body) && (text::occurs(b, "\"status\":\"matched\""@)
                || text::occurs(b, "\"status\": \"matched\""@) || text::occurs(
                b,
                "\"status\":\"filled\""@,
            ) || text::occurs(b, "\"status\": \"filled\""@)) ==> race_send::is_matched(body)
            &&& !race_send::is_failure(body) && (text::occurs(b, "\"status\":\"live\""@)
                || text::occurs(b, "\"status\": \"live\""@) || text::occurs(
                b,
                "\"status\":\"unmatched\""@,
            ) || text::occurs(b, "\"status\": \"unmatched\""@) || text::occurs(
                b,
                "\"status\":\"delayed\""@,
            ) || text::occurs(b, "\"status\": \"delayed\""@)) ==> race_send::is_resting(body)
        }),
        race_send::is_matched(text::lower_of(body)) == race_send::is_matched(body),
        race_send::is_resting(text::lower_of(body)) == race_send::is_resting(body),
        race_send::is_duplicate(text::lower_of(body)) == race_send::is_duplicate(body),
{
    assert(text::lower_of(text::lower_of(body)) =~= text::lower_of(body));
}

} // verus!
