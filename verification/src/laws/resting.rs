//! Which of our resting orders are known, and which go.

use vstd::prelude::*;
use crate::json;
use crate::json::Json;
use crate::resting;
use crate::resting::{RestingBookView, RestingView};
use crate::text;
use crate::units::Reading;

verus! {

/// Buys go where the lane is halted, retired or not armed, and stay otherwise; sells stay.
pub proof fn only_buys_of_a_stopped_lane_go(side: u8, halted: bool, armed: bool, retired: bool)
    ensures
        resting::must_pull(side, halted, armed, retired) <==> side == 0 && !(armed && !halted
            && !retired),
{
}

/// An order has rested for as long as it may when its time has passed, and not a second
/// before.
pub proof fn an_order_goes_when_its_time_has_passed(
    rows: Seq<RestingView>,
    now: i64,
    ttl_secs: i64,
    i: int,
)
    requires
        0 <= i < rows.len(),
    ensures
        resting::stale(rows, now, ttl_secs).contains(rows[i]) <==> now >= rows[i].placed + ttl_secs,
        resting::stale(rows, now, ttl_secs).len() <= rows.len(),
{
    let f = |x: RestingView| now - x.placed >= ttl_secs;
    rows.lemma_filter_len(f);
    if f(rows[i]) {
        rows.lemma_filter_contains(f, i);
    }
    if rows.filter(f).contains(rows[i]) {
        let k = choose|k: int| 0 <= k < rows.filter(f).len() && rows.filter(f)[k] == rows[i];
        rows.lemma_filter_pred(f, k);
    }
}

/// Where there are too many orders as many go as are too many, and they are the oldest: none
/// that stays was placed before one that goes.
pub proof fn the_oldest_go(rows: Seq<RestingView>, out: Seq<RestingView>, cap: int, x: RestingView)
    requires
        cap >= 0,
        resting::sheds(rows, out, cap),
    ensures
        rows.len() <= cap ==> out.len() == 0,
        rows.len() > cap ==> out.len() == rows.len() - cap,
        out.to_multiset().subset_of(rows.to_multiset()),
        rows.to_multiset().sub(out.to_multiset()).count(x) > 0 ==> forall|i: int|
            0 <= i < out.len() ==> (#[trigger] out[i]).placed <= x.placed,
{
    if rows.len() > cap {
        let s = choose|s: Seq<RestingView>| #[trigger]
            resting::ages(s, rows) && out == s.take(rows.len() - cap);
        let k = rows.len() - cap;
        let rest = s.skip(k);
        assert(s =~= out + rest);
        vstd::seq_lib::lemma_multiset_commutative(out, rest);
        assert(rows.to_multiset() == out.to_multiset().add(rest.to_multiset()));
        assert(rows.to_multiset().sub(out.to_multiset()) =~= rest.to_multiset());
        if rest.to_multiset().count(x) > 0 {
            rest.to_multiset_ensures();
            assert(rest.contains(x));
            let j = choose|j: int| 0 <= j < rest.len() && rest[j] == x;
            assert forall|i: int| 0 <= i < out.len() implies (#[trigger] out[i]).placed
                <= x.placed by {
                assert(s[i] == out[i]);
                assert(s[k + j] == x);
            }
        }
    } else {
        out.to_multiset_ensures();
        assert(out =~= Seq::empty());
        assert forall|v: RestingView| out.to_multiset().count(v) <= rows.to_multiset().count(v) by {
            assert(!out.contains(v));
        }
    }
}

/// Orders may go at once where they are few, or where fewer than thirty-four of a hundred do.
pub proof fn few_orders_go_at_once(known: int, gone: int)
    requires
        known >= 0,
        gone >= 0,
    ensures
        resting::may_prune(known, gone) <==> known <= 4 || 100 * gone < 34 * known,
{
}

/// An order is settled by one at a time, under whichever of its names it goes: a second claim
/// fails until the first is done, and then another holds.
pub proof fn one_settles_at_a_time(b: RestingBookView, id: Seq<char>, other: Seq<char>)
    requires
        !b.settling.contains(text::bare(id)),
    ensures
        b.claimed(id).1,
        !b.claimed(id).0.claimed(id).1,
        !b.claimed(id).0.claimed(resting::prefixed(id)).1,
        b.claimed(id).0.settled(id).claimed(id).1,
        b.claimed(id).0.settled(id).settling == b.settling,
        text::bare(other) != text::bare(id) ==> b.claimed(id).0.claimed(other).1 == b.claimed(
            other,
        ).1,
        b.claimed(id).0.orders == b.orders,
        b.settled(id).orders == b.orders,
{
    resting::claim_is_exclusive(b, id);
    assert(b.claimed(id).0.settled(id).settling =~= b.settling);
}

/// An order that is put into the book is known, under its name with the mark of a number or
/// without, and the others stay.
pub proof fn an_order_added_is_known(b: RestingBookView, r: RestingView, other: Seq<char>)
    requires
        b.listed(),
        other != r.order_id,
    ensures
        b.with(r).tracked_as(r.order_id) == Some(r.order_id),
        b.with(r).orders[r.order_id] == r,
        b.with(r).orders.contains_key(other) == b.orders.contains_key(other),
        b.orders.contains_key(other) ==> b.with(r).orders[other] == b.orders[other],
        b.with(r).settling == b.settling,
        text::bare(r.order_id) == r.order_id ==> b.with(r).tracked_as(
            resting::prefixed(r.order_id),
        ) is Some,
        resting::prefixed(r.order_id) == r.order_id ==> b.with(r).tracked_as(
            text::bare(r.order_id),
        ) is Some,
{
    resting::claim_is_exclusive(b, r.order_id);
}

/// An order that is taken out of the book is known no more, and the others stay.
pub proof fn an_order_removed_is_gone(b: RestingBookView, id: Seq<char>, other: Seq<char>)
    requires
        b.orders.contains_key(id),
        other != id,
    ensures
        !b.without(id).orders.contains_key(id),
        b.without(id).orders.contains_key(other) == b.orders.contains_key(other),
        b.orders.contains_key(other) ==> b.without(id).orders[other] == b.orders[other],
        b.without(id).settling == b.settling,
{
}

/// An order that the venue shows is taken over with its name, its token, its limit and what of
/// it has not matched; one of which all has matched is not, nor one without a name or a token.
pub proof fn what_is_shown_is_taken_over(
    v: Json,
    lane: Seq<char>,
    now: i64,
    size: i64,
    matched: i64,
)
    requires
        resting::larger_of(
            resting::num_at(v, "original_size"@),
            resting::num_at(v, "size"@),
        ) == Reading::Finite(size),
        resting::num_at(v, "size_matched"@) == Reading::Finite(matched),
        0 <= matched,
    ensures
        resting::adopted(v, lane, now) is Some <==> size > matched && resting::either_text(
            v,
            "id"@,
            "orderID"@,
        ) is Some && resting::either_text(v, "asset_id"@, "market"@) is Some,
        resting::adopted(v, lane, now) matches Some(r) ==> {
            &&& r.shares == size - matched
            &&& Some(r.order_id) == resting::either_text(v, "id"@, "orderID"@)
            &&& Some(r.token) == resting::either_text(v, "asset_id"@, "market"@)
            &&& r.lane == lane
            &&& r.side == 1 <==> text::lower_of(json::text_or_none(v, "side"@)) == "sell"@
            &&& r.side <= 1
            &&& resting::num_at(v, "price"@) matches Reading::Finite(p) ==> r.limit == p
            &&& json::signed_in(json::field(v, "created_at"@)) matches Some(t) ==> r.placed == t
            &&& json::signed_in(json::field(v, "created_at"@)) is None ==> r.placed == now
            &&& r.contested_at_place
        },
{
}

/// An order is gone where the venue lists it as cancelled, or gives a reason for not cancelling
/// it that means it is not there; an answer that says neither leaves it standing.
pub proof fn an_order_is_gone_when_the_venue_says_so(v: Json, id: Seq<char>)
    ensures
        json::list_in(json::field(v, "canceled"@)) matches Some(l) ==> (forall|i: int|
            0 <= i < l.len() && json::text_in(Some(#[trigger] l[i])) == Some(id)
                ==> resting::is_gone(v, id)),
        resting::is_gone(v, id) && !(json::field(v, "not_canceled"@) is Some) ==> (json::list_in(
            json::field(v, "canceled"@),
        ) matches Some(l) && exists|i: int|
            0 <= i < l.len() && json::text_in(Some(#[trigger] l[i])) == Some(id)),
        json::field(v, "canceled"@) is None && json::field(v, "not_canceled"@) is None
            ==> !resting::is_gone(v, id),
        json::field(v, "canceled"@) is None && (json::field(v, "not_canceled"@) matches Some(nc)
            && json::text_in(json::field(nc, id)) is None) ==> !resting::is_gone(v, id),
{
    if json::list_in(json::field(v, "canceled"@)) is Some {
        let l = json::list_in(json::field(v, "canceled"@))->0;
        assert forall|i: int|
            0 <= i < l.len() && json::text_in(Some(#[trigger] l[i])) == Some(
                id,
            ) implies resting::is_gone(v, id) by {
            assert(resting::lists(l, id));
        }
    }
}

/// A reason means that an order is not there in any case of its letters.
pub proof fn a_reason_is_read_in_any_case(reason: Seq<char>)
    ensures
        resting::gone_by(text::lower_of(reason)) == resting::gone_by(reason),
        text::occurs(text::lower_of(reason), "matched"@) ==> resting::gone_by(reason),
        text::occurs(text::lower_of(reason), "already canceled"@) ==> resting::gone_by(reason),
        text::occurs(text::lower_of(reason), "can't be found"@) ==> resting::gone_by(reason),
        text::occurs(text::lower_of(reason), "cannot be found"@) ==> resting::gone_by(reason),
{
    assert(text::lower_of(text::lower_of(reason)) =~= text::lower_of(reason));
}

/// Of two sizes the larger counts, and one that is no number counts for nothing.
pub proof fn the_larger_size_counts(a: i64, b: i64)
    ensures
        resting::larger_of(Reading::Finite(a), Reading::Finite(b)) == Reading::Finite(
            if a >= b {
                a
            } else {
                b
            },
        ),
        resting::larger_of(Reading::NotANumber, Reading::Finite(b)) == Reading::Finite(b),
        resting::larger_of(Reading::Finite(a), Reading::NotANumber) == Reading::Finite(a),
{
}

/// As many orders are taken over as the book gains, no more than were shown, and what is being
/// settled stays so.
pub proof fn as_many_are_taken_over_as_are_new(
    b: RestingBookView,
    rows: Seq<Json>,
    lane: Seq<char>,
    now: i64,
)
    ensures
        b.rehydrated(rows, lane, now).0.ids.len() == b.ids.len() + b.rehydrated(
            rows,
            lane,
            now,
        ).1,
        0 <= b.rehydrated(rows, lane, now).1 <= rows.len(),
        b.rehydrated(rows, lane, now).0.settling == b.settling,
    decreases rows.len(),
{
    if rows.len() > 0 {
        as_many_are_taken_over_as_are_new(b, rows.drop_last(), lane, now);
    }
}

/// Every order that is shown and can be taken over is known afterwards.
pub proof fn what_is_shown_is_known(
    b: RestingBookView,
    rows: Seq<Json>,
    lane: Seq<char>,
    now: i64,
    i: int,
    id: Seq<char>,
)
    requires
        0 <= i < rows.len(),
        names(rows[i], lane, now, id),
    ensures
        b.rehydrated(rows, lane, now).0.tracked_as(id) is Some,
{
    resting::shown_order_is_tracked(b, rows, lane, now, i);
}

/// Whether an order that is shown can be taken over under a name.
pub open spec fn names(v: Json, lane: Seq<char>, now: i64, id: Seq<char>) -> bool {
    resting::adopted(v, lane, now) matches Some(r) && r.order_id == id
}

} // verus!
