//! What a frame of the public book changes, and what it leaves.

use vstd::prelude::*;
use crate::book;
use crate::book::Top;
use crate::feed;
use crate::feed::{FeedView, Moment};
use crate::json;
use crate::json::Json;
use crate::laws::book::is_market;

verus! {

/// The best prices that a change tells of its token, where it tells any.
pub open spec fn told(c: Json) -> Option<(i64, i64)> {
    match (
        json::bounded_in(json::field(c, "best_bid"@)),
        json::bounded_in(json::field(c, "best_ask"@)),
    ) {
        (Some(b), Some(a)) => if is_market(b, a) {
            Some((b, a))
        } else {
            None
        },
        _ => None,
    }
}

/// The token that an item speaks of.
pub open spec fn token_of(c: Json) -> Seq<char> {
    json::text_or_none(c, "asset_id"@)
}

proof fn watching_changes_no_price(
    f: FeedView,
    token: Seq<char>,
    side: u8,
    price: i64,
    size: i64,
    now_us: u64,
)
    ensures
        f.watched(token, side, price, size, now_us).cache == f.cache,
        f.watched(token, side, price, size, now_us).prints == f.prints,
        f.watched(token, side, price, size, now_us).levels == f.levels,
{
}

proof fn watching_all_changes_no_price(
    f: FeedView,
    token: Seq<char>,
    side: u8,
    levels: Seq<Json>,
    now_us: u64,
)
    ensures
        f.watched_all(token, side, levels, now_us).cache == f.cache,
        f.watched_all(token, side, levels, now_us).prints == f.prints,
        f.watched_all(token, side, levels, now_us).levels == f.levels,
    decreases levels.len(),
{
    if levels.len() > 0 {
        watching_all_changes_no_price(f, token, side, levels.drop_last(), now_us);
    }
}

/// What a change tells of the best prices of its token is what is believed of it afterwards,
/// whatever was before; it says nothing of another token and is no print.
pub proof fn a_change_is_believed(f: FeedView, after: FeedView, c: Json, m: Moment, other: Seq<char>)
    requires
        f.change_leads_to(after, c, m),
    ensures
        token_of(c).len() > 0 ==> (told(c) matches Some(t) ==> book::top_of(
            after.cache,
            token_of(c),
            m.now_us,
        ) == Some(Top { best_bid: t.0, best_ask: t.1, at: m.now_us })),
        told(c) is None || token_of(c).len() == 0 ==> after.cache == f.cache,
        other != token_of(c) ==> book::top_of(after.cache, other, m.now_us) == book::top_of(
            f.cache,
            other,
            m.now_us,
        ),
        after.prints == f.prints,
{
}

/// Of the changes that one frame tells of a token, the last that gave a market stands.
pub proof fn the_last_change_stands(
    f: FeedView,
    after: FeedView,
    changes: Seq<Json>,
    m: Moment,
    i: int,
)
    requires
        f.changes_lead_to(after, changes, m),
        0 <= i < changes.len(),
        token_of(changes[i]).len() > 0,
        told(changes[i]) is Some,
        forall|j: int|
            i < j < changes.len() && token_of(#[trigger] changes[j]) == token_of(changes[i])
                ==> told(changes[j]) is None,
    ensures
        book::top_of(after.cache, token_of(changes[i]), m.now_us) == Some(
            Top {
                best_bid: (told(changes[i])->0).0,
                best_ask: (told(changes[i])->0).1,
                at: m.now_us,
            },
        ),
    decreases changes.len(),
{
    let before = changes.drop_last();
    let mid = choose|mid: FeedView|
        f.changes_lead_to(mid, before, m) && #[trigger] mid.change_leads_to(
            after,
            changes.last(),
            m,
        );
    let t = token_of(changes[i]);
    a_change_is_believed(mid, after, changes.last(), m, t);
    if i < changes.len() - 1 {
        assert forall|j: int|
            i < j < before.len() && token_of(#[trigger] before[j]) == token_of(
                before[i],
            ) implies told(before[j]) is None by {
            assert(before[j] == changes[j]);
        }
        the_last_change_stands(f, mid, before, m, i);
        assert(changes.last() == changes[changes.len() - 1]);
    }
}

/// The highest bid of a picture is no lower than any that it shows, and is one of them, or
/// nothing where it shows none over nothing.
pub proof fn the_highest_bid_is_the_highest(side: Seq<Json>, i: int)
    requires
        0 <= i < side.len(),
    ensures
        json::bounded_in(json::field(side[i], "price"@)) matches Some(p) ==> p <= feed::highest(
            side,
        ),
        feed::highest(side) >= 0,
        feed::highest(side) == 0 || exists|j: int|
            0 <= j < side.len() && json::bounded_in(json::field(#[trigger] side[j], "price"@))
                == Some(feed::highest(side)),
    decreases side.len(),
{
    let before = side.drop_last();
    assert(side.last() == side[side.len() - 1]);
    if before.len() > 0 {
        the_highest_bid_is_the_highest(
            before,
            if i < before.len() {
                i
            } else {
                0
            },
        );
        if i < before.len() {
            assert(before[i] == side[i]);
        }
        if feed::highest(before) != 0 {
            let j = choose|j: int|
                0 <= j < before.len() && json::bounded_in(
                    json::field(#[trigger] before[j], "price"@),
                ) == Some(feed::highest(before));
            assert(before[j] == side[j]);
        }
    } else {
        assert(feed::highest(before) == 0);
    }
}

/// The lowest ask of a picture is no higher than any that it shows, and is one of them; there
/// is none only where it shows none.
pub proof fn the_lowest_ask_is_the_lowest(side: Seq<Json>, i: int)
    requires
        0 <= i < side.len(),
    ensures
        feed::asked_in(side[i]) matches Some(p) ==> (feed::lowest(side) matches Some(l) && l <= p),
        feed::lowest(side) matches Some(l) ==> exists|j: int|
            0 <= j < side.len() && feed::asked_in(#[trigger] side[j]) == Some(l),
    decreases side.len(),
{
    let before = side.drop_last();
    assert(side.last() == side[side.len() - 1]);
    if before.len() > 0 {
        the_lowest_ask_is_the_lowest(
            before,
            if i < before.len() {
                i
            } else {
                0
            },
        );
        if i < before.len() {
            assert(before[i] == side[i]);
        }
        if feed::lowest(before) is Some {
            let l = feed::lowest(before)->0;
            let j = choose|j: int|
                0 <= j < before.len() && feed::asked_in(#[trigger] before[j]) == Some(l);
            assert(before[j] == side[j]);
        }
    } else {
        assert(feed::lowest(before) is None);
    }
}

/// A picture's best prices are its highest bid and its lowest ask, and where those are a market
/// they are what is believed of its token afterwards; a picture is no print.
pub proof fn a_picture_is_believed(
    f: FeedView,
    it: Json,
    m: Moment,
    bids: Seq<Json>,
    asks: Seq<Json>,
    ask: i64,
    price: int,
)
    requires
        token_of(it).len() > 0,
        feed::side_list(it, "bids"@, "buys"@) == Some(bids),
        feed::side_list(it, "asks"@, "sells"@) == Some(asks),
        feed::lowest(asks) == Some(ask),
    ensures
        ({
            let after = f.pictured(it, m);
            let bid = feed::highest(bids);
            &&& is_market(bid, ask) ==> book::top_of(after.cache, token_of(it), m.now_us) == Some(
                Top { best_bid: bid, best_ask: ask, at: m.now_us },
            )
            &&& !is_market(bid, ask) ==> after.cache == f.cache
            &&& after.prints == f.prints
            &&& f.levels matches Some(l) ==> (after.levels matches Some(n) && n.size(
                token_of(it),
                price,
                m.now_us,
            ) == l.pictured(
                token_of(it),
                feed::levels_of(bids) + feed::levels_of(asks),
                m.now_us,
            ).size(token_of(it), price, m.now_us))
        }),
{
    let token = token_of(it);
    let top = FeedView {
        cache: book::with_top(f.cache, token, feed::highest(bids), ask, m.now_us),
        levels: match f.levels {
            Some(l) => Some(
                l.pictured(token, feed::levels_of(bids) + feed::levels_of(asks), m.now_us),
            ),
            None => None,
        },
        ..f
    };
    watching_all_changes_no_price(top, token, 0, bids, m.now_us);
    watching_all_changes_no_price(
        top.watched_all(token, 0, bids, m.now_us),
        token,
        1,
        asks,
        m.now_us,
    );
}

/// The levels of a side are those of its items that can be read, each as it stands there, in
/// their order.
pub proof fn every_level_is_read(side: Seq<Json>, i: int)
    requires
        0 <= i < side.len(),
    ensures
        feed::level_of(side[i]) matches Some(l) ==> feed::levels_of(side).contains(l),
        feed::levels_of(side).len() <= side.len(),
        forall|k: int|
            0 <= k < feed::levels_of(side).len() ==> exists|j: int|
                0 <= j < side.len() && feed::level_of(#[trigger] side[j]) == Some(
                    #[trigger] feed::levels_of(side)[k],
                ),
    decreases side.len(),
{
    let before = side.drop_last();
    let all = feed::levels_of(side);
    let had = feed::levels_of(before);
    assert(side.last() == side[side.len() - 1]);
    if before.len() > 0 {
        every_level_is_read(
            before,
            if i < before.len() {
                i
            } else {
                0
            },
        );
        if i < before.len() && feed::level_of(side[i]) is Some {
            assert(before[i] == side[i]);
            let l = feed::level_of(side[i])->0;
            let k = choose|k: int| 0 <= k < had.len() && had[k] == l;
            assert(all[k] == l);
        }
    } else {
        assert(had.len() == 0);
    }
    if i == side.len() - 1 && feed::level_of(side[i]) is Some {
        assert(all[all.len() - 1] == feed::level_of(side[i])->0);
    }
    assert forall|k: int| 0 <= k < all.len() implies exists|j: int|
        0 <= j < side.len() && feed::level_of(#[trigger] side[j]) == Some(#[trigger] all[k]) by {
        if k < had.len() {
            assert(all[k] == had[k]);
            let j = choose|j: int|
                0 <= j < before.len() && feed::level_of(#[trigger] before[j]) == Some(had[k]);
            assert(before[j] == side[j]);
            assert(feed::level_of(side[j]) == Some(all[k]));
        } else {
            assert(feed::level_of(side[side.len() - 1]) == Some(all[k]));
        }
    }
}

/// A trade is a print and nothing else: no price, no level and nothing that is believed of the
/// leader changes.
pub proof fn a_trade_is_a_print(f: FeedView, it: Json, m: Moment, price: i64, size: i64)
    requires
        token_of(it).len() > 0,
        f.prints is Some,
        json::bounded_in(json::field(it, "price"@)) == Some(price),
        json::bounded_in(json::field(it, "size"@)) == Some(size),
    ensures
        f.traded(it, m).prints == Some(
            f.prints->0.printed(
                token_of(it),
                price,
                size,
                json::text_or_none(it, "side"@),
                m.wall_ms,
            ),
        ),
        f.traded(it, m).cache == f.cache,
        f.traded(it, m).levels == f.levels,
        f.traded(it, m).watch == f.watch,
        f.traded(it, m).sent == f.sent,
{
}

/// A frame of changes leaves of each token the last market that it told; a frame of a trade
/// prints it and changes no price.
pub proof fn a_frame_is_what_it_says(
    f: FeedView,
    after: FeedView,
    it: Json,
    m: Moment,
    changes: Seq<Json>,
    i: int,
    price: i64,
    size: i64,
)
    requires
        f.frame_leads_to(after, it, m),
    ensures
        json::text_or_none(it, "event_type"@) == "price_change"@ && json::list_in(
            json::field(it, "price_changes"@),
        ) == Some(changes) && 0 <= i < changes.len() && token_of(changes[i]).len() > 0 && told(
            changes[i],
        ) is Some && (forall|j: int|
            i < j < changes.len() && token_of(#[trigger] changes[j]) == token_of(changes[i])
                ==> told(changes[j]) is None) ==> book::top_of(
            after.cache,
            token_of(changes[i]),
            m.now_us,
        ) == Some(
            Top {
                best_bid: (told(changes[i])->0).0,
                best_ask: (told(changes[i])->0).1,
                at: m.now_us,
            },
        ),
        json::text_or_none(it, "event_type"@) == "last_trade_price"@ ==> after.cache == f.cache
            && after.levels == f.levels && after.watch == f.watch && after.sent == f.sent && (
        token_of(it).len() > 0 && f.prints is Some && json::bounded_in(json::field(it, "price"@))
            == Some(price) && json::bounded_in(json::field(it, "size"@)) == Some(size)
            ==> after.prints == Some(
            f.prints->0.printed(
                token_of(it),
                price,
                size,
                json::text_or_none(it, "side"@),
                m.wall_ms,
            ),
        )),
        json::text_or_none(it, "event_type"@) == "book"@ ==> after == f.pictured(it, m),
{
    reveal_strlit("price_change");
    reveal_strlit("last_trade_price");
    reveal_strlit("book");
    if json::text_or_none(it, "event_type"@) == "price_change"@ && json::list_in(
        json::field(it, "price_changes"@),
    ) == Some(changes) && 0 <= i < changes.len() && token_of(changes[i]).len() > 0 && told(
        changes[i],
    ) is Some && (forall|j: int|
        i < j < changes.len() && token_of(#[trigger] changes[j]) == token_of(changes[i]) ==> told(
            changes[j],
        ) is None) {
        the_last_change_stands(f, after, changes, m, i);
    }
}

/// A level that fits a pattern of the leader is sent on exactly when it stands on the
/// pattern's own side, and is remembered to be judged later; what was sent before stays sent.
pub proof fn only_the_right_side_is_sent(
    f: FeedView,
    token: Seq<char>,
    side: u8,
    price: i64,
    size: i64,
    now_us: u64,
)
    requires
        f.watch is Some,
    ensures
        ({
            let after = f.watched(token, side, price, size, now_us);
            let shown = (f.watch->0).0.shown(token, price, size, now_us);
            &&& after.sent.len() >= f.sent.len()
            &&& after.sent.take(f.sent.len() as int) == f.sent
            &&& after.sent != f.sent <==> (shown matches Some(c) && c.side == side)
            &&& after.sent != f.sent ==> after.sent == f.sent.push(shown->0) && (after.watch->0).1.pending
                == (f.watch->0).1.pending.push((now_us, shown->0))
            &&& after.sent == f.sent ==> (after.watch->0).1 == (f.watch->0).1
        }),
{
    let after = f.watched(token, side, price, size, now_us);
    assert(f.sent.push((f.watch->0).0.shown(token, price, size, now_us)->0).take(
        f.sent.len() as int,
    ) =~= f.sent);
    assert(f.sent.take(f.sent.len() as int) =~= f.sent);
    assert(f.sent.push((f.watch->0).0.shown(token, price, size, now_us)->0).len() != f.sent.len());
}

/// The market that changes leave of a token: the last that they tell.
pub open spec fn last_told(changes: Seq<Json>, token: Seq<char>) -> Option<(i64, i64)>
    decreases changes.len(),
{
    if changes.len() == 0 {
        None
    } else if token_of(changes.last()) == token && told(changes.last()) is Some {
        told(changes.last())
    } else {
        last_told(changes.drop_last(), token)
    }
}

/// The market that a picture shows of a token.
pub open spec fn pictured_market(it: Json, token: Seq<char>) -> Option<(i64, i64)> {
    match (feed::side_list(it, "bids"@, "buys"@), feed::side_list(it, "asks"@, "sells"@)) {
        (Some(b), Some(a)) => match feed::lowest(a) {
            Some(ask) => if token_of(it) == token && is_market(feed::highest(b), ask) {
                Some((feed::highest(b), ask))
            } else {
                None
            },
            None => None,
        },
        _ => None,
    }
}

/// The market that a frame gives of a token, where it gives one: a trade gives none.
pub open spec fn market_in(it: Json, token: Seq<char>) -> Option<(i64, i64)> {
    let kind = json::text_or_none(it, "event_type"@);
    if kind == "price_change"@ {
        match json::list_in(json::field(it, "price_changes"@)) {
            Some(changes) => last_told(changes, token),
            None => None,
        }
    } else if kind == "last_trade_price"@ {
        None
    } else {
        pictured_market(it, token)
    }
}

/// Whether what is believed of a token is what was, or the market that was given.
pub open spec fn believes(
    before: FeedView,
    after: FeedView,
    token: Seq<char>,
    given: Option<(i64, i64)>,
    now_us: u64,
) -> bool {
    match given {
        Some(g) => after.cache.contains_key(token) && after.cache[token] == (Top {
            best_bid: g.0,
            best_ask: g.1,
            at: now_us,
        }),
        None => after.cache.contains_key(token) == before.cache.contains_key(token) && (
        before.cache.contains_key(token) ==> after.cache[token] == before.cache[token]),
    }
}

proof fn changes_are_believed(
    f: FeedView,
    after: FeedView,
    changes: Seq<Json>,
    m: Moment,
    token: Seq<char>,
)
    requires
        f.changes_lead_to(after, changes, m),
        token.len() > 0,
    ensures
        believes(f, after, token, last_told(changes, token), m.now_us),
    decreases changes.len(),
{
    if changes.len() > 0 {
        let mid = choose|mid: FeedView|
            f.changes_lead_to(mid, changes.drop_last(), m) && #[trigger] mid.change_leads_to(
                after,
                changes.last(),
                m,
            );
        changes_are_believed(f, mid, changes.drop_last(), m, token);
    }
}

proof fn a_frame_is_believed(f: FeedView, after: FeedView, it: Json, m: Moment, token: Seq<char>)
    requires
        f.frame_leads_to(after, it, m),
        token.len() > 0,
    ensures
        believes(f, after, token, market_in(it, token), m.now_us),
{
    let kind = json::text_or_none(it, "event_type"@);
    if kind == "price_change"@ {
        if let Some(changes) = json::list_in(json::field(it, "price_changes"@)) {
            changes_are_believed(f, after, changes, m, token);
        }
    } else if kind != "last_trade_price"@ {
        if token_of(it).len() > 0 {
            match (feed::side_list(it, "bids"@, "buys"@), feed::side_list(it, "asks"@, "sells"@)) {
                (Some(b), Some(a)) => {
                    let t = token_of(it);
                    let top = FeedView {
                        cache: match feed::lowest(a) {
                            Some(ask) => book::with_top(
                                f.cache,
                                t,
                                feed::highest(b),
                                ask,
                                m.now_us,
                            ),
                            None => f.cache,
                        },
                        levels: match f.levels {
                            Some(l) => Some(
                                l.pictured(t, feed::levels_of(b) + feed::levels_of(a), m.now_us),
                            ),
                            None => None,
                        },
                        ..f
                    };
                    watching_all_changes_no_price(top, t, 0, b, m.now_us);
                    watching_all_changes_no_price(
                        top.watched_all(t, 0, b, m.now_us),
                        t,
                        1,
                        a,
                        m.now_us,
                    );
                },
                _ => {},
            }
        }
    }
}

/// After any frames, what is believed of a token is the market of the last frame that gave one,
/// whatever was believed of it before.
pub proof fn the_last_frame_that_gave_a_market_stands(
    f: FeedView,
    after: FeedView,
    frames: Seq<Json>,
    m: Moment,
    token: Seq<char>,
    i: int,
)
    requires
        f.frames_lead_to(after, frames, m),
        token.len() > 0,
        0 <= i < frames.len(),
        market_in(frames[i], token) is Some,
        forall|j: int| i < j < frames.len() ==> market_in(#[trigger] frames[j], token) is None,
    ensures
        book::top_of(after.cache, token, m.now_us) == Some(
            Top {
                best_bid: (market_in(frames[i], token)->0).0,
                best_ask: (market_in(frames[i], token)->0).1,
                at: m.now_us,
            },
        ),
    decreases frames.len(),
{
    let before = frames.drop_last();
    let mid = choose|mid: FeedView|
        f.frames_lead_to(mid, before, m) && #[trigger] mid.steps_to(after, frames.last(), m);
    let next = choose|next: FeedView| #[trigger]
        mid.silent().frame_leads_to(next, frames.last(), m) && after == (FeedView {
            sent: mid.sent + next.sent,
            ..next
        });
    a_frame_is_believed(mid.silent(), next, frames.last(), m, token);
    assert(frames.last() == frames[frames.len() - 1]);
    if i < frames.len() - 1 {
        assert forall|j: int| i < j < before.len() implies market_in(
            #[trigger] before[j],
            token,
        ) is None by {
            assert(before[j] == frames[j]);
        }
        assert(before[i] == frames[i]);
        the_last_frame_that_gave_a_market_stands(f, mid, before, m, token, i);
    }
}

/// What is sent over several frames is what each of them sends, in their order.
pub proof fn what_frames_send_follows(f: FeedView, after: FeedView, frames: Seq<Json>, m: Moment)
    requires
        f.frames_lead_to(after, frames, m),
    ensures
        after.sent.len() >= f.sent.len(),
        after.sent.take(f.sent.len() as int) == f.sent,
        frames.len() == 0 ==> after == f,
    decreases frames.len(),
{
    if frames.len() > 0 {
        let mid = choose|mid: FeedView|
            f.frames_lead_to(mid, frames.drop_last(), m) && #[trigger] mid.steps_to(
                after,
                frames.last(),
                m,
            );
        what_frames_send_follows(f, mid, frames.drop_last(), m);
        let n = f.sent.len() as int;
        assert(after.sent.take(n) =~= mid.sent.take(n));
    } else {
        assert(f.sent.take(f.sent.len() as int) =~= f.sent);
    }
}

/// A side is told in any case of its letters.
pub proof fn a_side_is_told_in_any_case(s: Seq<char>)
    ensures
        feed::named_side("buy"@) == Some(0u8),
        feed::named_side("sell"@) == Some(1u8),
        feed::named_side(crate::text::lower_of(s)) == feed::named_side(s),
        feed::named_side(s) is None <==> crate::text::lower_of(s) != "buy"@
            && crate::text::lower_of(s) != "sell"@,
{
    reveal_strlit("buy");
    reveal_strlit("sell");
    assert(crate::text::lower_of("buy"@) =~= "buy"@);
    assert(crate::text::lower_of("sell"@) =~= "sell"@);
    assert(crate::text::lower_of(crate::text::lower_of(s)) =~= crate::text::lower_of(s));
    assert("buy"@.len() != "sell"@.len());
}

} // verus!
