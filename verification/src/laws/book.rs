//! What the book believes after what it was told.

use vstd::prelude::*;
use crate::book;
use crate::book::{LevelsView, PrintsView, Top};
use crate::units;

verus! {

/// Whether two prices are a market: something is bid, and less than is asked.
pub open spec fn is_market(best_bid: i64, best_ask: i64) -> bool {
    0 < best_bid < best_ask
}

/// Prices that are a market are what is believed of their token from then on, whatever was
/// believed of it before, for less than five seconds; other tokens stay as they were.
pub proof fn the_prices_put_are_the_prices_read(
    m: Map<Seq<char>, Top>,
    token: Seq<char>,
    best_bid: i64,
    best_ask: i64,
    now_us: u64,
    later_us: u64,
    other: Seq<char>,
)
    requires
        is_market(best_bid, best_ask),
        other != token,
    ensures
        ({
            let after = book::with_top(m, token, best_bid, best_ask, now_us);
            let given = Top { best_bid, best_ask, at: now_us };
            &&& book::top_of(after, token, now_us) == Some(given)
            &&& later_us < now_us + 5_000_000 ==> book::top_of(after, token, later_us) == Some(
                given,
            )
            &&& later_us >= now_us + 5_000_000 ==> book::top_of(after, token, later_us) is None
            &&& book::top_of(after, other, later_us) == book::top_of(m, other, later_us)
        }),
{
}

/// Prices that are no market change nothing.
pub proof fn prices_that_cross_are_dropped(
    m: Map<Seq<char>, Top>,
    token: Seq<char>,
    best_bid: i64,
    best_ask: i64,
    now_us: u64,
)
    requires
        !is_market(best_bid, best_ask),
    ensures
        book::with_top(m, token, best_bid, best_ask, now_us) == m,
{
}

/// A market is as wide as its ask stands over its bid.
pub proof fn a_market_is_as_wide_as_it_stands(top: Top)
    ensures
        is_market(top.best_bid, top.best_ask) ==> top.best_bid + top.width() == top.best_ask,
        top.width() >= 0,
        top.best_ask <= top.best_bid ==> top.width() == 0,
{
}

/// Prices that were told of a token.
pub struct Told {
    pub token: Seq<char>,
    pub best_bid: i64,
    pub best_ask: i64,
    pub at: u64,
}

/// What is believed after some prices were told, one after another.
pub open spec fn after_all(m: Map<Seq<char>, Top>, told: Seq<Told>) -> Map<Seq<char>, Top>
    decreases told.len(),
{
    if told.len() == 0 {
        m
    } else {
        let t = told.last();
        book::with_top(after_all(m, told.drop_last()), t.token, t.best_bid, t.best_ask, t.at)
    }
}

/// Of all that was told of a token, what is believed is the last that was a market.
pub proof fn the_last_market_stands(m: Map<Seq<char>, Top>, told: Seq<Told>, i: int)
    requires
        0 <= i < told.len(),
        is_market(told[i].best_bid, told[i].best_ask),
        forall|j: int|
            i < j < told.len() && (#[trigger] told[j]).token == told[i].token ==> !is_market(
                told[j].best_bid,
                told[j].best_ask,
            ),
    ensures
        book::top_of(after_all(m, told), told[i].token, told[i].at) == Some(
            Top { best_bid: told[i].best_bid, best_ask: told[i].best_ask, at: told[i].at },
        ),
        after_all(m, told).contains_key(told[i].token),
        after_all(m, told)[told[i].token] == (Top {
            best_bid: told[i].best_bid,
            best_ask: told[i].best_ask,
            at: told[i].at,
        }),
    decreases told.len(),
{
    if i < told.len() - 1 {
        let before = told.drop_last();
        assert forall|j: int|
            i < j < before.len() && (#[trigger] before[j]).token == before[i].token implies !is_market(
            before[j].best_bid,
            before[j].best_ask,
        ) by {
            assert(before[j] == told[j]);
        }
        the_last_market_stands(m, before, i);
        assert(told.last() == told[told.len() - 1]);
    }
}

/// A price lands on the nearest of the grid's steps of a hundred, the farther from zero where
/// two are as near.
pub proof fn the_grid_is_nearest(price: int)
    ensures
        -50 <= 100 * book::grid(price) - price <= 50,
        price >= 0 ==> 100 * book::grid(price) - price > -50,
        price <= 0 ==> 100 * book::grid(price) - price < 50,
        book::grid(-price) == -book::grid(price),
        forall|q: int| price <= q ==> book::grid(price) <= #[trigger] book::grid(q),
{
}

/// A print that was not just seen adds its size to what was printed of its token at its price,
/// whole; what was printed of any other token, or at any other price, stays.
pub proof fn a_print_adds_its_size(
    p: PrintsView,
    token: Seq<char>,
    price: i64,
    size: i64,
    side: Seq<char>,
    now_ms: i64,
    other: Seq<char>,
    at: i64,
)
    requires
        price > 0,
        size > 0,
        !p.repeats(
            (
                token,
                book::grid(price as int) as i64,
                book::grid(size as int) as i64,
                book::side_of(side),
            ),
            now_ms,
        ),
        0 <= p.total(token, price as int) <= 1_000_000_000_000_000_000_000_000_000,
    ensures
        p.printed(token, price, size, side, now_ms).total(token, price as int) - p.total(
            token,
            price as int,
        ) == size,
        other != token || book::grid(at as int) != book::grid(price as int) ==> p.printed(
            token,
            price,
            size,
            side,
            now_ms,
        ).total(other, at as int) == p.total(other, at as int),
{
    the_grid_is_nearest(price as int);
    the_grid_is_nearest(at as int);
}

/// A print is a repeat only of one of the same token, price, size and side that came less than
/// three quarters of a second before: it counts once more when it comes as late as that, or
/// from the other side, and what is not a trade counts never.
pub proof fn a_repeat_is_the_same_print(
    p: PrintsView,
    id: (Seq<char>, i64, i64, u8),
    token: Seq<char>,
    price: i64,
    size: i64,
    side: Seq<char>,
    at_ms: i64,
    now_ms: i64,
)
    requires
        id == (
            token,
            book::grid(price as int) as i64,
            book::grid(size as int) as i64,
            book::side_of(side),
        ),
        p.seen.dom().finite(),
    ensures
        p.seen.contains_key(id) && p.seen[id] == at_ms ==> (p.repeats(id, now_ms) <==> at_ms
            <= now_ms < at_ms + 750),
        !p.seen.contains_key(id) ==> !p.repeats(id, now_ms),
        price <= 0 || size <= 0 ==> p.printed(token, price, size, side, now_ms) == p,
        price > 0 && size > 0 && !p.repeats(id, now_ms) ==> ({
            let after = p.printed(token, price, size, side, now_ms);
            after.seen.contains_key(id) && after.seen[id] == now_ms
        }),
        book::side_of("buy"@) != book::side_of("sell"@),
        book::side_of("buy"@) == book::side_of("BUY"@),
        book::side_of("sell"@) == book::side_of("SELL"@),
        book::side_of(Seq::<char>::empty()) != book::side_of("buy"@),
        book::side_of(Seq::<char>::empty()) != book::side_of("sell"@),
{
    reveal_strlit("buy");
    reveal_strlit("BUY");
    reveal_strlit("sell");
    reveal_strlit("SELL");
}

/// Forgetting tokens forgets their totals and theirs alone.
pub proof fn totals_of_kept_tokens_stay(
    p: PrintsView,
    keep: Set<Seq<char>>,
    token: Seq<char>,
    price: int,
)
    ensures
        p.retained(keep).total(token, price) == (if keep.contains(token) {
            p.total(token, price)
        } else {
            0
        }),
        p.retained(keep).seen == p.seen,
{
}

/// Forgetting tokens forgets their levels and theirs alone, and not when the last frame came.
pub proof fn levels_of_kept_tokens_stay(
    l: LevelsView,
    keep: Set<Seq<char>>,
    token: Seq<char>,
    price: int,
    now_us: u64,
)
    ensures
        l.retained(keep).size(token, price, now_us) == (if keep.contains(token) {
            l.size(token, price, now_us)
        } else {
            None
        }),
        l.retained(keep).last_frame == l.last_frame,
{
}

/// A size is believed of its level for two minutes, and not longer.
pub proof fn a_size_is_believed_for_two_minutes(
    l: LevelsView,
    token: Seq<char>,
    price: int,
    size: i64,
    at_us: u64,
    now_us: u64,
)
    requires
        l.ladder(token).contains_key(book::grid(price) as i64),
        l.ladder(token)[book::grid(price) as i64] == (size, at_us),
    ensures
        now_us <= at_us + 120_000_000 ==> l.size(token, price, now_us) == Some(size),
        now_us > at_us + 120_000_000 ==> l.size(token, price, now_us) is None,
{
}

/// The size that was put of a level is the size that is read of it, and the others stay as they
/// are, while there is room for all of them.
pub proof fn the_size_put_is_the_size_read(
    l: LevelsView,
    after: LevelsView,
    token: Seq<char>,
    price: i64,
    size: i64,
    now_us: u64,
    later_us: u64,
    other: Seq<char>,
    at: i64,
)
    requires
        price > 0,
        size >= 0,
        l.put_leads_to(after, token, price, size, now_us),
        l.ladder(token).dom().finite(),
        l.ladder(token).dom().len() < 64 || l.ladder(token).contains_key(
            book::grid(price as int) as i64,
        ) && l.ladder(token).dom().len() <= 64,
        now_us <= later_us <= now_us + 120_000_000,
    ensures
        after.size(token, price as int, later_us) == Some(size),
        other != token || book::grid(at as int) != book::grid(price as int) ==> after.size(
            other,
            at as int,
            later_us,
        ) == l.size(other, at as int, later_us),
        after.last_frame == Some(now_us),
{
    the_grid_is_nearest(price as int);
    the_grid_is_nearest(at as int);
}

/// Where there are more levels than are kept, the newest stay: none that was dropped, and was
/// young enough to be believed, is newer than one that stayed. The one that was just put stays
/// where the others are older.
pub proof fn the_newest_levels_stay(
    l: LevelsView,
    after: LevelsView,
    token: Seq<char>,
    price: i64,
    size: i64,
    now_us: u64,
    gone: i64,
    kept: i64,
)
    requires
        price > 0,
        size >= 0,
        l.put_leads_to(after, token, price, size, now_us),
        l.ladder(token).dom().finite(),
        forall|k: i64| l.ladder(token).contains_key(k) ==> (#[trigger] l.ladder(token)[k]).1
            < now_us,
    ensures
        after.size(token, price as int, now_us) == Some(size),
        ({
            let had = l.ladder(token);
            let left = after.ladder(token);
            had.contains_key(gone) && !left.contains_key(gone) && left.contains_key(kept) && now_us
                - had[gone].1 <= 120_000_000 ==> had[gone].1 <= left[kept].1
        }),
{
    let key = book::grid(price as int) as i64;
    let had = l.ladder(token);
    let with = had.insert(key, (size, now_us));
    if with.dom().len() > 64 {
        let young = book::recent(with, now_us);
        let left = after.ladder(token);
        assert(young.contains_key(key));
        if left.contains_key(kept) {
            assert(young.contains_key(kept));
            assert(young[kept] == left[kept]);
        }
        assert(book::cut_to(young, left, 64));
        if !left.contains_key(key) {
            assert(young.dom().subset_of(with.dom()));
            vstd::set_lib::lemma_len_subset(young.dom(), with.dom());
            if left.dom().len() == 0 {
                assert(young.dom().contains(key));
                assert(young.dom().len() > 0);
            } else {
                let b = left.dom().choose();
                assert(left.dom().contains(b));
                assert(left.contains_key(b));
                assert(young.contains_key(b));
                assert(young[key].1 <= young[b].1);
                assert(b != key);
                assert(with[b] == had[b]);
            }
        }
        if had.contains_key(gone) && !left.contains_key(gone) && left.contains_key(kept) && now_us
            - had[gone].1 <= 120_000_000 {
            assert(gone != key);
            assert(with[gone] == had[gone]);
            assert(young.contains_key(gone));
            assert(young[gone].1 <= young[kept].1);
        }
    }
}

/// A picture shows every level of its token: each has the size that the picture gives it, the
/// last where it gives several; a level that was known and is not shown holds nothing; one that
/// is neither shown nor known stays unknown. Other tokens stay as they were.
pub proof fn a_picture_shows_every_level(
    l: LevelsView,
    token: Seq<char>,
    picture: Seq<(i64, i64)>,
    now_us: u64,
    i: int,
    at: i64,
    other: Seq<char>,
    later_us: u64,
)
    requires
        0 <= i < picture.len(),
        picture[i].0 > 0,
        picture[i].1 >= 0,
        forall|j: int|
            i < j < picture.len() && (#[trigger] picture[j]).0 > 0 && picture[j].1 >= 0
                ==> book::grid(picture[j].0 as int) != book::grid(picture[i].0 as int),
        other != token,
    ensures
        ({
            let after = l.pictured(token, picture, now_us);
            &&& after.size(token, picture[i].0 as int, now_us) == Some(picture[i].1)
            &&& after.last_frame == Some(now_us)
            &&& after.size(other, at as int, later_us) == l.size(other, at as int, later_us)
            &&& !shows(picture, at) ==> after.size(token, at as int, now_us) == (if l.ladder(
                token,
            ).contains_key(book::grid(at as int) as i64) {
                Some(0i64)
            } else {
                None
            })
        }),
{
    the_last_size_shown(picture, now_us, i);
    only_what_is_shown(picture, now_us, at);
}

/// Whether a picture shows a level at a price.
pub open spec fn shows(picture: Seq<(i64, i64)>, at: i64) -> bool {
    exists|j: int|
        0 <= j < picture.len() && (#[trigger] picture[j]).0 > 0 && picture[j].1 >= 0 && book::grid(
            picture[j].0 as int,
        ) == book::grid(at as int)
}

proof fn the_last_size_shown(picture: Seq<(i64, i64)>, now_us: u64, i: int)
    requires
        0 <= i < picture.len(),
        picture[i].0 > 0,
        picture[i].1 >= 0,
        forall|j: int|
            i < j < picture.len() && (#[trigger] picture[j]).0 > 0 && picture[j].1 >= 0
                ==> book::grid(picture[j].0 as int) != book::grid(picture[i].0 as int),
    ensures
        ({
            let m = book::picture_ladder(picture, now_us);
            let k = book::grid(picture[i].0 as int) as i64;
            m.contains_key(k) && m[k] == (picture[i].1, now_us)
        }),
    decreases picture.len(),
{
    if i < picture.len() - 1 {
        let before = picture.drop_last();
        assert forall|j: int|
            i < j < before.len() && (#[trigger] before[j]).0 > 0 && before[j].1
                >= 0 implies book::grid(before[j].0 as int) != book::grid(before[i].0 as int) by {
            assert(before[j] == picture[j]);
        }
        the_last_size_shown(before, now_us, i);
        assert(picture.last() == picture[picture.len() - 1]);
        the_grid_is_nearest(picture.last().0 as int);
        the_grid_is_nearest(picture[i].0 as int);
    }
}

proof fn only_what_is_shown(picture: Seq<(i64, i64)>, now_us: u64, at: i64)
    ensures
        book::picture_ladder(picture, now_us).contains_key(book::grid(at as int) as i64) <==> shows(
            picture,
            at,
        ),
    decreases picture.len(),
{
    the_grid_is_nearest(at as int);
    if picture.len() > 0 {
        let before = picture.drop_last();
        only_what_is_shown(before, now_us, at);
        the_grid_is_nearest(picture.last().0 as int);
        assert(picture.last() == picture[picture.len() - 1]);
        if shows(before, at) {
            let j = choose|j: int|
                0 <= j < before.len() && (#[trigger] before[j]).0 > 0 && before[j].1 >= 0
                    && book::grid(before[j].0 as int) == book::grid(at as int);
            assert(picture[j] == before[j]);
        }
        if shows(picture, at) {
            let j = choose|j: int|
                0 <= j < picture.len() && (#[trigger] picture[j]).0 > 0 && picture[j].1 >= 0
                    && book::grid(picture[j].0 as int) == book::grid(at as int);
            if j < before.len() {
                assert(before[j] == picture[j]);
            }
        }
    }
}

/// A feed is alive for as long as is asked after its last frame, and never before its first.
pub proof fn a_feed_is_alive_after_its_frame(last: u64, within_us: u64, now_us: u64)
    ensures
        book::is_alive(Some(last), within_us, now_us) <==> now_us <= last + within_us,
        !book::is_alive(None, within_us, now_us),
{
}

/// How many ticks we may better the leader's price without crossing the market: buying, so
/// many that one tick is still left under what is asked, and no more would be; selling, so many
/// that one is left over what is bid.
pub proof fn the_room_is_what_is_left(top: Top, his_price: i64, tick: i64, n: int)
    requires
        tick > 0,
        -1_000_000_000_000_000 <= top.best_ask <= 1_000_000_000_000_000,
        -1_000_000_000_000_000 <= top.best_bid <= 1_000_000_000_000_000,
        -1_000_000_000_000_000 <= his_price <= 1_000_000_000_000_000,
        tick <= 1_000_000_000_000_000,
    ensures
        n <= book::room(top, his_price, 0, tick) <==> his_price + n * tick <= top.best_ask - tick,
        n <= book::room(top, his_price, 1, tick) <==> his_price - n * tick >= top.best_bid + tick,
{
    let a = top.best_ask - tick - his_price;
    let b = his_price - (top.best_bid + tick);
    fits_so_often(a, tick as int, n);
    fits_so_often(b, tick as int, n);
    within(a, tick as int);
    within(b, tick as int);
}

proof fn within(a: int, t: int)
    requires
        t > 0,
        -4_000_000_000_000_000 <= a <= 4_000_000_000_000_000,
    ensures
        -4_000_000_000_000_000 <= a / t <= 4_000_000_000_000_000,
{
    assert(-4_000_000_000_000_000 <= a / t <= 4_000_000_000_000_000) by (nonlinear_arith)
        requires
            t > 0,
            -4_000_000_000_000_000 <= a <= 4_000_000_000_000_000,
    ;
}

proof fn fits_so_often(a: int, t: int, n: int)
    requires
        t > 0,
    ensures
        n <= a / t <==> n * t <= a,
{
    vstd::arithmetic::div_mod::lemma_fundamental_div_mod(a, t);
    let q = a / t;
    assert(n <= q ==> n * t <= t * q) by (nonlinear_arith)
        requires
            t > 0,
    ;
    assert(n > q ==> n * t >= t * q + t) by (nonlinear_arith)
        requires
            t > 0,
    ;
    vstd::arithmetic::div_mod::lemma_mod_bound(a, t);
}

/// A market ticks as finely near one dollar as it does near nothing, ten times finer than in
/// between; the ends of the coarse part belong to it.
pub proof fn ticks_are_finer_at_the_ends(price: int)
    ensures
        book::tick_at(price) == book::tick_at(1_000_000 - price),
        40_000 <= price <= 500_000 ==> book::tick_at(price) == 10_000,
        price < 40_000 ==> book::tick_at(price) * 10 == 10_000,
{
}

/// How many of the tokens are not pinned.
pub open spec fn unpinned(w: Seq<Seq<char>>, pinned: Set<Seq<char>>) -> int
    decreases w.len(),
{
    if w.len() == 0 {
        0
    } else if pinned.contains(w[0]) {
        unpinned(w.skip(1), pinned)
    } else {
        unpinned(w.skip(1), pinned) + 1
    }
}

/// Where the tokens are cut by `k`, as many go as are asked, or as are not pinned where those
/// are fewer; they are the ones that stand first. So the list is cut at some place: behind it
/// everything stays, and before it the pinned do.
pub proof fn the_oldest_unpinned_go(w: Seq<Seq<char>>, pinned: Set<Seq<char>>, k: int)
    requires
        k >= 0,
    ensures
        book::without_unpinned(w, pinned, k).len() == w.len() - (if k <= unpinned(w, pinned) {
            k
        } else {
            unpinned(w, pinned)
        }),
        exists|i: int|
            0 <= i <= w.len() && book::without_unpinned(w, pinned, k) == (#[trigger] w.take(
                i,
            )).filter(|t: Seq<char>| pinned.contains(t)) + w.skip(i),
        unpinned(w, pinned) >= 0,
    decreases w.len(),
{
    let f = |t: Seq<char>| pinned.contains(t);
    let r = book::without_unpinned(w, pinned, k);
    if k == 0 || w.len() == 0 {
        reveal(Seq::filter);
        assert(w.take(0) =~= Seq::empty());
        assert(w.take(0).filter(f) =~= Seq::empty());
        assert(w.skip(0) =~= w);
        assert(r =~= w.take(0).filter(f) + w.skip(0));
        unpinned_counts(w, pinned);
    } else {
        let rest = w.skip(1);
        let n = if pinned.contains(w[0]) {
            k
        } else {
            k - 1
        };
        the_oldest_unpinned_go(rest, pinned, n);
        let i = choose|i: int|
            0 <= i <= rest.len() && book::without_unpinned(rest, pinned, n) == (
            #[trigger] rest.take(i)).filter(f) + rest.skip(i);
        assert(w.take(i + 1) =~= seq![w[0]] + rest.take(i));
        assert(w.skip(i + 1) =~= rest.skip(i));
        filter_in_front(w[0], rest.take(i), f);
        assert(r =~= w.take(i + 1).filter(f) + w.skip(i + 1));
    }
}

proof fn unpinned_counts(w: Seq<Seq<char>>, pinned: Set<Seq<char>>)
    ensures
        0 <= unpinned(w, pinned) <= w.len(),
    decreases w.len(),
{
    if w.len() > 0 {
        unpinned_counts(w.skip(1), pinned);
    }
}

proof fn filter_in_front(t: Seq<char>, s: Seq<Seq<char>>, f: spec_fn(Seq<char>) -> bool)
    ensures
        (seq![t] + s).filter(f) == (if f(t) {
            seq![t] + s.filter(f)
        } else {
            s.filter(f)
        }),
    decreases s.len(),
{
    reveal(Seq::filter);
    let all = seq![t] + s;
    if s.len() == 0 {
        assert(all.drop_last() =~= Seq::empty());
        assert(all.drop_last().filter(f) =~= Seq::empty());
        assert(all.last() == t);
    } else {
        assert(all.drop_last() =~= seq![t] + s.drop_last());
        filter_in_front(t, s.drop_last(), f);
        assert(all.last() == s.last());
    }
}

/// A ladder that is cut keeps levels of its own, as many as there is room for, all of them where
/// they fit, and none that was seen before one that it drops.
pub proof fn what_is_cut_is_the_oldest(
    m: Map<i64, (i64, u64)>,
    r: Map<i64, (i64, u64)>,
    cap: int,
    a: i64,
    b: i64,
)
    requires
        book::cut_to(m, r, cap),
        m.dom().finite(),
        0 <= cap,
    ensures
        r.dom().len() <= cap,
        m.dom().len() <= cap ==> r == m,
        m.dom().len() > cap ==> r.dom().len() == cap,
        r.contains_key(b) ==> m.contains_key(b) && r[b] == m[b],
        m.contains_key(a) && !r.contains_key(a) && r.contains_key(b) ==> m[a].1 <= m[b].1,
{
    if m.dom().len() <= cap {
        vstd::set_lib::lemma_subset_equality(r.dom(), m.dom());
        assert(r =~= m);
    }
}

} // verus!
