//! What is read out of a match is what the match says.

use vstd::prelude::*;
use crate::calldata;
use crate::calldata::{DecodedView, Header, MAX_ORDERS, TAKER_OCCURRENCE};
use crate::text;
use crate::words;

verus! {

/// Where the order of a fill stands in the arguments of a match: the taker's where the
/// second word says, a maker's where the list of makers says.
pub open spec fn order_place(args: Seq<u8>, occurrence: u16) -> Option<int> {
    if occurrence == TAKER_OCCURRENCE {
        words::small_at(args, 32)
    } else {
        match words::small_at(args, 64) {
            Some(m) => match words::small_at(args, m + 32 + occurrence * 32) {
                Some(rel) => Some(m + 32 + rel),
                None => None,
            },
            None => None,
        }
    }
}

/// How much of the order of a fill was filled: the taker's by the fourth word, a maker's by
/// the list of fills.
pub open spec fn filled_amount(args: Seq<u8>, occurrence: u16) -> Option<int> {
    if occurrence == TAKER_OCCURRENCE {
        words::large_at(args, 96)
    } else {
        match words::small_at(args, 128) {
            Some(f) => words::large_at(args, f + 32 + occurrence * 32),
            None => None,
        }
    }
}

/// What a fill says of an order that gives `gives` for `takes`, of which `filled` was filled.
spec fn tells(d: DecodedView, args: Seq<u8>, ord: int, filled: int, wallet: Seq<u8>) -> bool {
    &&& words::large_at(args, ord + 128) matches Some(gives) && words::large_at(
        args,
        ord + 160,
    ) matches Some(takes) && {
        &&& gives > 0 && takes > 0 && filled > 0
        &&& filled * 1000 <= gives * 1001
        &&& d.side == 1 ==> d.fill_size == filled && d.order_size == gives && d.price.num == takes
            && d.price.den == gives
        &&& d.side == 0 ==> d.order_size == takes && d.price.num == gives && d.price.den == takes
            && d.fill_size * gives <= filled * takes && (d.fill_size < u128::MAX ==> filled * takes
            < (d.fill_size + 1) * gives)
    }
    &&& words::large_at(args, ord + 192) matches Some(s) && d.side == s % 256
    &&& words::word_at(args, ord) == Some(d.salt)
    &&& words::word_at(args, ord + 96) matches Some(t) && d.token_id == text::dec(words::be(t))
    &&& calldata::address_at(args, ord + 32) == Some(wallet)
}

proof fn order_tells(
    b: Seq<u8>,
    ord: int,
    fill: int,
    condition_id: Seq<u8>,
    role: Seq<char>,
    occurrence: u16,
    wallet: Seq<u8>,
)
    requires
        calldata::address_at(b, ord + 32) == Some(wallet),
    ensures
        calldata::order_at(b, ord, fill, condition_id, role, occurrence) matches Some(d) ==> tells(
            d,
            b,
            ord,
            fill,
            wallet,
        ) && d.side <= 1 && d.condition_id == condition_id && d.role == role && d.occurrence
            == occurrence,
{
    words::large_fits(b, ord + 4 * 32);
    words::large_fits(b, ord + 5 * 32);
    if let (Some((ma, ta, side)), Some(d)) = (
        calldata::terms_at(b, ord),
        calldata::order_at(b, ord, fill, condition_id, role, occurrence),
    ) {
        if side == 0 {
            let x = fill * ta;
            let q = x / ma;
            assert(q * ma <= x < (q + 1) * ma) by (nonlinear_arith)
                requires
                    q == x / ma,
                    ma > 0,
            ;
            assert(d.fill_size <= q);
            assert(d.fill_size * ma <= q * ma) by (nonlinear_arith)
                requires
                    d.fill_size <= q,
                    ma > 0,
            ;
        }
    }
}

proof fn makers_tell(b: Seq<u8>, h: Header, n: int, wallet: Seq<u8>)
    requires
        n <= h.n_makers <= MAX_ORDERS,
        words::small_at(b, 64) == Some(h.makers_off as int),
        words::small_at(b, 128) == Some(h.fills_off as int),
    ensures
        forall|i: int|
            0 <= i < calldata::maker_fills(b, h, n, wallet).len() ==> {
                let d = #[trigger] calldata::maker_fills(b, h, n, wallet)[i];
                &&& d.side <= 1 && d.occurrence < n
                &&& d.condition_id == h.condition_id@
                &&& order_place(b, d.occurrence) matches Some(ord) && filled_amount(
                    b,
                    d.occurrence,
                ) matches Some(f) && tells(d, b, ord, f, wallet)
            },
    decreases n,
{
    if n > 0 {
        makers_tell(b, h, n - 1, wallet);
        let before = calldata::maker_fills(b, h, n - 1, wallet);
        let all = calldata::maker_fills(b, h, n, wallet);
        let k = n - 1;
        let body = h.makers_off + 32;
        if let (Some(rel), Some(fill)) = (
            words::small_at(b, body + k * 32),
            words::large_at(b, h.fills_off + 32 + k * 32),
        ) {
            if calldata::address_at(b, body + rel + 32) == Some(wallet) {
                order_tells(b, body + rel, fill, h.condition_id@, "maker"@, k as u16, wallet);
            }
        }
        assert forall|i: int| 0 <= i < all.len() implies {
            let d = #[trigger] all[i];
            &&& d.side <= 1 && d.occurrence < n
            &&& d.condition_id == h.condition_id@
            &&& order_place(b, d.occurrence) matches Some(ord) && filled_amount(
                b,
                d.occurrence,
            ) matches Some(f) && tells(d, b, ord, f, wallet)
        } by {
            if i < before.len() {
                assert(all[i] == before[i]);
            }
        }
    }
}

/// Every fill that is read is what was filled of an order of the wallet, and not the order:
/// of a sell, exactly the amount that the match says was filled; of a buy, the shares that
/// this amount of money buys at the price of the order, rounded down. Its price, its token,
/// its side and the size of the order are those of the order.
pub proof fn fills_are_what_was_filled(
    calldata: Seq<u8>,
    wallet: Seq<u8>,
    r: Seq<DecodedView>,
    i: int,
)
    requires
        calldata::decodes(calldata, wallet, r),
        0 <= i < r.len(),
    ensures
        ({
            let args = calldata.skip(4);
            let d = r[i];
            &&& d.side == 0 || d.side == 1
            &&& order_place(args, d.occurrence) matches Some(ord) && filled_amount(
                args,
                d.occurrence,
            ) matches Some(filled) && words::large_at(args, ord + 128) matches Some(gives)
                && words::large_at(args, ord + 160) matches Some(takes) && {
                &&& gives > 0 && takes > 0 && filled > 0
                &&& filled * 1000 <= gives * 1001
                &&& d.side == 1 ==> d.fill_size == filled && d.order_size == gives && d.price.num
                    == takes && d.price.den == gives
                &&& d.side == 0 ==> d.order_size == takes && d.price.num == gives && d.price.den
                    == takes && d.fill_size * gives <= filled * takes && (d.fill_size < u128::MAX
                    ==> filled * takes < (d.fill_size + 1) * gives)
                &&& words::large_at(args, ord + 192) matches Some(s) && d.side == s % 256
                &&& words::word_at(args, ord) == Some(d.salt)
                &&& words::word_at(args, ord + 96) matches Some(t) && d.token_id == text::dec(
                    words::be(t),
                )
                &&& words::word_at(args, ord + 32) matches Some(w) && w.skip(12) == wallet
                    && words::is_zero(w.take(12))
            }
        }),
{
    let b = calldata.skip(4);
    let h = choose|h: Option<Header>| #[trigger]
        calldata::header_of(b, h) && r == (match h {
            Some(h) => calldata::match_fills(b, h, wallet),
            None => Seq::empty(),
        });
    if let Some(h) = h {
        makers_tell(b, h, h.n_makers as int, wallet);
        if calldata::address_at(b, h.taker_off + 32) == Some(wallet) {
            order_tells(
                b,
                h.taker_off as int,
                h.taker_fill as int,
                h.condition_id@,
                "taker"@,
                TAKER_OCCURRENCE,
                wallet,
            );
        }
        let d = r[i];
        assert(order_place(b, d.occurrence) matches Some(ord) && filled_amount(
            b,
            d.occurrence,
        ) matches Some(f) && tells(d, b, ord, f, wallet));
    }
}

/// Where more of the same order was filled, no less is read: of two fills of the same side and
/// the same terms the larger amount gives the larger size, and twice the amount gives twice the
/// size, up to a part of one unit that a buy rounds away.
pub proof fn size_follows_the_fill(
    one: Seq<u8>,
    two: Seq<u8>,
    wallet: Seq<u8>,
    r: Seq<DecodedView>,
    s: Seq<DecodedView>,
    i: int,
    j: int,
)
    requires
        calldata::decodes(one, wallet, r),
        calldata::decodes(two, wallet, s),
        0 <= i < r.len(),
        0 <= j < s.len(),
        r[i].side == s[j].side,
        r[i].price == s[j].price,
        r[i].order_size == s[j].order_size,
        r[i].fill_size < u128::MAX,
        s[j].fill_size < u128::MAX,
    ensures
        ({
            let f = filled_amount(one.skip(4), r[i].occurrence)->0;
            let g = filled_amount(two.skip(4), s[j].occurrence)->0;
            &&& f <= g ==> r[i].fill_size <= s[j].fill_size
            &&& g == 2 * f ==> 2 * r[i].fill_size <= s[j].fill_size <= 2 * r[i].fill_size + 1
        }),
{
    fills_are_what_was_filled(one, wallet, r, i);
    fills_are_what_was_filled(two, wallet, s, j);
    let f = filled_amount(one.skip(4), r[i].occurrence)->0;
    let g = filled_amount(two.skip(4), s[j].occurrence)->0;
    if r[i].side == 0 {
        let gives = r[i].price.num as int;
        let takes = r[i].price.den as int;
        let x = r[i].fill_size;
        let y = s[j].fill_size;
        let p = f * takes;
        let q = g * takes;
        assert(x * gives <= p < (x + 1) * gives);
        assert(y * gives <= q < (y + 1) * gives);
        assert(f <= g ==> p <= q) by (nonlinear_arith)
            requires
                p == f * takes,
                q == g * takes,
                takes > 0,
        ;
        assert(g == 2 * f ==> q == 2 * p) by (nonlinear_arith)
            requires
                p == f * takes,
                q == g * takes,
        ;
        assert(p <= q ==> x <= y) by (nonlinear_arith)
            requires
                x * gives <= p,
                q < (y + 1) * gives,
                gives > 0,
        ;
        assert(q == 2 * p ==> 2 * x <= y <= 2 * x + 1) by (nonlinear_arith)
            requires
                x * gives <= p,
                p < (x + 1) * gives,
                y * gives <= q,
                q < (y + 1) * gives,
                gives > 0,
        ;
    }
}

/// Whether an order can be read: its price lies strictly between nothing and one, what was
/// filled is over nothing and exceeds the order by no more than a thousandth, its token has at
/// least six digits and its salt is not zero.
pub open spec fn readable(args: Seq<u8>, ord: int, filled: int) -> bool {
    words::large_at(args, ord + 128) matches Some(gives) && words::large_at(
        args,
        ord + 160,
    ) matches Some(takes) && words::large_at(args, ord + 192) matches Some(s) && words::word_at(
        args,
        ord,
    ) matches Some(salt) && words::word_at(args, ord + 96) matches Some(t) && {
        &&& gives > 0 && takes > 0
        &&& (s % 256 == 0 && gives < takes) || (s % 256 == 1 && takes < gives)
        &&& filled > 0 && filled * 1000 <= gives * 1001
        &&& text::dec(words::be(t)).len() >= 6
        &&& !words::is_zero(salt)
    }
}

proof fn readable_is_read(
    b: Seq<u8>,
    ord: int,
    fill: int,
    condition_id: Seq<u8>,
    role: Seq<char>,
    occurrence: u16,
)
    requires
        readable(b, ord, fill),
    ensures
        calldata::order_at(b, ord, fill, condition_id, role, occurrence) matches Some(d)
            && d.occurrence == occurrence,
{
}

proof fn maker_is_read(b: Seq<u8>, h: Header, n: int, wallet: Seq<u8>, k: int)
    requires
        0 <= k < n <= h.n_makers <= MAX_ORDERS,
        calldata::maker_fill(b, h, k, wallet) matches Some(d) && d.occurrence == k,
    ensures
        exists|i: int|
            0 <= i < calldata::maker_fills(b, h, n, wallet).len() && (
            #[trigger] calldata::maker_fills(b, h, n, wallet)[i]).occurrence == k,
    decreases n,
{
    let all = calldata::maker_fills(b, h, n, wallet);
    let before = calldata::maker_fills(b, h, n - 1, wallet);
    if k == n - 1 {
        assert(all[before.len() as int].occurrence == k);
    } else {
        maker_is_read(b, h, n - 1, wallet, k);
        let i = choose|i: int|
            0 <= i < before.len() && (#[trigger] before[i]).occurrence == k;
        assert(all[i] == before[i]);
    }
}

/// No fill of the wallet is passed over: where a match names its market and no more orders
/// than it can, every readable order of the wallet among its makers, and the taker's, is among
/// the fills.
pub proof fn no_fill_is_missed(
    calldata: Seq<u8>,
    wallet: Seq<u8>,
    r: Seq<DecodedView>,
    occurrence: u16,
)
    requires
        calldata::decodes(calldata, wallet, r),
        calldata.len() >= 4 + 32 * 7,
        calldata.take(4) == calldata::MATCH_SELECTOR@,
        !words::is_zero(calldata.subrange(4, 36)),
        ({
            let args = calldata.skip(4);
            &&& words::small_at(args, 32) is Some && words::large_at(args, 96) is Some
            &&& words::small_at(args, 64) matches Some(m) && words::small_at(
                args,
                m,
            ) matches Some(makers) && words::small_at(args, 128) matches Some(f)
                && words::small_at(args, f) matches Some(fills) && makers <= 512 && fills <= 512
                && (occurrence == TAKER_OCCURRENCE || (occurrence < makers && occurrence < fills))
            &&& order_place(args, occurrence) matches Some(ord) && filled_amount(
                args,
                occurrence,
            ) matches Some(filled) && words::word_at(args, ord + 32) matches Some(w) && readable(
                args,
                ord,
                filled,
            ) && words::is_zero(w.take(12)) && w.skip(12) == wallet
        }),
    ensures
        exists|i: int| 0 <= i < r.len() && (#[trigger] r[i]).occurrence == occurrence,
{
    let b = calldata.skip(4);
    assert(calldata.subrange(0, 4) =~= calldata.take(4));
    assert(b.subrange(0, 32) =~= calldata.subrange(4, 36));
    let h = choose|h: Option<Header>| #[trigger]
        calldata::header_of(b, h) && r == (match h {
            Some(h) => calldata::match_fills(b, h, wallet),
            None => Seq::empty(),
        });
    let ord = order_place(b, occurrence)->0;
    let filled = filled_amount(b, occurrence)->0;
    if let Some(h) = h {
        let makers = calldata::maker_fills(b, h, h.n_makers as int, wallet);
        if occurrence == TAKER_OCCURRENCE {
            readable_is_read(b, ord, filled, h.condition_id@, "taker"@, occurrence);
            assert(r[makers.len() as int].occurrence == occurrence);
        } else {
            readable_is_read(b, ord, filled, h.condition_id@, "maker"@, occurrence);
            maker_is_read(b, h, h.n_makers as int, wallet, occurrence as int);
            let i = choose|i: int|
                0 <= i < makers.len() && (#[trigger] makers[i]).occurrence == occurrence;
            assert(r[i] == makers[i]);
        }
    }
}

/// What is read out of calldata is one thing: two readings of it for one wallet agree.
pub proof fn reading_is_one(
    calldata: Seq<u8>,
    wallet: Seq<u8>,
    r: Seq<DecodedView>,
    s: Seq<DecodedView>,
)
    requires
        calldata::decodes(calldata, wallet, r),
        calldata::decodes(calldata, wallet, s),
    ensures
        r == s,
{
    let b = calldata.skip(4);
    if calldata::is_match(calldata) {
        let h = choose|h: Option<Header>| #[trigger]
            calldata::header_of(b, h) && r == (match h {
                Some(h) => calldata::match_fills(b, h, wallet),
                None => Seq::empty(),
            });
        let g = choose|h: Option<Header>| #[trigger]
            calldata::header_of(b, h) && s == (match h {
                Some(h) => calldata::match_fills(b, h, wallet),
                None => Seq::empty(),
            });
        if let (Some(x), Some(y)) = (h, g) {
            assert(x.condition_id@ == y.condition_id@);
            same_header(b, x, y, x.n_makers as int, wallet);
        }
    } else {
        assert(r =~= s);
    }
}

proof fn same_header(b: Seq<u8>, x: Header, y: Header, n: int, wallet: Seq<u8>)
    requires
        x.condition_id@ == y.condition_id@,
        x.taker_off == y.taker_off && x.makers_off == y.makers_off && x.taker_fill == y.taker_fill,
        x.fills_off == y.fills_off && x.n_fills == y.n_fills && x.n_makers == y.n_makers,
    ensures
        calldata::maker_fills(b, x, n, wallet) == calldata::maker_fills(b, y, n, wallet),
    decreases n,
{
    if n > 0 {
        same_header(b, x, y, n - 1, wallet);
    }
}

proof fn maker_takes_part(b: Seq<u8>, body: int, n: int, k: int)
    requires
        0 <= k < n,
        words::small_at(b, body + k * 32) matches Some(rel) && calldata::address_at(
            b,
            body + rel + 32,
        ) is Some,
    ensures
        calldata::maker_wallets(b, body, n).contains(
            calldata::address_at(b, body + words::small_at(b, body + k * 32)->0 + 32)->0,
        ),
    decreases n,
{
    let a = calldata::address_at(b, body + words::small_at(b, body + k * 32)->0 + 32)->0;
    let all = calldata::maker_wallets(b, body, n);
    let before = calldata::maker_wallets(b, body, n - 1);
    if k == n - 1 {
        assert(all[before.len() as int] == a);
    } else {
        maker_takes_part(b, body, n - 1, k);
        let i = before.index_of(a);
        assert(all[i] == a);
    }
}

/// A wallet that has a fill in a match is among those that take part in it.
pub proof fn who_fills_takes_part(calldata: Seq<u8>, wallet: Seq<u8>, r: Seq<DecodedView>)
    requires
        calldata::decodes(calldata, wallet, r),
        r.len() > 0,
    ensures
        calldata::is_match(calldata),
        calldata::wallets_in(calldata.skip(4)).contains(wallet),
{
    fills_are_what_was_filled(calldata, wallet, r, 0);
    let b = calldata.skip(4);
    let d = r[0];
    let h = choose|h: Option<Header>| #[trigger]
        calldata::header_of(b, h) && r == (match h {
            Some(h) => calldata::match_fills(b, h, wallet),
            None => Seq::empty(),
        });
    let w = calldata::wallets_in(b);
    if let Some(h) = h {
        makers_tell(b, h, h.n_makers as int, wallet);
        let m = calldata::maker_wallets(b, h.makers_off + 32, h.n_makers as int);
        if d.occurrence == TAKER_OCCURRENCE {
            assert(w[0] == wallet);
        } else {
            let makers = calldata::maker_fills(b, h, h.n_makers as int, wallet);
            assert(d == makers[0]);
            maker_takes_part(b, h.makers_off + 32, h.n_makers as int, d.occurrence as int);
            let k = m.index_of(wallet);
            assert(w[w.len() - m.len() + k] == wallet);
        }
    }
}

proof fn makers_are_named(b: Seq<u8>, body: int, n: int, i: int)
    requires
        0 <= i < calldata::maker_wallets(b, body, n).len(),
    ensures
        exists|k: int|
            0 <= k < n && #[trigger] words::small_at(b, body + k * 32) is Some
                && calldata::address_at(b, body + words::small_at(b, body + k * 32)->0 + 32) == Some(
                calldata::maker_wallets(b, body, n)[i],
            ),
    decreases n,
{
    let all = calldata::maker_wallets(b, body, n);
    let before = calldata::maker_wallets(b, body, n - 1);
    if n > 0 {
        if i < before.len() {
            makers_are_named(b, body, n - 1, i);
            let k = choose|k: int|
                0 <= k < n - 1 && #[trigger] words::small_at(b, body + k * 32) is Some
                    && calldata::address_at(b, body + words::small_at(b, body + k * 32)->0 + 32)
                    == Some(before[i]);
            assert(all[i] == before[i]);
            assert(words::small_at(b, body + k * 32) is Some);
        } else {
            assert(words::small_at(b, body + (n - 1) * 32) is Some);
        }
    }
}

/// Nobody takes part in a match but its taker, who is named first, and its makers.
pub proof fn only_parties_take_part(args: Seq<u8>, i: int)
    requires
        0 <= i < calldata::wallets_in(args).len(),
    ensures
        ({
            let a = calldata::wallets_in(args)[i];
            let is_taker = words::small_at(args, 32) matches Some(t) && calldata::address_at(
                args,
                t + 32,
            ) == Some(a);
            let is_maker = words::small_at(args, 64) matches Some(m) && exists|k: int|
                0 <= k < 512 && #[trigger] words::small_at(args, m + 32 + k * 32) is Some
                    && calldata::address_at(
                    args,
                    m + 32 + words::small_at(args, m + 32 + k * 32)->0 + 32,
                ) == Some(a);
            is_taker || is_maker
        }),
        words::small_at(args, 32) matches Some(t) ==> (calldata::address_at(
            args,
            t + 32,
        ) matches Some(a) ==> calldata::wallets_in(args)[0] == a),
{
    let w = calldata::wallets_in(args);
    if let Some(m) = words::small_at(args, 64) {
        if let Some(n) = words::small_at(args, m) {
            if n <= MAX_ORDERS {
                let mw = calldata::maker_wallets(args, m + 32, n);
                let k = i - (w.len() - mw.len());
                if k >= 0 {
                    makers_are_named(args, m + 32, n, k);
                    let q = choose|q: int|
                        0 <= q < n && #[trigger] words::small_at(args, m + 32 + q * 32) is Some
                            && calldata::address_at(
                            args,
                            m + 32 + words::small_at(args, m + 32 + q * 32)->0 + 32,
                        ) == Some(mw[k]);
                    assert(w[i] == mw[k]);
                    assert(words::small_at(args, m + 32 + q * 32) is Some);
                }
            }
        }
    }
}

} // verus!
