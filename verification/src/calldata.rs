//! Reading the leader's fills out of the calldata of a match on the exchange.

use vstd::prelude::*;
use crate::text;
use crate::units;
use crate::words;

verus! {

/// The selector of the exchange's function that matches orders.
pub const MATCH_SELECTOR: [u8; 4] = [0x3c, 0x2b, 0x43, 0x99];

/// The place that the taker's order has among the fills of a match.
pub const TAKER_OCCURRENCE: u16 = 0xffff;

/// How many orders or fills a match can name.
pub const MAX_ORDERS: u64 = 512;

/// A price as the two amounts that make it: `num` of money for `den` of shares.
#[derive(Debug, Clone, Copy, PartialEq, Eq, Structural)]
pub struct Price {
    pub num: u128,
    pub den: u128,
}

/// A fill of the leader.
#[derive(Debug)]
pub struct Decoded {
    pub condition_id: [u8; 32],
    pub token_id: String,
    pub side: u8,
    pub price: Price,
    pub order_size: u128,
    pub fill_size: u128,
    pub role: &'static str,
    pub salt: [u8; 32],
    pub occurrence: u16,
}

/// What a fill of the leader says. Sizes are millionths of a share.
#[verifier::ext_equal]
pub struct DecodedView {
    pub condition_id: Seq<u8>,
    pub token_id: Seq<char>,
    pub side: u8,
    pub price: Price,
    pub order_size: int,
    pub fill_size: int,
    pub role: Seq<char>,
    pub salt: Seq<u8>,
    pub occurrence: u16,
}

impl View for Decoded {
    type V = DecodedView;

    open spec fn view(&self) -> DecodedView {
        DecodedView {
            condition_id: self.condition_id@,
            token_id: self.token_id@,
            side: self.side,
            price: self.price,
            order_size: self.order_size as int,
            fill_size: self.fill_size as int,
            role: self.role@,
            salt: self.salt@,
            occurrence: self.occurrence,
        }
    }
}

/// What these fills say.
pub open spec fn views(v: Seq<Decoded>) -> Seq<DecodedView> {
    v.map_values(|d: Decoded| d@)
}

/// The twenty bytes of an address in a word, where the rest of the word is zero.
pub open spec fn address_at(b: Seq<u8>, off: int) -> Option<Seq<u8>> {
    match words::word_at(b, off) {
        Some(w) => if words::is_zero(w.take(12)) {
            Some(w.skip(12))
        } else {
            None
        },
        None => None,
    }
}

/// The amounts of an order: what the maker gives, what the taker gives, and the side.
/// An order whose price does not lie between nothing and one has none.
pub open spec fn terms_at(b: Seq<u8>, ord: int) -> Option<(int, int, u8)> {
    match (
        words::large_at(b, ord + 4 * 32),
        words::large_at(b, ord + 5 * 32),
        words::large_at(b, ord + 6 * 32),
    ) {
        (Some(ma), Some(ta), Some(s)) => {
            let side = s % 256;
            if ma > 0 && ta > 0 && ((side == 0 && ma < ta) || (side == 1 && ta < ma)) {
                Some((ma, ta, side as u8))
            } else {
                None
            }
        },
        _ => None,
    }
}

/// A number of shares held at the largest `u128`.
pub open spec fn capped(x: int) -> int {
    units::smaller(x, u128::MAX as int)
}

/// The fill of an order, where it is one: of a nonzero amount, of no more than the
/// order and a thousandth, with a salt, and of a token whose number has at least six
/// digits. A buy gives money, so its shares follow from the price, rounded down; a sell
/// gives shares.
pub open spec fn order_at(
    b: Seq<u8>,
    ord: int,
    fill: int,
    condition_id: Seq<u8>,
    role: Seq<char>,
    occurrence: u16,
) -> Option<DecodedView> {
    match (terms_at(b, ord), words::word_at(b, ord), words::word_at(b, ord + 3 * 32)) {
        (Some((ma, ta, side)), Some(salt), Some(token)) => {
            let token_id = text::dec(words::be(token));
            if fill > 0 && fill * 1000 <= ma * 1001 && token_id.len() >= 6 && !words::is_zero(
                salt,
            ) {
                Some(
                    DecodedView {
                        condition_id,
                        token_id,
                        side,
                        price: if side == 0 {
                            Price { num: ma as u128, den: ta as u128 }
                        } else {
                            Price { num: ta as u128, den: ma as u128 }
                        },
                        order_size: if side == 0 {
                            ta
                        } else {
                            ma
                        },
                        fill_size: if side == 0 {
                            capped(fill * ta / ma)
                        } else {
                            fill
                        },
                        role,
                        salt,
                        occurrence,
                    },
                )
            } else {
                None
            }
        },
        _ => None,
    }
}

/// The fixed part of a match.
pub struct Header {
    pub condition_id: [u8; 32],
    pub taker_off: u64,
    pub makers_off: u64,
    pub taker_fill: u128,
    pub fills_off: u64,
    pub n_fills: u64,
    pub n_makers: u64,
}

/// Whether calldata is long enough for a match and selects it.
pub open spec fn is_match(calldata: Seq<u8>) -> bool {
    calldata.len() >= 4 + 32 * 7 && words::holds_at(calldata, 0, MATCH_SELECTOR@)
}

/// The fixed part of a match, where it has all of it and names no more orders than it
/// can.
pub open spec fn header_of(b: Seq<u8>, h: Option<Header>) -> bool {
    match (
        words::word_at(b, 0),
        words::small_at(b, 32),
        words::small_at(b, 64),
        words::large_at(b, 96),
        words::small_at(b, 128),
    ) {
        (Some(c), Some(t), Some(m), Some(f), Some(o)) => {
            match (words::small_at(b, o), words::small_at(b, m)) {
                (Some(nf), Some(nm)) => if !words::is_zero(c) && nf <= MAX_ORDERS && nm
                    <= MAX_ORDERS {
                    h matches Some(h) && h.condition_id@ == c && h.taker_off == t && h.makers_off
                        == m && h.taker_fill == f && h.fills_off == o && h.n_fills == nf
                        && h.n_makers == nm
                } else {
                    h is None
                },
                _ => h is None,
            }
        },
        _ => h is None,
    }
}

/// The fill of maker `i`, where its order is the wallet's.
pub open spec fn maker_fill(b: Seq<u8>, h: Header, i: int, wallet: Seq<u8>) -> Option<DecodedView> {
    let body = h.makers_off + 32;
    match (
        words::small_at(b, body + i * 32),
        words::large_at(b, h.fills_off + 32 + i * 32),
    ) {
        (Some(rel), Some(fill)) => if address_at(b, body + rel + 32) == Some(wallet) && i
            < h.n_fills {
            order_at(b, body + rel, fill, h.condition_id@, "maker"@, i as u16)
        } else {
            None
        },
        _ => None,
    }
}

/// The fills of the first `n` makers that are the wallet's.
pub open spec fn maker_fills(b: Seq<u8>, h: Header, n: int, wallet: Seq<u8>) -> Seq<DecodedView>
    decreases n,
{
    if n <= 0 {
        Seq::empty()
    } else {
        let before = maker_fills(b, h, n - 1, wallet);
        match maker_fill(b, h, n - 1, wallet) {
            Some(d) => before.push(d),
            None => before,
        }
    }
}

/// The fills of a match that are the wallet's: those of its orders among the makers,
/// then that of the taker's order.
pub open spec fn match_fills(b: Seq<u8>, h: Header, wallet: Seq<u8>) -> Seq<DecodedView> {
    let makers = maker_fills(b, h, h.n_makers as int, wallet);
    if address_at(b, h.taker_off + 32) == Some(wallet) {
        match order_at(
            b,
            h.taker_off as int,
            h.taker_fill as int,
            h.condition_id@,
            "taker"@,
            TAKER_OCCURRENCE,
        ) {
            Some(d) => makers.push(d),
            None => makers,
        }
    } else {
        makers
    }
}

/// Whether `r` are the fills of the wallet in the calldata.
pub open spec fn decodes(calldata: Seq<u8>, wallet: Seq<u8>, r: Seq<DecodedView>) -> bool {
    let b = calldata.skip(4);
    if is_match(calldata) {
        exists|h: Option<Header>| #[trigger]
            header_of(b, h) && r == (match h {
                Some(h) => match_fills(b, h, wallet),
                None => Seq::empty(),
            })
    } else {
        r.len() == 0
    }
}

fn address(b: &[u8], off: u128) -> (r: Option<[u8; 20]>)
    ensures
        match address_at(b@, off as int) {
            Some(a) => r matches Some(x) && x@ == a,
            None => r is None,
        },
{
    match words::word(b, off) {
        None => None,
        Some(w) => {
            assert(w@.subrange(0, 12) =~= w@.take(12));
            if words::zeros(&w, 0, 12) {
                Some(words::tail20(&w))
            } else {
                None
            }
        },
    }
}

fn is_wallet(b: &[u8], off: u128, wallet: &[u8; 20]) -> (r: bool)
    ensures
        r == (address_at(b@, off as int) == Some(wallet@)),
{
    match address(b, off) {
        Some(a) => text::same_bytes(&a, wallet),
        None => false,
    }
}

fn terms(b: &[u8], ord: u128) -> (r: Option<(u128, u128, u8)>)
    requires
        ord <= 0xffff_ffff_ffff_ffff_ffff,
    ensures
        match terms_at(b@, ord as int) {
            Some(t) => r matches Some(u) && u.0 == t.0 && u.1 == t.1 && u.2 == t.2 && u.0 > 0
                && u.1 > 0 && (u.2 == 0 ==> u.0 < u.1) && (u.2 != 0 ==> u.2 == 1 && u.1 < u.0),
            None => r is None,
        },
{
    match (
        words::large(b, ord + 4 * 32),
        words::large(b, ord + 5 * 32),
        words::large(b, ord + 6 * 32),
    ) {
        (Some(ma), Some(ta), Some(s)) => {
            let side: u128 = s % 256;
            if ma > 0 && ta > 0 && ((side == 0 && ma < ta) || (side == 1 && ta < ma)) {
                Some((ma, ta, side as u8))
            } else {
                None
            }
        },
        _ => None,
    }
}

proof fn divided(x: int, z: int, q: int, m: int)
    requires
        z > 0,
        0 <= m < z,
        x == q * z + m,
    ensures
        x / z == q,
{
    vstd::arithmetic::div_mod::lemma_fundamental_div_mod_converse(x, z, q, m);
}

/// `x * y / z` rounded down, held at the largest `u128`.
fn portion(x: u128, y: u128, z: u128) -> (r: u128)
    requires
        z > 0,
    ensures
        r == capped(x * y / (z as int)),
{
    let (q, m) = words::mul_div(x, y, z);
    match q {
        Some(v) => {
            proof {
                divided(x * y, z as int, v as int, m as int);
            }
            v
        },
        None => {
            assert((x * y) / (z as int) >= 0x1_0000_0000_0000_0000_0000_0000_0000_0000) by (nonlinear_arith)
                requires
                    x * y >= 0x1_0000_0000_0000_0000_0000_0000_0000_0000 * z,
                    z > 0,
            ;
            u128::MAX
        },
    }
}

fn order(
    b: &[u8],
    ord: u128,
    fill: u128,
    condition_id: &[u8; 32],
    role: &'static str,
    occurrence: u16,
) -> (r: Option<Decoded>)
    requires
        ord <= 0xffff_ffff_ffff_ffff_ffff,
    ensures
        match order_at(b@, ord as int, fill as int, condition_id@, role@, occurrence) {
            Some(d) => r matches Some(e) && e@ == d,
            None => r is None,
        },
{
    let (ma, ta, side) = match terms(b, ord) {
        Some(t) => t,
        None => {
            return None;
        },
    };
    let salt = match words::word(b, ord) {
        Some(w) => w,
        None => {
            return None;
        },
    };
    let token = match words::word(b, ord + 3 * 32) {
        Some(w) => w,
        None => {
            return None;
        },
    };
    let token_bytes = text::bytes_of(&token);
    let token_id = words::decimal(&token_bytes);
    let digits = text::chars_of(token_id.as_str());
    assert(salt@.subrange(0, 32) =~= salt@);
    let over = fill > ma && fill - ma > ma / 1000;
    assert(over == (fill * 1000 > ma * 1001));
    if fill == 0 || over || digits.len() < 6 || words::zeros(&salt, 0, 32) {
        return None;
    }
    let price = if side == 0 {
        Price { num: ma, den: ta }
    } else {
        Price { num: ta, den: ma }
    };
    let fill_size: u128 = if side == 0 {
        portion(fill, ta, ma)
    } else {
        fill
    };
    let order_size: u128 = if side == 0 {
        ta
    } else {
        ma
    };
    let d = Decoded {
        condition_id: *condition_id,
        token_id,
        side,
        price,
        order_size,
        fill_size,
        role,
        salt,
        occurrence,
    };
    assert(d@ =~= order_at(
        b@,
        ord as int,
        fill as int,
        condition_id@,
        role@,
        occurrence,
    )->0);
    Some(d)
}

fn header(b: &[u8]) -> (r: Option<Header>)
    ensures
        header_of(b@, r),
        r matches Some(h) ==> h.n_makers <= MAX_ORDERS,
{
    let condition_id = match words::word(b, 0) {
        Some(w) => w,
        None => {
            return None;
        },
    };
    match (words::small(b, 32), words::small(b, 64), words::large(b, 96), words::small(b, 128)) {
        (Some(taker_off), Some(makers_off), Some(taker_fill), Some(fills_off)) => {
            match (words::small(b, fills_off as u128), words::small(b, makers_off as u128)) {
                (Some(n_fills), Some(n_makers)) => {
                    assert(condition_id@.subrange(0, 32) =~= condition_id@);
                    if words::zeros(&condition_id, 0, 32) || n_fills > MAX_ORDERS || n_makers
                        > MAX_ORDERS {
                        None
                    } else {
                        Some(
                            Header {
                                condition_id,
                                taker_off,
                                makers_off,
                                taker_fill,
                                fills_off,
                                n_fills,
                                n_makers,
                            },
                        )
                    }
                },
                _ => None,
            }
        },
        _ => None,
    }
}

fn one_maker(b: &[u8], h: &Header, i: u64, wallet: &[u8; 20]) -> (r: Option<Decoded>)
    requires
        i < MAX_ORDERS,
    ensures
        match maker_fill(b@, *h, i as int, wallet@) {
            Some(d) => r matches Some(e) && e@ == d,
            None => r is None,
        },
{
    let body: u128 = h.makers_off as u128 + 32;
    let rel = match words::small(b, body + i as u128 * 32) {
        Some(v) => v,
        None => {
            return None;
        },
    };
    let fill = match words::large(b, h.fills_off as u128 + 32 + i as u128 * 32) {
        Some(v) => v,
        None => {
            return None;
        },
    };
    let ord: u128 = body + rel as u128;
    if !is_wallet(b, ord + 32, wallet) || i >= h.n_fills {
        return None;
    }
    order(b, ord, fill, &h.condition_id, "maker", i as u16)
}

fn fills(b: &[u8], h: &Header, wallet: &[u8; 20]) -> (r: Vec<Decoded>)
    requires
        h.n_makers <= MAX_ORDERS,
    ensures
        views(r@) == match_fills(b@, *h, wallet@),
{
    let mut out: Vec<Decoded> = Vec::new();
    assert(views(out@) =~= Seq::<DecodedView>::empty());
    let mut i: u64 = 0;
    while i < h.n_makers
        invariant
            i <= h.n_makers <= MAX_ORDERS,
            views(out@) == maker_fills(b@, *h, i as int, wallet@),
        decreases h.n_makers - i,
    {
        let ghost before = views(out@);
        if let Some(d) = one_maker(b, h, i, wallet) {
            let ghost v = d@;
            out.push(d);
            assert(views(out@) =~= before.push(v));
        }
        i = i + 1;
    }
    let ghost before = views(out@);
    if is_wallet(b, h.taker_off as u128 + 32, wallet) {
        if let Some(d) = order(
            b,
            h.taker_off as u128,
            h.taker_fill,
            &h.condition_id,
            "taker",
            TAKER_OCCURRENCE,
        ) {
            let ghost v = d@;
            out.push(d);
            assert(views(out@) =~= before.push(v));
        }
    }
    out
}

/// The part of a slice from `from` on.
fn rest(b: &[u8], from: usize) -> (r: Vec<u8>)
    requires
        from <= b@.len(),
    ensures
        r@ == b@.skip(from as int),
{
    let mut v: Vec<u8> = Vec::new();
    for i in from..b.len()
        invariant
            from <= b@.len(),
            v@ == b@.subrange(from as int, i as int),
    {
        v.push(b[i]);
        assert(b@.subrange(from as int, i + 1) =~= b@.subrange(from as int, i as int).push(
            b@[i as int],
        ));
    }
    assert(v@ =~= b@.skip(from as int));
    v
}

/// The fills of the wallet in the calldata of a match; see [`match_fills`].
pub fn decode_all(calldata: &[u8], wallet_20: &[u8; 20]) -> (r: Vec<Decoded>)
    ensures
        decodes(calldata@, wallet_20@, views(r@)),
{
    if calldata.len() < 4 + 32 * 7 || !words::selects(calldata, 0, &MATCH_SELECTOR) {
        let none: Vec<Decoded> = Vec::new();
        return none;
    }
    let b = rest(calldata, 4);
    let h = header(b.as_slice());
    let ghost hv = h;
    assert(header_of(calldata@.skip(4), hv));
    match h {
        Some(h) => fills(b.as_slice(), &h, wallet_20),
        None => {
            let none: Vec<Decoded> = Vec::new();
            assert(views(none@) =~= Seq::<DecodedView>::empty());
            none
        },
    }
}

/// The fill of the wallet in the calldata of a match, where there is exactly one.
pub fn decode_pending(calldata: &[u8], wallet_20: &[u8; 20]) -> (r: Option<Decoded>)
    ensures
        exists|all: Seq<DecodedView>| #[trigger]
            decodes(calldata@, wallet_20@, all) && (if all.len() == 1 {
                r matches Some(d) && d@ == all[0]
            } else {
                r is None
            }),
{
    let mut all = decode_all(calldata, wallet_20);
    let ghost v = views(all@);
    assert(decodes(calldata@, wallet_20@, v));
    assert(v.len() == all@.len());
    if all.len() == 1 {
        assert(v[0] == all@[0]@);
        all.pop()
    } else {
        None
    }
}

/// The wallets of the first `n` makers.
pub open spec fn maker_wallets(b: Seq<u8>, body: int, n: int) -> Seq<Seq<u8>>
    decreases n,
{
    if n <= 0 {
        Seq::empty()
    } else {
        let before = maker_wallets(b, body, n - 1);
        match words::small_at(b, body + (n - 1) * 32) {
            Some(rel) => match address_at(b, body + rel + 32) {
                Some(a) => before.push(a),
                None => before,
            },
            None => before,
        }
    }
}

/// The wallets that take part in a match: the taker's first, then the makers'.
pub open spec fn wallets_in(b: Seq<u8>) -> Seq<Seq<u8>> {
    let taker = match words::small_at(b, 32) {
        Some(t) => match address_at(b, t + 32) {
            Some(a) => seq![a],
            None => Seq::empty(),
        },
        None => Seq::empty(),
    };
    match words::small_at(b, 64) {
        Some(mo) => match words::small_at(b, mo) {
            Some(n) => if n <= MAX_ORDERS {
                taker + maker_wallets(b, mo + 32, n)
            } else {
                taker
            },
            None => taker,
        },
        None => taker,
    }
}

/// The addresses of a list.
pub open spec fn addresses(v: Seq<[u8; 20]>) -> Seq<Seq<u8>> {
    v.map_values(|a: [u8; 20]| a@)
}

/// The wallets that take part in a match.
pub fn participants(calldata: &[u8]) -> (r: Vec<[u8; 20]>)
    ensures
        addresses(r@) == (if is_match(calldata@) {
            wallets_in(calldata@.skip(4))
        } else {
            Seq::empty()
        }),
{
    let mut out: Vec<[u8; 20]> = Vec::new();
    assert(addresses(out@) =~= Seq::<Seq<u8>>::empty());
    if calldata.len() < 4 + 32 * 7 || !words::selects(calldata, 0, &MATCH_SELECTOR) {
        return out;
    }
    let b = rest(calldata, 4);
    let ghost mut taker: Seq<Seq<u8>> = Seq::empty();
    if let Some(t) = words::small(b.as_slice(), 32) {
        if let Some(a) = address(b.as_slice(), t as u128 + 32) {
            out.push(a);
            proof {
                taker = seq![a@];
            }
            assert(addresses(out@) =~= taker);
        }
    }
    if let Some(mo) = words::small(b.as_slice(), 64) {
        if let Some(n) = words::small(b.as_slice(), mo as u128) {
            if n <= MAX_ORDERS {
                let body: u128 = mo as u128 + 32;
                let mut i: u64 = 0;
                assert(addresses(out@) =~= taker + maker_wallets(b@, body as int, 0));
                while i < n
                    invariant
                        i <= n <= MAX_ORDERS,
                        body <= 0x1_0000_0000_0000_0020,
                        addresses(out@) == taker + maker_wallets(b@, body as int, i as int),
                    decreases n - i,
                {
                    let ghost before = addresses(out@);
                    let ghost had = maker_wallets(b@, body as int, i as int);
                    if let Some(rel) = words::small(b.as_slice(), body + i as u128 * 32) {
                        if let Some(a) = address(b.as_slice(), body + rel as u128 + 32) {
                            out.push(a);
                            assert(addresses(out@) =~= before.push(a@));
                            assert(taker + had.push(a@) =~= (taker + had).push(a@));
                        }
                    }
                    i = i + 1;
                }
            }
        }
    }
    out
}

/// Whether a fill makes sense: a price strictly between nothing and one, a size over
/// nothing that exceeds its order by no more than a thousandth, a token of at least six
/// digits, and a salt.
pub open spec fn plausible(d: DecodedView) -> bool {
    &&& d.side <= 1
    &&& 0 < d.price.num < d.price.den
    &&& 0 < d.fill_size
    &&& d.fill_size * 1000 <= d.order_size * 1001
    &&& d.token_id.len() >= 6
    &&& !words::is_zero(d.salt)
}

proof fn order_is_plausible(
    b: Seq<u8>,
    ord: int,
    fill: int,
    condition_id: Seq<u8>,
    role: Seq<char>,
    occurrence: u16,
)
    ensures
        order_at(b, ord, fill, condition_id, role, occurrence) matches Some(d) ==> plausible(d)
            && d.condition_id == condition_id && d.role == role && d.occurrence == occurrence,
{
    if let (Some((ma, ta, side)), Some(d)) = (
        terms_at(b, ord),
        order_at(b, ord, fill, condition_id, role, occurrence),
    ) {
        words::large_fits(b, ord + 4 * 32);
        words::large_fits(b, ord + 5 * 32);
        if side == 0 {
            let x = fill * ta;
            assert(fill <= x / ma) by (nonlinear_arith)
                requires
                    x == fill * ta,
                    0 < ma < ta,
                    0 < fill,
            ;
            assert((x / ma) * 1000 <= ta * 1001) by (nonlinear_arith)
                requires
                    x == fill * ta,
                    fill * 1000 <= ma * 1001,
                    0 < ma < ta,
                    0 < fill,
            {
                let q = x / ma;
                assert(q * ma <= x);
                assert(x * 1000 <= ma * 1001 * ta);
                if q * 1000 > ta * 1001 {
                    assert((q * 1000) * ma > (ta * 1001) * ma);
                }
            }
        }
    }
}

proof fn makers_are_plausible(b: Seq<u8>, h: Header, n: int, wallet: Seq<u8>)
    requires
        n <= h.n_makers <= MAX_ORDERS,
    ensures
        forall|i: int|
            0 <= i < maker_fills(b, h, n, wallet).len() ==> {
                let d = #[trigger] maker_fills(b, h, n, wallet)[i];
                plausible(d) && d.condition_id == h.condition_id@ && d.role == "maker"@
                    && d.occurrence < n
            },
        forall|i: int, j: int|
            0 <= i < j < maker_fills(b, h, n, wallet).len() ==> (#[trigger] maker_fills(
                b,
                h,
                n,
                wallet,
            )[i]).occurrence < (#[trigger] maker_fills(b, h, n, wallet)[j]).occurrence,
    decreases n,
{
    if n > 0 {
        makers_are_plausible(b, h, n - 1, wallet);
        let body = h.makers_off + 32;
        if let (Some(rel), Some(fill)) = (
            words::small_at(b, body + (n - 1) * 32),
            words::large_at(b, h.fills_off + 32 + (n - 1) * 32),
        ) {
            order_is_plausible(
                b,
                body + rel,
                fill,
                h.condition_id@,
                "maker"@,
                (n - 1) as u16,
            );
        }
        let before = maker_fills(b, h, n - 1, wallet);
        let all = maker_fills(b, h, n, wallet);
        assert forall|i: int| 0 <= i < all.len() implies {
            let d = #[trigger] all[i];
            plausible(d) && d.condition_id == h.condition_id@ && d.role == "maker"@ && d.occurrence
                < n
        } by {
            if i < before.len() {
                assert(all[i] == before[i]);
            }
        }
        assert forall|i: int, j: int| 0 <= i < j < all.len() implies (#[trigger] all[i]).occurrence
            < (#[trigger] all[j]).occurrence by {
            assert(all[i] == before[i]);
            if j < before.len() {
                assert(all[j] == before[j]);
            }
        }
    }
}

/// Every fill that is read makes sense, and is of the market that the call names.
pub proof fn fills_are_plausible(calldata: Seq<u8>, wallet: Seq<u8>, r: Seq<DecodedView>, i: int)
    requires
        decodes(calldata, wallet, r),
        0 <= i < r.len(),
    ensures
        plausible(r[i]),
        r[i].condition_id == calldata.subrange(4, 36),
        !words::is_zero(r[i].condition_id),
{
    let b = calldata.skip(4);
    let h = choose|h: Option<Header>| #[trigger]
        header_of(b, h) && r == (match h {
            Some(h) => match_fills(b, h, wallet),
            None => Seq::empty(),
        });
    if let Some(h) = h {
        makers_are_plausible(b, h, h.n_makers as int, wallet);
        order_is_plausible(
            b,
            h.taker_off as int,
            h.taker_fill as int,
            h.condition_id@,
            "taker"@,
            TAKER_OCCURRENCE,
        );
        assert(b.subrange(0, 32) =~= calldata.subrange(4, 36));
    }
}

/// The fills of makers come first, by their places among the makers; the taker's, if it
/// is there, comes last. So no two fills have the same occurrence.
pub proof fn fills_are_in_order(
    calldata: Seq<u8>,
    wallet: Seq<u8>,
    r: Seq<DecodedView>,
    i: int,
    j: int,
)
    requires
        decodes(calldata, wallet, r),
        0 <= i < j < r.len(),
    ensures
        r[i].role == "maker"@,
        r[i].occurrence < MAX_ORDERS,
        r[i].occurrence < r[j].occurrence,
        r[j].role == "maker"@ && r[j].occurrence < MAX_ORDERS || r[j].role == "taker"@
            && r[j].occurrence == TAKER_OCCURRENCE,
{
    let b = calldata.skip(4);
    let h = choose|h: Option<Header>| #[trigger]
        header_of(b, h) && r == (match h {
            Some(h) => match_fills(b, h, wallet),
            None => Seq::empty(),
        });
    if let Some(h) = h {
        makers_are_plausible(b, h, h.n_makers as int, wallet);
        order_is_plausible(
            b,
            h.taker_off as int,
            h.taker_fill as int,
            h.condition_id@,
            "taker"@,
            TAKER_OCCURRENCE,
        );
    }
}

} // verus!
