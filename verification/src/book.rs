//! The public book: the best prices, the sizes of the levels, and what was printed
//! as traded.
//!
//! Ages are microseconds of a clock that does not go back; a print carries the time
//! of day in milliseconds.

use vstd::prelude::*;
use crate::sorting;
use crate::table;
use crate::table::{Key, Table};
use crate::text;
use crate::text::owned;
use crate::units;
use crate::units::{less, sum_of};

pub use crate::feed::apply_frame;

verus! {

/// Where the venue publishes its book.
pub const CLOB_WS: &'static str = "wss://ws-subscriptions-clob.polymarket.com/ws/market";

/// How long a top of the book is good for, in microseconds.
pub const MAX_AGE: u64 = 5_000_000;

/// The best prices of a token, and when they were seen.
#[derive(Debug, Clone, Copy, PartialEq, Eq, Structural)]
pub struct Top {
    pub best_bid: i64,
    pub best_ask: i64,
    pub at: u64,
}

impl Top {
    /// How far the ask stands over the bid.
    pub open spec fn width(self) -> int {
        units::larger(self.best_ask - self.best_bid, 0)
    }

    /// Whether the prices are recent enough to act on.
    pub open spec fn is_fresh(self, now_us: u64) -> bool {
        units::minus_floored(now_us, self.at) < MAX_AGE
    }

    /// The distance between the best prices.
    pub fn spread(&self) -> (r: i128)
        ensures
            r == units::larger(self.best_ask - self.best_bid, 0),
            r == self.width(),
    {
        units::max_of(self.best_ask as i128 - self.best_bid as i128, 0)
    }

    /// Whether the prices are recent enough to act on.
    pub fn fresh(&self, now_us: u64) -> (r: bool)
        ensures
            r == self.is_fresh(now_us),
    {
        less(now_us, self.at) < MAX_AGE
    }
}

/// The best prices of every token.
pub struct BookCache {
    tops: Table<String, Top>,
}

impl View for BookCache {
    type V = Map<Seq<char>, Top>;

    closed spec fn view(&self) -> Map<Seq<char>, Top> {
        self.tops@
    }
}

/// The tops after new best prices; a crossed or empty book is not taken.
pub open spec fn with_top(
    m: Map<Seq<char>, Top>,
    token: Seq<char>,
    best_bid: i64,
    best_ask: i64,
    now_us: u64,
) -> Map<Seq<char>, Top> {
    if best_bid <= 0 || best_ask <= 0 || best_ask <= best_bid {
        m
    } else {
        m.insert(token, Top { best_bid, best_ask, at: now_us })
    }
}

/// The best prices of a token that are young enough to be believed.
pub open spec fn top_of(m: Map<Seq<char>, Top>, token: Seq<char>, now_us: u64) -> Option<Top> {
    if m.contains_key(token) && m[token].is_fresh(now_us) {
        Some(m[token])
    } else {
        None
    }
}

/// Whether a feed that showed its last frame then has shown one since.
pub open spec fn is_alive(last_frame: Option<u64>, within_us: u64, now_us: u64) -> bool {
    last_frame matches Some(t) && units::minus_floored(now_us, t) <= within_us
}

impl BookCache {
    /// No prices yet.
    pub fn new() -> (r: Self)
        ensures
            r@ == Map::<Seq<char>, Top>::empty(),
    {
        BookCache { tops: Table::new() }
    }

    /// Takes new best prices in.
    pub fn put(&mut self, token: &str, best_bid: i64, best_ask: i64, now_us: u64)
        ensures
            final(self)@ == with_top(old(self)@, token@, best_bid, best_ask, now_us),
    {
        if best_bid <= 0 || best_ask <= 0 || best_ask <= best_bid {
            return ;
        }
        self.tops.insert(owned(token), Top { best_bid, best_ask, at: now_us });
    }

    /// The best prices of a token, unless they are too old.
    pub fn top(&self, token: &str, now_us: u64) -> (r: Option<Top>)
        ensures
            r == (if self@.contains_key(token@) && self@[token@].is_fresh(now_us) {
                Some(self@[token@])
            } else {
                None
            }),
            r == top_of(self@, token@, now_us),
    {
        let key = owned(token);
        match self.tops.get(&key) {
            Some(t) => if t.fresh(now_us) {
                Some(*t)
            } else {
                None
            },
            None => None,
        }
    }

    /// How many tokens have prices.
    pub fn len(&self) -> (r: usize)
        ensures
            r == self@.dom().len(),
    {
        self.tops.len()
    }

    /// Whether no token has prices.
    pub fn is_empty(&self) -> (r: bool)
        ensures
            r == (self@.dom().len() == 0),
    {
        self.len() == 0
    }
}

/// The place of a price on a grid of ten-thousandths, rounded half away from zero.
pub open spec fn grid(price: int) -> int {
    if price < 0 {
        -((-price + 50) / 100)
    } else {
        (price + 50) / 100
    }
}

fn price_key(price: i64) -> (r: i64)
    ensures
        r == grid(price as int),
{
    let p: i128 = price as i128;
    if p < 0 {
        (-((-p + 50) / 100)) as i64
    } else {
        ((p + 50) / 100) as i64
    }
}

/// What tells one print from another.
pub struct PrintId {
    pub token: String,
    pub price: i64,
    pub size: i64,
    pub side: u8,
}

impl View for PrintId {
    type V = (Seq<char>, i64, i64, u8);

    open spec fn view(&self) -> (Seq<char>, i64, i64, u8) {
        (self.token@, self.price, self.size, self.side)
    }
}

impl Key for PrintId {
    fn same_key(&self, other: &Self) -> (r: bool) {
        text::same(self.token.as_str(), other.token.as_str()) && self.price == other.price
            && self.size == other.size && self.side == other.side
    }

    fn copy_key(&self) -> (r: Self) {
        PrintId { token: self.token.clone(), price: self.price, size: self.size, side: self.side }
    }
}

/// What was printed as traded, at every price. One trade reaches us over several
/// sockets and counts once.
pub struct TradePrints {
    cum: Table<(String, i64), i128>,
    seen: Table<PrintId, i64>,
}

/// What was printed.
#[verifier::ext_equal]
pub struct PrintsView {
    pub cum: Map<(Seq<char>, i64), i128>,
    pub seen: Map<(Seq<char>, i64, i64, u8), i64>,
}

impl View for TradePrints {
    type V = PrintsView;

    closed spec fn view(&self) -> PrintsView {
        PrintsView { cum: self.cum@, seen: self.seen@ }
    }
}

/// Within how many milliseconds an equal print is the same print.
pub const PRINT_DEDUP_MS: i64 = 750;

/// From how many remembered prints on the older ones are dropped.
pub const SEEN_CAP: usize = 4096;

/// The side of a print by its first letter.
pub open spec fn side_of(side: Seq<char>) -> u8 {
    if side.len() == 0 {
        0
    } else if side[0] == 'b' || side[0] == 'B' {
        1
    } else if side[0] == 's' || side[0] == 'S' {
        2
    } else {
        0
    }
}

impl PrintsView {
    /// What is left where only some tokens are kept.
    pub open spec fn retained(self, keep: Set<Seq<char>>) -> PrintsView {
        PrintsView {
            cum: table::kept(self.cum, |k: (Seq<char>, i64), v: i128| keep.contains(k.0)),
            ..self
        }
    }

    /// What was traded at a price.
    pub open spec fn total(self, token: Seq<char>, price: int) -> int {
        let k = (token, grid(price) as i64);
        if self.cum.contains_key(k) {
            self.cum[k] as int
        } else {
            0
        }
    }

    /// Whether an equal print came within the window. A clock that has gone back does
    /// not make a print an old one.
    pub open spec fn repeats(self, id: (Seq<char>, i64, i64, u8), now_ms: i64) -> bool {
        self.seen.contains_key(id) && 0 <= now_ms - self.seen[id] < PRINT_DEDUP_MS
    }

    /// After a print.
    pub open spec fn printed(
        self,
        token: Seq<char>,
        price: i64,
        size: i64,
        side: Seq<char>,
        now_ms: i64,
    ) -> PrintsView {
        let id = (token, grid(price as int) as i64, grid(size as int) as i64, side_of(side));
        if price <= 0 || size <= 0 || self.repeats(id, now_ms) {
            self
        } else {
            let seen = self.seen.insert(id, now_ms);
            PrintsView {
                seen: if seen.dom().len() > SEEN_CAP {
                    table::kept(
                        seen,
                        |k: (Seq<char>, i64, i64, u8), t: i64| t >= now_ms - PRINT_DEDUP_MS,
                    )
                } else {
                    seen
                },
                cum: self.cum.insert(
                    (token, grid(price as int) as i64),
                    units::clip(self.total(token, price as int) + size) as i128,
                ),
            }
        }
    }
}

fn side_key(side: &str) -> (r: u8)
    ensures
        r == side_of(side@),
{
    let v = text::chars_of(side);
    if v.len() == 0 {
        0
    } else if v[0] == 'b' || v[0] == 'B' {
        1
    } else if v[0] == 's' || v[0] == 'S' {
        2
    } else {
        0
    }
}

impl TradePrints {
    /// Nothing printed yet.
    pub fn new() -> (r: Self)
        ensures
            r@ == (PrintsView { cum: Map::empty(), seen: Map::empty() }),
    {
        let r = TradePrints { cum: Table::new(), seen: Table::new() };
        assert(r@ =~= PrintsView { cum: Map::empty(), seen: Map::empty() });
        r
    }

    /// Takes a print in.
    pub fn record_at(&mut self, token: &str, price: i64, size: i64, side: &str, now_ms: i64)
        ensures
            final(self)@ == old(self)@.printed(token@, price, size, side@, now_ms),
    {
        if price <= 0 || size <= 0 {
            return ;
        }
        let ghost before = self@;
        let pk = price_key(price);
        let id = PrintId { token: owned(token), price: pk, size: price_key(size), side: side_key(side) };
        if let Some(prev) = self.seen.get(&id) {
            let delta: i128 = now_ms as i128 - *prev as i128;
            if delta >= 0 && delta < PRINT_DEDUP_MS as i128 {
                return ;
            }
        }
        self.seen.insert(id, now_ms);
        if self.seen.len() > SEEN_CAP {
            let cutoff: i128 = now_ms as i128 - PRINT_DEDUP_MS as i128;
            let ghost wanted = |k: (Seq<char>, i64, i64, u8), t: i64| t >= now_ms - PRINT_DEDUP_MS;
            let f = |k: &PrintId, t: &i64| -> (b: bool)
                ensures
                    b == (*t >= cutoff),
            {
                *t as i128 >= cutoff
            };
            self.seen.retain(f, Ghost(wanted));
        }
        let key = (owned(token), pk);
        let had: i128 = match self.cum.get(&key) {
            Some(v) => *v,
            None => 0,
        };
        self.cum.insert(key, sum_of(had, size as i128));
        assert(self@ =~= before.printed(token@, price, size, side@, now_ms));
    }

    /// Takes a print in of which the side is not known.
    pub fn record(&mut self, token: &str, price: i64, size: i64, now_ms: i64)
        ensures
            final(self)@ == old(self)@.printed(token@, price, size, Seq::empty(), now_ms),
    {
        proof {
            reveal_strlit("");
            assert(""@ =~= Seq::<char>::empty());
        }
        self.record_at(token, price, size, "", now_ms);
    }

    /// Forgets what was printed of every other token.
    pub fn retain_tokens(&mut self, keep: &Table<String, ()>)
        ensures
            final(self)@ == (PrintsView {
                cum: table::kept(
                    old(self)@.cum,
                    |k: (Seq<char>, i64), v: i128| keep@.contains_key(k.0),
                ),
                ..old(self)@
            }),
            final(self)@ == old(self)@.retained(keep@.dom()),
    {
        let ghost before = self@;
        let ghost wanted = |k: (Seq<char>, i64), v: i128| keep@.contains_key(k.0);
        let f = |k: &(String, i64), v: &i128| -> (b: bool)
            ensures
                b == keep@.contains_key(k.0@),
        {
            keep.has(&k.0)
        };
        self.cum.retain(f, Ghost(wanted));
        assert(self@ =~= PrintsView { cum: table::kept(before.cum, wanted), ..before });
    }

    /// What was traded at a price.
    pub fn cumulative_at(&self, token: &str, price: i64) -> (r: i128)
        ensures
            r == self@.total(token@, price as int),
    {
        let key = (owned(token), price_key(price));
        match self.cum.get(&key) {
            Some(v) => *v,
            None => 0,
        }
    }

    /// How many prints are remembered to tell repeats.
    pub fn seen_len(&self) -> (r: usize)
        ensures
            r == self@.seen.dom().len(),
    {
        self.seen.len()
    }
}

/// What was traded at any price never goes down by a print.
pub proof fn totals_only_grow(
    p: PrintsView,
    token: Seq<char>,
    price: i64,
    size: i64,
    side: Seq<char>,
    now_ms: i64,
    other: Seq<char>,
    at: int,
)
    requires
        i64::MIN <= at <= i64::MAX,
        p.total(other, at) <= units::AMOUNT_CAP,
    ensures
        p.printed(token, price, size, side, now_ms).total(other, at) >= p.total(other, at),
{
}

/// An equal print within the window changes nothing: one trade that comes over
/// several sockets counts once.
pub proof fn repeat_counts_once(
    p: PrintsView,
    token: Seq<char>,
    price: i64,
    size: i64,
    side: Seq<char>,
    now_ms: i64,
    later_ms: i64,
)
    requires
        price > 0,
        size > 0,
        now_ms <= later_ms < now_ms + PRINT_DEDUP_MS,
        !p.repeats(
            (token, grid(price as int) as i64, grid(size as int) as i64, side_of(side)),
            now_ms,
        ),
    ensures
        p.printed(token, price, size, side, now_ms).printed(token, price, size, side, later_ms)
            == p.printed(token, price, size, side, now_ms),
{
}

/// The sizes of the levels of every token, and when the feed last spoke.
pub struct Levels {
    inner: Table<String, Table<i64, (i64, u64)>>,
    last_frame: Option<u64>,
}

/// The sizes of the levels.
#[verifier::ext_equal]
pub struct LevelsView {
    pub levels: Map<Seq<char>, Map<i64, (i64, u64)>>,
    pub last_frame: Option<u64>,
}

/// The contents of a table of ladders.
pub open spec fn ladders(m: Map<Seq<char>, Table<i64, (i64, u64)>>) -> Map<
    Seq<char>,
    Map<i64, (i64, u64)>,
> {
    m.map_values(|t: Table<i64, (i64, u64)>| t@)
}

impl View for Levels {
    type V = LevelsView;

    closed spec fn view(&self) -> LevelsView {
        LevelsView { levels: ladders(self.inner@), last_frame: self.last_frame }
    }
}

/// How long the size of a level is good for, in microseconds.
pub const LEVEL_MAX_AGE: u64 = 120_000_000;

/// How many levels are kept of one token.
pub const LEVELS_PER_TOKEN: usize = 64;

/// Whether a level is young enough to be believed.
pub open spec fn is_recent(level: (i64, u64), now_us: u64) -> bool {
    units::minus_floored(now_us, level.1) <= LEVEL_MAX_AGE
}

/// The levels of one token that are young enough to be believed.
pub open spec fn recent(m: Map<i64, (i64, u64)>, now_us: u64) -> Map<i64, (i64, u64)> {
    table::kept(m, |k: i64, v: (i64, u64)| is_recent(v, now_us))
}

/// Whether `r` is `m` cut down to `cap` levels, the ones seen last.
pub open spec fn cut_to(m: Map<i64, (i64, u64)>, r: Map<i64, (i64, u64)>, cap: int) -> bool {
    &&& r.submap_of(m)
    &&& r.dom().finite()
    &&& r.dom().len() == units::smaller(m.dom().len() as int, cap)
    &&& forall|a: i64, b: i64|
        m.contains_key(a) && !r.contains_key(a) && r.contains_key(b) ==> (#[trigger] m[a]).1 <= (
        #[trigger] m[b]).1
}

/// Whether `r` is a ladder after a level was put on it: beyond the cap the levels that
/// are too old go first, then the ones seen longest ago.
pub open spec fn ladder_after(
    m: Map<i64, (i64, u64)>,
    r: Map<i64, (i64, u64)>,
    key: i64,
    size: i64,
    now_us: u64,
) -> bool {
    let with = m.insert(key, (size, now_us));
    if with.dom().len() <= LEVELS_PER_TOKEN {
        r == with
    } else {
        cut_to(recent(with, now_us), r, LEVELS_PER_TOKEN as int)
    }
}

/// Whether a price and a size can be those of a level.
pub open spec fn is_level(price: i64, size: i64) -> bool {
    price > 0 && size >= 0
}

impl LevelsView {
    /// What is left where only some tokens are kept.
    pub open spec fn retained(self, keep: Set<Seq<char>>) -> LevelsView {
        LevelsView {
            levels: table::kept(
                self.levels,
                |k: Seq<char>, v: Map<i64, (i64, u64)>| keep.contains(k),
            ),
            ..self
        }
    }

    /// The levels of a token.
    pub open spec fn ladder(self, token: Seq<char>) -> Map<i64, (i64, u64)> {
        if self.levels.contains_key(token) {
            self.levels[token]
        } else {
            Map::empty()
        }
    }

    /// The size at a price, where it is known and recent.
    pub open spec fn size(self, token: Seq<char>, price: int, now_us: u64) -> Option<i64> {
        let k = grid(price) as i64;
        if self.ladder(token).contains_key(k) && is_recent(self.ladder(token)[k], now_us) {
            Some(self.ladder(token)[k].0)
        } else {
            None
        }
    }

    /// Whether `after` are these levels with one more of a token.
    pub open spec fn put_leads_to(
        self,
        after: LevelsView,
        token: Seq<char>,
        price: i64,
        size: i64,
        now_us: u64,
    ) -> bool {
        if !is_level(price, size) {
            after == self
        } else {
            &&& after.last_frame == Some(now_us)
            &&& after.levels.contains_key(token)
            &&& ladder_after(
                self.ladder(token),
                after.levels[token],
                grid(price as int) as i64,
                size,
                now_us,
            )
            &&& after.levels == self.levels.insert(token, after.levels[token])
        }
    }

    /// The levels after a full picture of a token: what it leaves out is empty.
    pub open spec fn pictured(
        self,
        token: Seq<char>,
        picture: Seq<(i64, i64)>,
        now_us: u64,
    ) -> LevelsView {
        LevelsView {
            levels: self.levels.insert(
                token,
                with_empties(picture_ladder(picture, now_us), self.ladder(token), now_us),
            ),
            last_frame: Some(now_us),
        }
    }
}

/// The ladder that a list of prices and sizes makes; a later entry replaces an
/// earlier one of the same price.
pub open spec fn picture_ladder(picture: Seq<(i64, i64)>, now_us: u64) -> Map<i64, (i64, u64)>
    decreases picture.len(),
{
    if picture.len() == 0 {
        Map::empty()
    } else {
        let before = picture_ladder(picture.drop_last(), now_us);
        let (price, size) = picture.last();
        if is_level(price, size) {
            before.insert(grid(price as int) as i64, (size, now_us))
        } else {
            before
        }
    }
}

/// `m`, with an empty level wherever only `had` has one.
pub open spec fn with_empties(
    m: Map<i64, (i64, u64)>,
    had: Map<i64, (i64, u64)>,
    now_us: u64,
) -> Map<i64, (i64, u64)> {
    Map::new(
        |k: i64| m.contains_key(k) || had.contains_key(k),
        |k: i64|
            if m.contains_key(k) {
                m[k]
            } else {
                (0i64, now_us)
            },
    )
}

fn oldest(t: &Table<i64, (i64, u64)>) -> (r: usize)
    requires
        t.keys().len() > 0,
    ensures
        r < t.keys().len(),
        forall|j: int| 0 <= j < t.keys().len() ==> t.vals()[r as int].1 <= (#[trigger] t.vals()[j]).1,
{
    let n = t.len();
    let mut best: usize = 0;
    for i in 1..n
        invariant
            n == t.keys().len(),
            n == t.vals().len(),
            best < n,
            best < i,
            forall|j: int| 0 <= j < i ==> t.vals()[best as int].1 <= (#[trigger] t.vals()[j]).1,
    {
        if t.val_at(i).1 < t.val_at(best).1 {
            best = i;
        }
    }
    best
}

fn trim_ladder(t: &mut Table<i64, (i64, u64)>, now_us: u64)
    ensures
        cut_to(recent(old(t)@, now_us), final(t)@, LEVELS_PER_TOKEN as int),
{
    let ghost start = t@;
    let ghost wanted = |k: i64, v: (i64, u64)| is_recent(v, now_us);
    let f = |k: &i64, v: &(i64, u64)| -> (b: bool)
        ensures
            b == is_recent(*v, now_us),
    {
        less(now_us, v.1) <= LEVEL_MAX_AGE
    };
    t.retain(f, Ghost(wanted));
    let ghost young = t@;
    assert(young == recent(start, now_us));
    let mut n = t.len();
    while n > LEVELS_PER_TOKEN
        invariant
            n == t.keys().len(),
            t.aligned(),
            t@.submap_of(young),
            young.dom().finite(),
            n <= young.dom().len(),
            young.dom().len() > LEVELS_PER_TOKEN ==> n >= LEVELS_PER_TOKEN,
            young.dom().len() <= LEVELS_PER_TOKEN ==> n == young.dom().len(),
            forall|a: i64, b: i64|
                young.contains_key(a) && !t@.contains_key(a) && t@.contains_key(b) ==> (
                #[trigger] young[a]).1 <= (#[trigger] young[b]).1,
        decreases n,
    {
        let i = oldest(t);
        let ghost before = *t;
        let ghost gone = t.keys()[i as int];
        let _ = t.remove_at(i);
        proof {
            assert(before@.contains_key(gone));
            assert forall|a: i64, b: i64|
                young.contains_key(a) && !t@.contains_key(a) && t@.contains_key(b) implies (
            #[trigger] young[a]).1 <= (#[trigger] young[b]).1 by {
                assert(before@.contains_key(b));
                let j = before.keys().index_of(b);
                assert(before.keys().contains(b));
                assert(before.keys()[j] == b);
                assert(before.vals()[j] == before@[b]);
                assert(before@.dom().contains(b) && young.dom().contains(b));
                assert(before@.dom().contains(gone) && young.dom().contains(gone));
                assert(young[b] == before@[b]);
                if a == gone {
                    assert(before.vals()[i as int] == before@[gone]);
                    assert(young[gone] == before@[gone]);
                } else {
                    assert(!before@.contains_key(a));
                }
            }
        }
        n = t.len();
    }
}

impl Levels {
    /// No level known yet.
    pub fn new() -> (r: Self)
        ensures
            r@ == (LevelsView { levels: Map::empty(), last_frame: None }),
    {
        let r = Levels { inner: Table::new(), last_frame: None };
        assert(r@ =~= LevelsView { levels: Map::empty(), last_frame: None });
        r
    }

    /// Takes the size of a level in.
    pub fn put(&mut self, token: &str, price: i64, size: i64, now_us: u64)
        ensures
            old(self)@.put_leads_to(final(self)@, token@, price, size, now_us),
    {
        if !(price > 0) || size < 0 {
            return ;
        }
        let ghost before = self@;
        let key = owned(token);
        self.last_frame = Some(now_us);
        let mut ladder: Table<i64, (i64, u64)> = match self.inner.remove(&key) {
            Some(t) => t,
            None => Table::new(),
        };
        assert(ladder@ == before.ladder(token@));
        ladder.insert(price_key(price), (size, now_us));
        let n = ladder.len();
        if n > LEVELS_PER_TOKEN {
            trim_ladder(&mut ladder, now_us);
        }
        let ghost l = ladder@;
        self.inner.insert(key, ladder);
        assert(self@.levels =~= before.levels.insert(token@, l));
    }

    /// The size at a price, where it is known and recent: a level that was never seen
    /// is not an empty one.
    pub fn size_at(&self, token: &str, price: i64, now_us: u64) -> (r: Option<i64>)
        ensures
            r == self@.size(token@, price as int, now_us),
    {
        let key = owned(token);
        match self.inner.get(&key) {
            None => None,
            Some(t) => match t.get(&price_key(price)) {
                None => None,
                Some(v) => if less(now_us, v.1) > LEVEL_MAX_AGE {
                    None
                } else {
                    Some(v.0)
                },
            },
        }
    }

    /// Takes a full picture of a token in.
    pub fn put_snapshot(&mut self, token: &str, levels: &[(i64, i64)], now_us: u64)
        ensures
            final(self)@ == old(self)@.pictured(token@, levels@, now_us),
    {
        let ghost before = self@;
        self.last_frame = Some(now_us);
        let mut m: Table<i64, (i64, u64)> = Table::new();
        for i in 0..levels.len()
            invariant
                m@ == picture_ladder(levels@.take(i as int), now_us),
        {
            assert(levels@.take(i + 1).drop_last() =~= levels@.take(i as int));
            let (px, sz) = levels[i];
            if px > 0 && sz >= 0 {
                m.insert(price_key(px), (sz, now_us));
            }
        }
        assert(levels@.take(levels@.len() as int) =~= levels@);
        let ghost pic = m@;
        let key = owned(token);
        let had: Table<i64, (i64, u64)> = match self.inner.remove(&key) {
            Some(t) => t,
            None => Table::new(),
        };
        assert(had@ == before.ladder(token@));
        let n = had.len();
        let ghost keys = had.keys();
        for i in 0..n
            invariant
                n == keys.len(),
                keys == had.keys(),
                had.aligned(),
                forall|k: i64| #[trigger]
                    m@.contains_key(k) == (pic.contains_key(k) || keys.take(i as int).contains(k)),
                forall|k: i64| #[trigger]
                    m@.contains_key(k) ==> m@[k] == (if pic.contains_key(k) {
                        pic[k]
                    } else {
                        (0i64, now_us)
                    }),
        {
            let k = *had.key_at(i);
            assert(keys.take(i + 1) =~= keys.take(i as int).push(keys[i as int]));
            assert forall|x: i64|
                keys.take(i + 1).contains(x) == (keys.take(i as int).contains(x) || x
                    == keys[i as int]) by {
                if keys.take(i as int).contains(x) {
                    let j = keys.take(i as int).index_of(x);
                    assert(keys.take(i + 1)[j] == x);
                }
                if x == keys[i as int] {
                    assert(keys.take(i + 1)[i as int] == x);
                }
            }
            if !m.has(&k) {
                m.insert(k, (0, now_us));
            }
        }
        assert(keys.take(keys.len() as int) =~= keys);
        assert(m@ =~= with_empties(pic, had@, now_us)) by {
            assert forall|k: i64| keys.contains(k) == had@.contains_key(k) by {
                if keys.contains(k) {
                    let j = keys.index_of(k);
                    assert(had@.contains_key(keys[j]));
                }
            }
        }
        let ghost l = m@;
        self.inner.insert(key, m);
        assert(self@.levels =~= before.levels.insert(token@, l));
        assert(self@ =~= before.pictured(token@, levels@, now_us));
    }

    /// Whether the feed has spoken within this long.
    pub fn feed_alive(&self, within_us: u64, now_us: u64) -> (r: bool)
        ensures
            r == (self@.last_frame matches Some(t) && units::minus_floored(now_us, t) <= within_us),
            r == is_alive(self@.last_frame, within_us, now_us),
    {
        match self.last_frame {
            Some(t) => less(now_us, t) <= within_us,
            None => false,
        }
    }

    /// How many tokens have levels.
    pub fn len(&self) -> (r: usize)
        ensures
            r == self@.levels.dom().len(),
    {
        assert(self@.levels.dom() =~= self.inner@.dom());
        self.inner.len()
    }

    /// Whether no token has levels.
    pub fn is_empty(&self) -> (r: bool)
        ensures
            r == (self@.levels.dom().len() == 0),
    {
        self.len() == 0
    }

    /// Forgets the levels of every other token.
    pub fn retain_tokens(&mut self, keep: &Table<String, ()>)
        ensures
            final(self)@ == (LevelsView {
                levels: table::kept(
                    old(self)@.levels,
                    |k: Seq<char>, v: Map<i64, (i64, u64)>| keep@.contains_key(k),
                ),
                ..old(self)@
            }),
            final(self)@ == old(self)@.retained(keep@.dom()),
    {
        let ghost before = self@;
        let ghost wanted = |k: Seq<char>, v: Table<i64, (i64, u64)>| keep@.contains_key(k);
        let f = |k: &String, v: &Table<i64, (i64, u64)>| -> (b: bool)
            ensures
                b == keep@.contains_key(k@),
        {
            keep.has(k)
        };
        self.inner.retain(f, Ghost(wanted));
        assert(self@.levels =~= table::kept(
            before.levels,
            |k: Seq<char>, v: Map<i64, (i64, u64)>| keep@.contains_key(k),
        ));
    }
}

/// A full picture that leaves a known level out says that the level is empty.
pub proof fn omitted_level_is_empty(
    l: LevelsView,
    token: Seq<char>,
    picture: Seq<(i64, i64)>,
    price: int,
    now_us: u64,
)
    requires
        l.ladder(token).contains_key(grid(price) as i64),
        !picture_ladder(picture, now_us).contains_key(grid(price) as i64),
    ensures
        l.pictured(token, picture, now_us).size(token, price, now_us) == Some(0i64),
{
}

/// How many whole ticks lie between the leader's price and the best price that still
/// joins the book on the other side.
pub open spec fn room(top: Top, his_price: i64, side: u8, tick: i64) -> int {
    if tick <= 0 {
        0
    } else if side == 0 {
        units::clip64((top.best_ask - tick - his_price) / tick as int)
    } else {
        units::clip64((his_price - (top.best_bid + tick)) / tick as int)
    }
}

fn floor_ticks(a: i128, tick: i64) -> (r: i64)
    requires
        tick > 0,
        -0x4_0000_0000_0000_0000 <= a <= 0x4_0000_0000_0000_0000,
    ensures
        r == units::clip64(a as int / tick as int),
{
    let t: i128 = tick as i128;
    let q: i128 = if a >= 0 {
        a / t
    } else {
        let up: i128 = (-a + t - 1) / t;
        proof {
            ceil_is_floor(a as int, t as int);
        }
        -up
    };
    assert(-0x4_0000_0000_0000_0000 <= a as int / tick as int <= 0x4_0000_0000_0000_0000)
        by (nonlinear_arith)
        requires
            tick > 0,
            -0x4_0000_0000_0000_0000 <= a <= 0x4_0000_0000_0000_0000,
    ;
    if q > i64::MAX as i128 {
        i64::MAX
    } else if q < i64::MIN as i128 {
        i64::MIN
    } else {
        q as i64
    }
}

proof fn ceil_is_floor(a: int, t: int)
    requires
        a < 0,
        t > 0,
    ensures
        -((-a + t - 1) / t) == a / t,
        (-a + t - 1) / t <= -a + t,
        (-a + t - 1) / t >= 0,
{
    let q = (-a + t - 1) / t;
    let m = (-a + t - 1) % t;
    vstd::arithmetic::div_mod::lemma_fundamental_div_mod(-a + t - 1, t);
    assert(-a + t - 1 == t * q + m && 0 <= m < t);
    assert(a == t * (-q) + (t - 1 - m)) by (nonlinear_arith)
        requires
            -a + t - 1 == t * q + m,
    ;
    vstd::arithmetic::div_mod::lemma_fundamental_div_mod_converse(a, t, -q, t - 1 - m);
    assert(q >= 0 && q <= -a + t) by (nonlinear_arith)
        requires
            -a + t - 1 == t * q + m,
            0 <= m < t,
            a < 0,
            t > 0,
    ;
}

/// How many ticks of room there are; see [`room`].
pub fn room_ticks(top: &Top, his_price: i64, side: u8, tick: i64) -> (r: i64)
    ensures
        r == room(*top, his_price, side, tick),
{
    if tick <= 0 {
        return 0;
    }
    if side == 0 {
        floor_ticks(top.best_ask as i128 - tick as i128 - his_price as i128, tick)
    } else {
        floor_ticks(his_price as i128 - (top.best_bid as i128 + tick as i128), tick)
    }
}

/// The tick at a price: a tenth of a cent near either end, a cent between.
pub open spec fn tick_at(price: int) -> int {
    if price > 960_000 || price < 40_000 {
        1_000
    } else {
        10_000
    }
}

/// The tick at a price; see [`tick_at`].
pub fn tick_size(price: i64) -> (r: i64)
    ensures
        r == tick_at(price as int),
{
    if price > 960_000 || price < 40_000 {
        1_000
    } else {
        10_000
    }
}

/// How many tokens are watched at a time.
pub const WATCH_CAP: usize = 200;

/// How many tokens are watched at most, pinned ones and all.
pub const WATCH_HARD_MAX: usize = 400;

/// `w` without the first `k` of its unpinned tokens.
pub open spec fn without_unpinned(
    w: Seq<Seq<char>>,
    pinned: Set<Seq<char>>,
    k: int,
) -> Seq<Seq<char>>
    decreases w.len(),
{
    if k <= 0 || w.len() == 0 {
        w
    } else if pinned.contains(w[0]) {
        seq![w[0]] + without_unpinned(w.skip(1), pinned, k)
    } else {
        without_unpinned(w.skip(1), pinned, k - 1)
    }
}

proof fn skip_pinned(w: Seq<Seq<char>>, pinned: Set<Seq<char>>, i: int, k: int)
    requires
        0 <= i <= w.len(),
        forall|j: int| 0 <= j < i ==> pinned.contains(#[trigger] w[j]),
    ensures
        without_unpinned(w, pinned, k) == w.take(i) + without_unpinned(w.skip(i), pinned, k),
    decreases i,
{
    if i == 0 {
        assert(w.skip(0) =~= w);
        assert(w.take(0) + without_unpinned(w, pinned, k) =~= without_unpinned(w, pinned, k));
    } else if k <= 0 {
        assert(w.take(i) + w.skip(i) =~= w);
    } else {
        assert(pinned.contains(w[0]));
        assert forall|j: int| 0 <= j < i - 1 implies pinned.contains(#[trigger] w.skip(1)[j]) by {
            assert(w.skip(1)[j] == w[j + 1]);
        }
        skip_pinned(w.skip(1), pinned, i - 1, k);
        assert(w.skip(1).skip(i - 1) =~= w.skip(i));
        assert(seq![w[0]] + (w.skip(1).take(i - 1) + without_unpinned(w.skip(i), pinned, k))
            =~= w.take(i) + without_unpinned(w.skip(i), pinned, k));
    }
}

/// Drops the oldest tokens that are not pinned, until no more than `cap` are left or
/// only pinned ones are.
pub fn evict_watch_over_cap(w: &mut Vec<String>, cap: usize, pinned: &Table<String, ()>)
    ensures
        text::texts(final(w)@) == without_unpinned(
            text::texts(old(w)@),
            pinned@.dom(),
            old(w)@.len() - cap,
        ),
{
    let ghost start = text::texts(w@);
    let ghost target = without_unpinned(start, pinned@.dom(), w@.len() - cap);
    let mut i: usize = 0;
    while w.len() > cap && i < w.len()
        invariant
            i <= w@.len(),
            forall|j: int| 0 <= j < i ==> pinned@.dom().contains(#[trigger] text::texts(w@)[j]),
            target == without_unpinned(text::texts(w@), pinned@.dom(), w@.len() - cap),
        decreases w@.len() - i,
    {
        let ghost now = text::texts(w@);
        assert(now[i as int] == w@[i as int]@);
        if pinned.has(&w[i]) {
            i = i + 1;
        } else {
            let k: Ghost<int> = Ghost(w@.len() - cap);
            let _ = w.remove(i);
            proof {
                let less = text::texts(w@);
                assert(less =~= now.remove(i as int));
                skip_pinned(now, pinned@.dom(), i as int, k@);
                skip_pinned(less, pinned@.dom(), i as int, k@ - 1);
                assert(now.skip(i as int).skip(1) =~= less.skip(i as int));
                assert(now.take(i as int) =~= less.take(i as int));
                assert(now.skip(i as int)[0] == now[i as int]);
            }
        }
    }
    proof {
        if w@.len() > cap {
            skip_pinned(text::texts(w@), pinned@.dom(), w@.len() as int, w@.len() - cap);
            let all = text::texts(w@);
            assert(all.skip(all.len() as int) =~= Seq::<Seq<char>>::empty());
            assert(all.take(all.len() as int) + Seq::<Seq<char>>::empty() =~= all);
        }
    }
}

/// A pinned token is never dropped from the watch.
pub proof fn pinned_tokens_stay(w: Seq<Seq<char>>, pinned: Set<Seq<char>>, k: int, t: Seq<char>)
    requires
        w.contains(t),
        pinned.contains(t),
    ensures
        without_unpinned(w, pinned, k).contains(t),
    decreases w.len(),
{
    if k > 0 && w.len() > 0 {
        let i = w.index_of(t);
        let rest = w.skip(1);
        if w[0] == t {
            let r = seq![w[0]] + without_unpinned(rest, pinned, k);
            assert(r[0] == t);
        } else {
            assert(rest[i - 1] == t);
            let k2 = if pinned.contains(w[0]) {
                k
            } else {
                k - 1
            };
            pinned_tokens_stay(rest, pinned, k2, t);
            let inner = without_unpinned(rest, pinned, k2);
            if pinned.contains(w[0]) {
                let j = inner.index_of(t);
                let r = seq![w[0]] + inner;
                assert(r[j + 1] == t);
            }
        }
    }
}

/// The tokens in order, each of them once.
pub fn canonical(tokens: &[String]) -> (r: Vec<String>)
    ensures
        sorting::in_order(text::texts(r@)),
        sorting::same_members(text::texts(r@), text::texts(tokens@)),
{
    sorting::distinct_in_order(tokens)
}

/// The canonical form does not depend on order or repetition: lists of the same
/// tokens have the same one, and lists of different tokens have different ones.
pub proof fn canonical_is_canonical(
    a: Seq<Seq<char>>,
    b: Seq<Seq<char>>,
    ca: Seq<Seq<char>>,
    cb: Seq<Seq<char>>,
)
    requires
        sorting::in_order(ca),
        sorting::same_members(ca, a),
        sorting::in_order(cb),
        sorting::same_members(cb, b),
    ensures
        sorting::same_members(a, b) <==> ca == cb,
{
    if sorting::same_members(a, b) {
        assert forall|x: Seq<char>|
            #![trigger ca.contains(x)]
            #![trigger cb.contains(x)]
            ca.contains(x) == cb.contains(x) by {
            assert(a.contains(x) == b.contains(x));
        }
        sorting::order_is_unique(ca, cb);
    }
    if ca == cb {
        assert forall|x: Seq<char>|
            #![trigger a.contains(x)]
            #![trigger b.contains(x)]
            a.contains(x) == b.contains(x) by {
            assert(ca.contains(x) == a.contains(x));
            assert(cb.contains(x) == b.contains(x));
        }
    }
}

/// However many levels are put, a token never has more of them than are kept.
pub proof fn ladder_is_bounded(
    l: LevelsView,
    after: LevelsView,
    token: Seq<char>,
    price: i64,
    size: i64,
    now_us: u64,
)
    requires
        l.put_leads_to(after, token, price, size, now_us),
        is_level(price, size),
    ensures
        after.ladder(token).dom().len() <= LEVELS_PER_TOKEN,
{
}

/// A print that counts leaves no more prints in memory than there is room for, or none
/// but those that could still repeat.
pub proof fn memory_is_pruned(
    p: PrintsView,
    token: Seq<char>,
    price: i64,
    size: i64,
    side: Seq<char>,
    now_ms: i64,
    id: (Seq<char>, i64, i64, u8),
)
    requires
        p.printed(token, price, size, side, now_ms) != p,
        p.printed(token, price, size, side, now_ms).seen.contains_key(id),
    ensures
        p.printed(token, price, size, side, now_ms).seen.dom().len() <= SEEN_CAP || p.printed(
            token,
            price,
            size,
            side,
            now_ms,
        ).seen[id] >= now_ms - PRINT_DEDUP_MS,
{
}

} // verus!
