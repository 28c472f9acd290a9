//! Several feeds tell of the same fills: the first to tell of one wins.

use vstd::prelude::*;
use crate::json;
use crate::json::{count_json, plain_json, put, Json, JsonView};
use crate::sorting;
use crate::table;
use crate::table::{Key, Table};
use crate::text;
use crate::units;
use crate::units::{less, plus};
use crate::words;

verus! {

/// For how many nanoseconds a fill is remembered.
pub const TTL: u64 = 900_000_000_000;

/// How many fills are remembered before old ones are looked for.
pub const SEEN_ROOM: usize = 512;

/// How many counts are kept before all of them are dropped.
pub const COUNT_ROOM: usize = 4_000;

/// How many margins are kept, and how many of them go when there are more.
pub const MARGIN_ROOM: usize = 500;

/// How many margins go when there are too many.
pub const MARGIN_DROP: usize = 250;

/// What tells one fill from another, whatever feed tells of it.
#[derive(Debug, PartialEq, Eq, Hash)]
pub struct FillKey {
    pub tx: String,
    pub token: String,
    pub side: u8,
    pub size_micro: u64,
}

/// What the key of a fill says.
#[verifier::ext_equal]
pub struct FillView {
    pub tx: Seq<char>,
    pub token: Seq<char>,
    pub side: u8,
    pub size_micro: u64,
}

impl View for FillKey {
    type V = FillView;

    open spec fn view(&self) -> FillView {
        FillView {
            tx: self.tx@,
            token: self.token@,
            side: self.side,
            size_micro: self.size_micro,
        }
    }
}

impl FillKey {
    fn same_fill(&self, other: &FillKey) -> (r: bool)
        ensures
            r == (self@ == other@),
    {
        text::same(self.tx.as_str(), other.tx.as_str()) && text::same(
            self.token.as_str(),
            other.token.as_str(),
        ) && self.side == other.side && self.size_micro == other.size_micro
    }

    /// A copy of the key.
    pub fn copy(&self) -> (r: FillKey)
        ensures
            r@ == self@,
    {
        FillKey {
            tx: self.tx.clone(),
            token: self.token.clone(),
            side: self.side,
            size_micro: self.size_micro,
        }
    }
}

impl Key for (FillKey, u64) {
    fn same_key(&self, other: &Self) -> (r: bool) {
        self.0.same_fill(&other.0) && self.1 == other.1
    }

    fn copy_key(&self) -> (r: Self) {
        (self.0.copy(), self.1)
    }
}

impl Key for (String, FillKey) {
    fn same_key(&self, other: &Self) -> (r: bool) {
        text::same(self.0.as_str(), other.0.as_str()) && self.1.same_fill(&other.1)
    }

    fn copy_key(&self) -> (r: Self) {
        (self.0.clone(), self.1.copy())
    }
}

impl Key for (String, String, u64) {
    fn same_key(&self, other: &Self) -> (r: bool) {
        text::same(self.0.as_str(), other.0.as_str()) && text::same(
            self.1.as_str(),
            other.1.as_str(),
        ) && self.2 == other.2
    }

    fn copy_key(&self) -> (r: Self) {
        (self.0.clone(), self.1.clone(), self.2)
    }
}

/// Which fills were told of, how often and by whom.
pub struct RaceBook {
    seen: Table<(FillKey, u64), u64>,
    per_source: Table<(String, FillKey), u64>,
    delivered: Table<(String, String, u64), u64>,
    wins: Table<String, u64>,
    confirms: Table<String, u64>,
    redeliveries: Table<String, u64>,
    margins: Vec<(String, u64)>,
}

/// What a book says: when the nth of equal fills was first seen, how many equal fills
/// each feed told of, which log entries it delivered, and how the feeds did.
#[verifier::ext_equal]
pub struct RaceView {
    pub seen: Map<(FillView, u64), u64>,
    pub per_source: Map<(Seq<char>, FillView), u64>,
    pub delivered: Map<(Seq<char>, Seq<char>, u64), u64>,
    pub wins: Map<Seq<char>, u64>,
    pub confirms: Map<Seq<char>, u64>,
    pub redeliveries: Map<Seq<char>, u64>,
    pub margins: Seq<(Seq<char>, u64)>,
}

/// What these margins say.
pub open spec fn margin_views(v: Seq<(String, u64)>) -> Seq<(Seq<char>, u64)> {
    v.map_values(|m: (String, u64)| (m.0@, m.1))
}

impl View for RaceBook {
    type V = RaceView;

    closed spec fn view(&self) -> RaceView {
        RaceView {
            seen: self.seen@,
            per_source: self.per_source@,
            delivered: self.delivered@,
            wins: self.wins@,
            confirms: self.confirms@,
            redeliveries: self.redeliveries@,
            margins: margin_views(self.margins@),
        }
    }
}

/// Whether something of `t` is still remembered at `now`.
pub open spec fn is_fresh(now: u64, t: u64) -> bool {
    units::minus_floored(now, t) < TTL
}

/// The count under a key, zero where there is none.
pub open spec fn tally<A>(m: Map<A, u64>, k: A) -> u64 {
    if m.contains_key(k) {
        m[k]
    } else {
        0
    }
}

/// One more under a key.
pub open spec fn bumped<A>(m: Map<A, u64>, k: A) -> Map<A, u64> {
    m.insert(k, units::plus_capped(tally(m, k), 1))
}

/// The margins with one more; the oldest go when there are too many.
pub open spec fn with_margin(m: Seq<(Seq<char>, u64)>, x: (Seq<char>, u64)) -> Seq<
    (Seq<char>, u64),
> {
    let n = m.push(x);
    if n.len() > MARGIN_ROOM {
        n.skip(MARGIN_DROP as int)
    } else {
        n
    }
}

impl RaceView {
    /// What is still remembered at `now`.
    pub open spec fn evicted(self, now: u64) -> RaceView {
        let delivered = if self.delivered.dom().len() > SEEN_ROOM {
            table::kept(self.delivered, |k: (Seq<char>, Seq<char>, u64), t: u64| is_fresh(now, t))
        } else {
            self.delivered
        };
        if self.seen.dom().len() < SEEN_ROOM {
            RaceView { delivered, ..self }
        } else {
            let seen = table::kept(self.seen, |k: (FillView, u64), t: u64| is_fresh(now, t));
            RaceView {
                delivered,
                seen,
                per_source: if seen.dom().len() != self.seen.dom().len()
                    && self.per_source.dom().len() > COUNT_ROOM {
                    Map::empty()
                } else {
                    self.per_source
                },
                ..self
            }
        }
    }

    /// A feed tells of a fill, for the first time of this log entry.
    pub open spec fn told(self, source: Seq<char>, key: FillView, now: u64) -> (RaceView, bool) {
        let nth = tally(self.per_source, (source, key));
        let a = RaceView { per_source: bumped(self.per_source, (source, key)), ..self };
        if self.seen.contains_key((key, nth)) {
            (
                RaceView {
                    confirms: bumped(a.confirms, source),
                    margins: with_margin(
                        a.margins,
                        (source, units::minus_floored(now, self.seen[(key, nth)])),
                    ),
                    ..a
                },
                false,
            )
        } else {
            (
                RaceView {
                    seen: a.seen.insert((key, nth), now),
                    wins: bumped(a.wins, source),
                    ..a
                },
                true,
            )
        }
    }

    /// A feed tells of a fill: the state after it, and whether to act on it. A log entry
    /// that the feed delivered before is dropped. Of equal fills, the nth that one feed
    /// tells of is the nth that another tells of.
    pub open spec fn seen_by(
        self,
        source: Seq<char>,
        key: FillView,
        log_index: Option<u64>,
        now: u64,
    ) -> (RaceView, bool) {
        let a = self.evicted(now);
        match log_index {
            Some(li) => if a.delivered.contains_key((source, key.tx, li)) {
                (RaceView { redeliveries: bumped(a.redeliveries, source), ..a }, false)
            } else {
                RaceView { delivered: a.delivered.insert((source, key.tx, li), now), ..a }.told(
                    source,
                    key,
                    now,
                )
            },
            None => a.told(source, key, now),
        }
    }
}

fn bump(t: &mut Table<String, u64>, k: &str)
    ensures
        final(t)@ == bumped(old(t)@, k@),
{
    let name = text::owned(k);
    let n: u64 = match t.get(&name) {
        Some(v) => *v,
        None => 0,
    };
    t.insert(name, plus(n, 1));
}

fn copy_counts(t: &Table<String, u64>) -> (r: Table<String, u64>)
    ensures
        r@ == t@,
{
    let mut out: Table<String, u64> = Table::new();
    let n = t.len();
    for i in 0..n
        invariant
            n == t.keys().len(),
            t.aligned(),
            forall|k: Seq<char>| #[trigger]
                out@.contains_key(k) ==> t@.contains_key(k) && out@[k] == t@[k],
            forall|j: int| 0 <= j < i ==> out@.contains_key(#[trigger] t.keys()[j]),
    {
        assert(t@.contains_key(t.keys()[i as int]));
        out.insert(t.key_at(i).clone(), *t.val_at(i));
    }
    assert forall|k: Seq<char>| t@.contains_key(k) implies out@.contains_key(k) by {
        let j = t.keys().index_of(k);
        assert(t.keys()[j] == k);
    }
    assert(out@ =~= t@);
    out
}

impl RaceBook {
    /// A book that was told of nothing.
    pub fn new() -> (r: Self)
        ensures
            r@ == untold(),
    {
        let r = RaceBook {
            seen: Table::new(),
            per_source: Table::new(),
            delivered: Table::new(),
            wins: Table::new(),
            confirms: Table::new(),
            redeliveries: Table::new(),
            margins: Vec::new(),
        };
        assert(margin_views(r.margins@) =~= Seq::<(Seq<char>, u64)>::empty());
        r
    }

    fn evict(&mut self, now: u64)
        ensures
            final(self)@ == old(self)@.evicted(now),
    {
        let ghost start = self@;
        if self.delivered.len() > SEEN_ROOM {
            let f = |k: &(String, String, u64), t: &u64| -> (b: bool)
                ensures
                    b == is_fresh(now, *t),
                { less(now, *t) < TTL };
            self.delivered.retain(
                f,
                Ghost(|k: (Seq<char>, Seq<char>, u64), t: u64| is_fresh(now, t)),
            );
        }
        let before = self.seen.len();
        if before < SEEN_ROOM {
            assert(self@ =~= start.evicted(now));
            return ;
        }
        let f = |k: &(FillKey, u64), t: &u64| -> (b: bool)
            ensures
                b == is_fresh(now, *t),
            { less(now, *t) < TTL };
        self.seen.retain(f, Ghost(|k: (FillView, u64), t: u64| is_fresh(now, t)));
        if self.seen.len() != before && self.per_source.len() > COUNT_ROOM {
            self.per_source = Table::new();
        }
        assert(self@ =~= start.evicted(now));
    }

    /// A feed tells of a fill at `now`, in nanoseconds; the result says whether to act on
    /// it. See [`RaceView::seen_by`].
    pub fn first_seen(
        &mut self,
        source: &str,
        key: FillKey,
        log_index: Option<u64>,
        now: u64,
    ) -> (r: bool)
        ensures
            final(self)@ == old(self)@.seen_by(source@, key@, log_index, now).0,
            r == old(self)@.seen_by(source@, key@, log_index, now).1,
    {
        let ghost start = self@;
        self.evict(now);
        let ghost a = self@;
        if let Some(li) = log_index {
            let ident = (text::owned(source), key.tx.clone(), li);
            assert(ident@ == (source@, key@.tx, li));
            if self.delivered.has(&ident) {
                bump(&mut self.redeliveries, source);
                assert(self@ =~= start.seen_by(source@, key@, log_index, now).0);
                return false;
            }
            self.delivered.insert(ident, now);
        }
        let ghost b = self@;
        let sk = (text::owned(source), key.copy());
        assert(sk@ == (source@, key@));
        let nth: u64 = match self.per_source.get(&sk) {
            Some(n) => *n,
            None => 0,
        };
        self.per_source.insert(sk, plus(nth, 1));
        let full = (key, nth);
        assert(full@ == (key@, nth));
        let first: Option<u64> = match self.seen.get(&full) {
            Some(t) => Some(*t),
            None => None,
        };
        match first {
            None => {
                self.seen.insert(full, now);
                bump(&mut self.wins, source);
                assert(self@ =~= b.told(source@, key@, now).0);
                true
            },
            Some(t) => {
                bump(&mut self.confirms, source);
                let ghost old_margins = margin_views(self.margins@);
                let late = less(now, t);
                self.margins.push((text::owned(source), late));
                assert(margin_views(self.margins@) =~= old_margins.push((source@, late)));
                if self.margins.len() > MARGIN_ROOM {
                    let ghost full_margins = self.margins@;
                    self.margins = self.margins.split_off(MARGIN_DROP);
                    assert(margin_views(self.margins@) =~= margin_views(full_margins).skip(
                        MARGIN_DROP as int,
                    ));
                }
                assert(self@ =~= b.told(source@, key@, now).0);
                false
            },
        }
    }

    /// How often each feed was first, how often it confirmed, and how often it delivered
    /// a log entry again.
    pub fn stats(&self) -> (r: (Table<String, u64>, Table<String, u64>, Table<String, u64>))
        ensures
            r.0@ == self@.wins,
            r.1@ == self@.confirms,
            r.2@ == self@.redeliveries,
    {
        (copy_counts(&self.wins), copy_counts(&self.confirms), copy_counts(&self.redeliveries))
    }

    /// By how much each feed that was not first came late, the median of its margins. It is
    /// given in nanoseconds, a million to the millisecond that the name speaks of.
    pub fn median_behind_ms(&self) -> (r: Table<String, u64>)
        ensures
            forall|k: Seq<char>| #[trigger]
                r@.contains_key(k) <==> margins_of(self@.margins, k).len() > 0,
            forall|k: Seq<char>| #[trigger]
                r@.contains_key(k) ==> is_median(r@[k], margins_of(self@.margins, k)),
    {
        let ghost all = margin_views(self.margins@);
        let mut out: Table<String, u64> = Table::new();
        for i in 0..self.margins.len()
            invariant
                all == margin_views(self.margins@),
                forall|k: Seq<char>| #[trigger]
                    out@.contains_key(k) <==> margins_of(all.take(i as int), k).len() > 0,
                forall|k: Seq<char>| #[trigger]
                    out@.contains_key(k) ==> is_median(out@[k], margins_of(all, k)),
        {
            let name = self.margins[i].0.clone();
            assert(all.take(i + 1).drop_last() =~= all.take(i as int));
            assert(all[i as int].0 == name@);
            if !out.has(&name) {
                let v = self.behind(name.as_str());
                proof {
                    margins_cover(all, i as int);
                }
                let s = sorting::sort(&v);
                let m = s[s.len() / 2];
                assert(is_median(m, v@)) by {
                    assert(sorting::sorts(s@, v@));
                }
                out.insert(name, m);
            }
        }
        assert(all.take(all.len() as int) =~= all);
        out
    }

    fn behind(&self, source: &str) -> (r: Vec<u64>)
        ensures
            r@ == margins_of(margin_views(self.margins@), source@),
    {
        let ghost all = margin_views(self.margins@);
        let mut out: Vec<u64> = Vec::new();
        for i in 0..self.margins.len()
            invariant
                all == margin_views(self.margins@),
                out@ == margins_of(all.take(i as int), source@),
        {
            assert(all.take(i + 1).drop_last() =~= all.take(i as int));
            if text::same(self.margins[i].0.as_str(), source) {
                out.push(self.margins[i].1);
            }
        }
        assert(all.take(all.len() as int) =~= all);
        out
    }
}

impl Default for RaceBook {
    fn default() -> (r: Self)
        ensures
            r@ == untold(),
    {
        RaceBook::new()
    }
}

/// The margins of one feed, in order.
pub open spec fn margins_of(m: Seq<(Seq<char>, u64)>, k: Seq<char>) -> Seq<u64>
    decreases m.len(),
{
    if m.len() == 0 {
        Seq::empty()
    } else if m.last().0 == k {
        margins_of(m.drop_last(), k).push(m.last().1)
    } else {
        margins_of(m.drop_last(), k)
    }
}

/// Whether `x` stands in the middle of these numbers once they are in order.
pub open spec fn is_median(x: u64, v: Seq<u64>) -> bool {
    exists|s: Seq<u64>| #[trigger]
        sorting::sorts(s, v) && s.len() == v.len() && v.len() > 0 && x == s[s.len() as int / 2]
}

proof fn margins_cover(m: Seq<(Seq<char>, u64)>, i: int)
    requires
        0 <= i < m.len(),
    ensures
        margins_of(m, m[i].0).len() > 0,
    decreases m.len(),
{
    if i < m.len() - 1 {
        margins_cover(m.drop_last(), i);
    }
}

/// By how much one feed comes late, in microseconds.
#[derive(Debug, Clone, Copy, PartialEq, Eq, Structural)]
pub struct Behind {
    pub n: u64,
    pub sum_us: u128,
    pub max_us: u64,
    pub le_1ms: u64,
    pub le_5ms: u64,
    pub le_20ms: u64,
    pub le_100ms: u64,
    pub over_100ms: u64,
}

impl Default for Behind {
    fn default() -> (r: Self)
        ensures
            r == no_lag(),
    {
        Behind {
            n: 0,
            sum_us: 0,
            max_us: 0,
            le_1ms: 0,
            le_5ms: 0,
            le_20ms: 0,
            le_100ms: 0,
            over_100ms: 0,
        }
    }
}

/// No delivery that came late.
pub open spec fn no_lag() -> Behind {
    Behind {
        n: 0,
        sum_us: 0,
        max_us: 0,
        le_1ms: 0,
        le_5ms: 0,
        le_20ms: 0,
        le_100ms: 0,
        over_100ms: 0,
    }
}

/// One more where `hit`, held at the largest number.
pub open spec fn one_more(n: u64, hit: bool) -> u64 {
    units::plus_capped(n, if hit { 1 } else { 0 })
}

fn one_up(n: u64, hit: bool) -> (r: u64)
    ensures
        r == one_more(n, hit),
{
    plus(n, if hit { 1 } else { 0 })
}

impl Behind {
    /// After one more delivery that came so many microseconds late.
    pub open spec fn after(self, us: u64) -> Behind {
        Behind {
            n: units::plus_capped(self.n, 1),
            sum_us: units::smaller(self.sum_us + us, u128::MAX as int) as u128,
            max_us: units::larger(self.max_us as int, us as int) as u64,
            le_1ms: one_more(self.le_1ms, us <= 1_000),
            le_5ms: one_more(self.le_5ms, 1_000 < us <= 5_000),
            le_20ms: one_more(self.le_20ms, 5_000 < us <= 20_000),
            le_100ms: one_more(self.le_100ms, 20_000 < us <= 100_000),
            over_100ms: one_more(self.over_100ms, us > 100_000),
        }
    }

    fn record(&self, us: u64) -> (r: Behind)
        ensures
            r == self.after(us),
    {
        Behind {
            n: plus(self.n, 1),
            sum_us: if self.sum_us > u128::MAX - us as u128 {
                u128::MAX
            } else {
                self.sum_us + us as u128
            },
            max_us: if us > self.max_us {
                us
            } else {
                self.max_us
            },
            le_1ms: one_up(self.le_1ms, us <= 1_000),
            le_5ms: one_up(self.le_5ms, us > 1_000 && us <= 5_000),
            le_20ms: one_up(self.le_20ms, us > 5_000 && us <= 20_000),
            le_100ms: one_up(self.le_100ms, us > 20_000 && us <= 100_000),
            over_100ms: one_up(self.over_100ms, us > 100_000),
        }
    }

    /// The mean in millionths of a millisecond, rounded half up, zero without a delivery.
    pub open spec fn mean(self) -> int {
        if self.n == 0 {
            0
        } else {
            units::smaller(
                words::nearest(self.sum_us * 1_000, self.n as int),
                units::AMOUNT_CAP as int,
            )
        }
    }

    /// How these deliveries are told: counts, and milliseconds for the mean and the most.
    pub open spec fn told(self) -> JsonView {
        JsonView::Fields(
            seq![
                ("n"@, JsonView::Number(text::dec(self.n as nat))),
                ("mean_ms"@, JsonView::Number(text::plain(self.mean(), 6))),
                ("max_ms"@, JsonView::Number(text::plain(self.max_us as int, 3))),
                ("le_1ms"@, JsonView::Number(text::dec(self.le_1ms as nat))),
                ("le_5ms"@, JsonView::Number(text::dec(self.le_5ms as nat))),
                ("le_20ms"@, JsonView::Number(text::dec(self.le_20ms as nat))),
                ("le_100ms"@, JsonView::Number(text::dec(self.le_100ms as nat))),
                ("over_100ms"@, JsonView::Number(text::dec(self.over_100ms as nat))),
            ],
        )
    }

    fn tell(&self) -> (r: Json)
        ensures
            r@ == self.told(),
    {
        let mean: i128 = if self.n == 0 {
            0
        } else {
            let m = words::scaled(self.sum_us, 1_000, self.n as u128);
            if m > units::AMOUNT_CAP as u128 {
                units::AMOUNT_CAP
            } else {
                m as i128
            }
        };
        let mut f = json::no_fields();
        put(&mut f, "n", count_json(self.n as u128));
        put(&mut f, "mean_ms", plain_json(mean, 6));
        put(&mut f, "max_ms", plain_json(self.max_us as i128, 3));
        put(&mut f, "le_1ms", count_json(self.le_1ms as u128));
        put(&mut f, "le_5ms", count_json(self.le_5ms as u128));
        put(&mut f, "le_20ms", count_json(self.le_20ms as u128));
        put(&mut f, "le_100ms", count_json(self.le_100ms as u128));
        put(&mut f, "over_100ms", count_json(self.over_100ms as u128));
        assert(json::shown_fields(f@) =~= self.told()->Fields_0);
        Json::Fields(f)
    }
}

/// By how much each feed comes late.
pub struct BehindTally {
    per_source: Table<String, Behind>,
}

impl View for BehindTally {
    type V = Map<Seq<char>, Behind>;

    closed spec fn view(&self) -> Map<Seq<char>, Behind> {
        self.per_source@
    }
}

impl Default for BehindTally {
    fn default() -> (r: Self)
        ensures
            r@ == Map::<Seq<char>, Behind>::empty(),
    {
        BehindTally { per_source: Table::new() }
    }
}

/// What a tally says of a feed.
pub open spec fn lag_of(m: Map<Seq<char>, Behind>, source: Seq<char>) -> Behind {
    if m.contains_key(source) {
        m[source]
    } else {
        no_lag()
    }
}

/// Whether `f` tells of every feed of the tally exactly once, and of no other.
pub open spec fn tells(f: Seq<(Seq<char>, JsonView)>, m: Map<Seq<char>, Behind>) -> bool {
    &&& f.len() == m.dom().len()
    &&& forall|i: int|
        0 <= i < f.len() ==> m.contains_key((#[trigger] f[i]).0) && f[i].1 == m[f[i].0].told()
    &&& forall|k: Seq<char>| #[trigger]
        m.contains_key(k) ==> exists|i: int| 0 <= i < f.len() && (#[trigger] f[i]).0 == k
}

/// The lags with one more of a feed, in nanoseconds.
pub open spec fn lagged(m: Map<Seq<char>, Behind>, source: Seq<char>, behind_ns: u128) -> Map<
    Seq<char>,
    Behind,
> {
    m.insert(source, lag_of(m, source).after((behind_ns / 1_000) as u64))
}

impl BehindTally {
    /// A delivery came so many nanoseconds late.
    pub fn record(&mut self, source: &str, behind_ns: u128)
        ensures
            final(self)@ == old(self)@.insert(
                source@,
                lag_of(old(self)@, source@).after((behind_ns / 1_000) as u64),
            ),
            final(self)@ == lagged(old(self)@, source@, behind_ns),
    {
        let us = (behind_ns / 1_000) as u64;
        let name = text::owned(source);
        let old = match self.per_source.get(&name) {
            Some(b) => *b,
            None => Behind::default(),
        };
        self.per_source.insert(name, old.record(us));
    }

    /// Whether nothing came late.
    pub fn is_empty(&self) -> (r: bool)
        ensures
            r == (self@.dom().len() == 0),
    {
        self.per_source.len() == 0
    }

    /// Tells of every feed, and starts anew.
    pub fn drain_json(&mut self) -> (r: Json)
        ensures
            r matches Json::Fields(f) && tells(json::shown_fields(f@), old(self)@),
            final(self)@ == Map::<Seq<char>, Behind>::empty(),
    {
        let n = self.per_source.len();
        let ghost t = self.per_source;
        let mut f = json::no_fields();
        for i in 0..n
            invariant
                t == self.per_source,
                t.aligned(),
                n == t.keys().len(),
                json::shown_fields(f@).len() == i,
                forall|j: int|
                    0 <= j < i ==> (#[trigger] json::shown_fields(f@)[j]) == (
                        t.keys()[j],
                        t.vals()[j].told(),
                    ),
        {
            let j = self.per_source.val_at(i).tell();
            put(&mut f, self.per_source.key_at(i).as_str(), j);
        }
        proof {
            let s = json::shown_fields(f@);
            assert forall|i: int| 0 <= i < s.len() implies t@.contains_key((#[trigger] s[i]).0)
                && s[i].1 == t@[s[i].0].told() by {
                assert(t@.contains_key(t.keys()[i]));
            }
            assert forall|k: Seq<char>| #[trigger] t@.contains_key(k) implies exists|i: int|
                0 <= i < s.len() && (#[trigger] s[i]).0 == k by {
                let i = t.keys().index_of(k);
                assert(s[i].0 == k);
            }
        }
        self.per_source = Table::new();
        Json::Fields(f)
    }
}

/// The transactions that were seen of late, the oldest first, and when each was first
/// delivered.
pub struct SeenTx {
    pub order: Vec<String>,
    pub won_at_ns: Table<String, u128>,
    pub cap: usize,
}

/// What is remembered of transactions.
#[verifier::ext_equal]
pub struct SeenView {
    pub order: Seq<Seq<char>>,
    pub won: Map<Seq<char>, u128>,
    pub cap: int,
}

impl View for SeenTx {
    type V = SeenView;

    open spec fn view(&self) -> SeenView {
        SeenView {
            order: text::texts(self.order@),
            won: self.won_at_ns@,
            cap: self.cap as int,
        }
    }
}

impl SeenView {
    /// A transaction is delivered: what is remembered after it, and by how much it came
    /// late, where it was delivered before. The oldest goes when there is no room.
    pub open spec fn delivered(self, tx: Seq<char>, seen_ns: u128) -> (SeenView, Option<u128>) {
        if self.order.contains(tx) {
            (
                self,
                Some(
                    if !self.won.contains_key(tx) || seen_ns < self.won[tx] {
                        0
                    } else {
                        (seen_ns - self.won[tx]) as u128
                    },
                ),
            )
        } else {
            let a = if self.order.len() >= self.cap && self.order.len() > 0 {
                SeenView {
                    order: self.order.skip(1),
                    won: self.won.remove(self.order[0]),
                    ..self
                }
            } else {
                self
            };
            (
                SeenView {
                    order: a.order.push(tx),
                    won: if seen_ns > 0 {
                        a.won.insert(tx, seen_ns)
                    } else {
                        a.won
                    },
                    ..a
                },
                None,
            )
        }
    }

    /// Every transaction stands once, no more of them than there is room for, and
    /// nothing else has a time.
    pub open spec fn wf(self) -> bool {
        &&& self.order.no_duplicates()
        &&& self.order.len() <= units::larger(self.cap, 1)
        &&& forall|k: Seq<char>| #[trigger] self.won.contains_key(k) ==> self.order.contains(k)
    }
}

impl SeenTx {
    /// Nothing is remembered yet, and at most `cap` transactions will be.
    pub fn new(cap: usize) -> (r: Self)
        ensures
            r@ == (SeenView { order: Seq::empty(), won: Map::empty(), cap: cap as int }),
            r@.wf(),
    {
        let r = SeenTx { order: Vec::new(), won_at_ns: Table::new(), cap };
        assert(r@.order =~= Seq::<Seq<char>>::empty());
        r
    }

    /// Whether a transaction was not delivered before.
    pub fn first_delivery(&mut self, tx: &str) -> (r: bool)
        ensures
            final(self)@ == old(self)@.delivered(tx@, 0).0,
            r == !old(self)@.order.contains(tx@),
    {
        self.first_delivery_at(tx, 0).is_none()
    }

    /// A transaction is delivered; see [`SeenView::delivered`].
    pub fn first_delivery_at(&mut self, tx: &str, seen_ns: u128) -> (r: Option<u128>)
        ensures
            final(self)@ == old(self)@.delivered(tx@, seen_ns).0,
            r == old(self)@.delivered(tx@, seen_ns).1,
    {
        let ghost start = self@;
        let n = self.order.len();
        for i in 0..n
            invariant
                n == self.order@.len(),
                self@ == start,
                forall|j: int| 0 <= j < i ==> start.order[j] != tx@,
        {
            if text::same(self.order[i].as_str(), tx) {
                assert(start.order[i as int] == tx@);
                return match self.won_at_ns.get(&text::owned(tx)) {
                    Some(w) => if seen_ns < *w {
                        Some(0)
                    } else {
                        Some(seen_ns - *w)
                    },
                    None => Some(0),
                };
            }
            assert(start.order[i as int] == self.order@[i as int]@);
        }
        assert(!start.order.contains(tx@));
        if self.order.len() >= self.cap && self.order.len() > 0 {
            let first = self.order.remove(0);
            assert(text::texts(self.order@) =~= start.order.skip(1));
            assert(first@ == start.order[0]);
            let _ = self.won_at_ns.remove(&first);
        }
        let ghost a = self@;
        self.order.push(text::owned(tx));
        assert(text::texts(self.order@) =~= a.order.push(tx@));
        if seen_ns > 0 {
            self.won_at_ns.insert(text::owned(tx), seen_ns);
        }
        assert(self@ =~= start.delivered(tx@, seen_ns).0);
        None
    }

    /// How many transactions are remembered.
    pub fn len(&self) -> (r: usize)
        ensures
            r == self@.order.len(),
    {
        self.order.len()
    }

    /// Whether no transaction is remembered.
    pub fn is_empty(&self) -> (r: bool)
        ensures
            r == (self@.order.len() == 0),
    {
        self.order.len() == 0
    }
}

/// Of two feeds that told of equal fills equally often, only the first to tell of the
/// next is acted on: the second within the time of remembrance confirms it.
pub proof fn one_fill_fires_once(
    v: RaceView,
    a: Seq<char>,
    b: Seq<char>,
    key: FillView,
    now: u64,
    later: u64,
)
    requires
        a != b,
        tally(v.per_source, (a, key)) == tally(v.per_source, (b, key)),
        v.per_source.dom().finite(),
        v.per_source.dom().len() < COUNT_ROOM,
        now <= later,
        later - now < TTL,
    ensures
        !(v.seen_by(a, key, None, now).1 && v.seen_by(a, key, None, now).0.seen_by(
            b,
            key,
            None,
            later,
        ).1),
{
    let w = v.evicted(now);
    let nth = tally(v.per_source, (a, key));
    assert(w.per_source == v.per_source);
    let x = v.seen_by(a, key, None, now).0;
    assert(x.per_source.dom() =~= v.per_source.dom().insert((a, key)));
    let y = x.evicted(later);
    assert(y.per_source == x.per_source);
    assert(tally(y.per_source, (b, key)) == nth);
    if !w.seen.contains_key((key, nth)) {
        assert(x.seen[(key, nth)] == now);
        assert(is_fresh(later, now));
        assert(y.seen.contains_key((key, nth)));
    }
}

/// A feed that delivers a log entry again is never acted on.
pub proof fn redelivery_is_silent(
    v: RaceView,
    source: Seq<char>,
    first: FillView,
    again: FillView,
    log_index: u64,
    now: u64,
    later: u64,
)
    requires
        first.tx == again.tx,
        now <= later,
        later - now < TTL,
        v.evicted(now).delivered.contains_key((source, first.tx, log_index)) ==> is_fresh(
            later,
            v.evicted(now).delivered[(source, first.tx, log_index)],
        ),
    ensures
        !v.seen_by(source, first, Some(log_index), now).0.seen_by(
            source,
            again,
            Some(log_index),
            later,
        ).1,
{
    let k = (source, first.tx, log_index);
    let x = v.seen_by(source, first, Some(log_index), now).0;
    assert(x.delivered.contains_key(k));
    assert(is_fresh(later, x.delivered[k]));
    assert(x.evicted(later).delivered.contains_key(k));
}

/// A delivery keeps what is remembered within its room, each transaction once and no
/// time without its transaction.
pub proof fn memory_stays_bounded(v: SeenView, tx: Seq<char>, seen_ns: u128)
    requires
        v.wf(),
        v.cap >= 0,
    ensures
        v.delivered(tx, seen_ns).0.wf(),
        v.delivered(tx, seen_ns).0.order.contains(tx),
{
    if !v.order.contains(tx) {
        let e = v.order.len() >= v.cap && v.order.len() > 0;
        let o = if e {
            v.order.skip(1)
        } else {
            v.order
        };
        let r = v.delivered(tx, seen_ns).0;
        assert(r.order == o.push(tx));
        assert(r.order[o.len() as int] == tx);
        assert forall|i: int, j: int| 0 <= i < j < r.order.len() implies r.order[i]
            != r.order[j] by {
            let d: int = if e {
                1
            } else {
                0
            };
            assert(r.order[i] == v.order[i + d]);
            if j < o.len() {
                assert(r.order[j] == v.order[j + d]);
            }
        }
        assert forall|k: Seq<char>| #[trigger] r.won.contains_key(k) implies r.order.contains(
            k,
        ) by {
            if k != tx {
                assert(v.won.contains_key(k));
                let i = v.order.index_of(k);
                assert(v.order[i] == k);
                if e {
                    assert(r.order[i - 1] == k);
                } else {
                    assert(r.order[i] == k);
                }
            }
        }
    }
}

/// A feed tells of a fill at some time.
pub struct Told {
    pub source: Seq<char>,
    pub key: FillView,
    pub log_index: Option<u64>,
    pub now: u64,
}

/// A book that was told of nothing.
pub open spec fn untold() -> RaceView {
    RaceView {
        seen: Map::empty(),
        per_source: Map::empty(),
        delivered: Map::empty(),
        wins: Map::empty(),
        confirms: Map::empty(),
        redeliveries: Map::empty(),
        margins: Seq::empty(),
    }
}

/// The book that was told all of these.
pub open spec fn book_of(calls: Seq<Told>) -> RaceView
    decreases calls.len(),
{
    if calls.len() == 0 {
        untold()
    } else {
        let c = calls.last();
        book_of(calls.drop_last()).seen_by(c.source, c.key, c.log_index, c.now).0
    }
}

/// Whether the last of these is acted on.
pub open spec fn last_fires(calls: Seq<Told>) -> bool {
    let c = calls.last();
    book_of(calls.drop_last()).seen_by(c.source, c.key, c.log_index, c.now).1
}

/// Whether the last of these is a log entry that its feed delivered before.
pub open spec fn last_is_redelivered(calls: Seq<Told>) -> bool {
    calls.last().log_index is Some && was_delivered(
        calls.drop_last(),
        calls.last().source,
        calls.last().key.tx,
        calls.last().log_index->0,
    )
}

/// Whether a feed delivered a log entry.
pub open spec fn was_delivered(
    calls: Seq<Told>,
    source: Seq<char>,
    tx: Seq<char>,
    log_index: u64,
) -> bool {
    exists|i: int|
        0 <= i < calls.len() && (#[trigger] calls[i]).source == source && calls[i].key.tx == tx
            && calls[i].log_index == Some(log_index)
}

/// How often a fill was acted on.
pub open spec fn fires(calls: Seq<Told>, key: FillView) -> int
    decreases calls.len(),
{
    if calls.len() == 0 {
        0
    } else {
        fires(calls.drop_last(), key) + (if calls.last().key == key && last_fires(calls) {
            1int
        } else {
            0int
        })
    }
}

/// How often a feed told of a fill, without the log entries that it delivered again.
pub open spec fn deliveries(calls: Seq<Told>, source: Seq<char>, key: FillView) -> int
    decreases calls.len(),
{
    if calls.len() == 0 {
        0
    } else {
        deliveries(calls.drop_last(), source, key) + (if calls.last().source == source
            && calls.last().key == key && !last_is_redelivered(calls) {
            1int
        } else {
            0int
        })
    }
}

/// What a book holds after so few calls that nothing was forgotten.
spec fn is_record(calls: Seq<Told>) -> bool {
    let b = book_of(calls);
    let n = calls.len() as int;
    &&& b.seen.dom().finite() && b.seen.dom().len() <= n
    &&& b.delivered.dom().finite() && b.delivered.dom().len() <= n
    &&& forall|s: Seq<char>, k: FillView|
        #![trigger deliveries(calls, s, k)]
        tally(b.per_source, (s, k)) == deliveries(calls, s, k) && 0 <= deliveries(calls, s, k) <= n
            && deliveries(calls, s, k) <= fires(calls, k)
    &&& forall|s: Seq<char>, tx: Seq<char>, li: u64|
        #![trigger b.delivered.contains_key((s, tx, li))]
        #![trigger was_delivered(calls, s, tx, li)]
        b.delivered.contains_key((s, tx, li)) == was_delivered(calls, s, tx, li)
    &&& forall|k: FillView, nth: u64| #[trigger]
        b.seen.contains_key((k, nth)) <==> nth < fires(calls, k)
    &&& forall|k: FillView|
        #![trigger fires(calls, k)]
        0 <= fires(calls, k) <= n && (fires(calls, k) > 0 ==> exists|s: Seq<char>|
            #[trigger] deliveries(calls, s, k) == fires(calls, k))
}

proof fn delivered_so_far(calls: Seq<Told>, s: Seq<char>, tx: Seq<char>, li: u64)
    requires
        calls.len() > 0,
    ensures
        was_delivered(calls, s, tx, li) <==> was_delivered(calls.drop_last(), s, tx, li) || (
        calls.last().source == s && calls.last().key.tx == tx && calls.last().log_index == Some(
            li,
        )),
{
    let rest = calls.drop_last();
    if was_delivered(rest, s, tx, li) {
        let i = choose|i: int|
            0 <= i < rest.len() && (#[trigger] rest[i]).source == s && rest[i].key.tx == tx
                && rest[i].log_index == Some(li);
        assert(calls[i] == rest[i]);
    }
    if was_delivered(calls, s, tx, li) {
        let i = choose|i: int|
            0 <= i < calls.len() && (#[trigger] calls[i]).source == s && calls[i].key.tx == tx
                && calls[i].log_index == Some(li);
        if i < rest.len() {
            assert(rest[i] == calls[i]);
        }
    }
    assert(calls[calls.len() - 1] == calls.last());
}

proof fn record_goes_on(calls: Seq<Told>)
    requires
        0 < calls.len() <= SEEN_ROOM,
        is_record(calls.drop_last()),
    ensures
        is_record(calls),
        last_is_redelivered(calls) ==> !last_fires(calls),
{
    let rest = calls.drop_last();
    let a = book_of(rest);
    let b = book_of(calls);
    let c = calls.last();
    assert(a.evicted(c.now) == a);
    assert forall|s: Seq<char>, tx: Seq<char>, li: u64|
        #![trigger b.delivered.contains_key((s, tx, li))]
        #![trigger was_delivered(calls, s, tx, li)]
        b.delivered.contains_key((s, tx, li)) == was_delivered(calls, s, tx, li) by {
        delivered_so_far(calls, s, tx, li);
        assert(a.delivered.contains_key((s, tx, li)) == was_delivered(rest, s, tx, li));
    }
    if last_is_redelivered(calls) {
        assert(a.delivered.contains_key((c.source, c.key.tx, c.log_index->0)));
        assert forall|s: Seq<char>, k: FillView|
            #![trigger deliveries(calls, s, k)]
            tally(b.per_source, (s, k)) == deliveries(calls, s, k) && 0 <= deliveries(calls, s, k)
                <= calls.len() && deliveries(calls, s, k) <= fires(calls, k) by {
            assert(deliveries(calls, s, k) == deliveries(rest, s, k));
            assert(fires(calls, k) == fires(rest, k));
        }
        assert forall|k: FillView, nth: u64| #[trigger]
            b.seen.contains_key((k, nth)) <==> nth < fires(calls, k) by {
            assert(a.seen.contains_key((k, nth)) <==> nth < fires(rest, k));
        }
        assert forall|k: FillView|
            #![trigger fires(calls, k)]
            0 <= fires(calls, k) <= calls.len() && (fires(calls, k) > 0 ==> exists|s: Seq<char>|
                #[trigger] deliveries(calls, s, k) == fires(calls, k)) by {
            assert(fires(calls, k) == fires(rest, k));
            if fires(calls, k) > 0 {
                let s = choose|s: Seq<char>| #[trigger] deliveries(rest, s, k) == fires(rest, k);
                assert(deliveries(calls, s, k) == deliveries(rest, s, k));
            }
        }
    } else {
        if c.log_index is Some {
            assert(!a.delivered.contains_key((c.source, c.key.tx, c.log_index->0)));
        }
        let nth = tally(a.per_source, (c.source, c.key));
        assert(nth == deliveries(rest, c.source, c.key));
        assert(a.seen.contains_key((c.key, nth)) <==> nth < fires(rest, c.key));
        assert(last_fires(calls) == !a.seen.contains_key((c.key, nth)));
        assert(deliveries(rest, c.source, c.key) <= fires(rest, c.key));
        assert(0 <= fires(rest, c.key) <= rest.len());
        assert forall|s: Seq<char>, k: FillView|
            #![trigger deliveries(calls, s, k)]
            tally(b.per_source, (s, k)) == deliveries(calls, s, k) && 0 <= deliveries(calls, s, k)
                <= calls.len() && deliveries(calls, s, k) <= fires(calls, k) by {
            assert(tally(a.per_source, (s, k)) == deliveries(rest, s, k));
            assert(0 <= fires(rest, k));
        }
        assert forall|k: FillView, m: u64| #[trigger]
            b.seen.contains_key((k, m)) <==> m < fires(calls, k) by {
            assert(a.seen.contains_key((k, m)) <==> m < fires(rest, k));
        }
        assert forall|k: FillView|
            #![trigger fires(calls, k)]
            0 <= fires(calls, k) <= calls.len() && (fires(calls, k) > 0 ==> exists|s: Seq<char>|
                #[trigger] deliveries(calls, s, k) == fires(calls, k)) by {
            assert(0 <= fires(rest, k) <= rest.len());
            if k == c.key && last_fires(calls) {
                assert(deliveries(calls, c.source, k) == fires(calls, k));
            } else if fires(calls, k) > 0 {
                let s = choose|s: Seq<char>| #[trigger] deliveries(rest, s, k) == fires(rest, k);
                assert(deliveries(calls, s, k) >= deliveries(rest, s, k));
                assert(deliveries(calls, s, k) <= fires(calls, k));
                assert(deliveries(calls, s, k) == fires(calls, k));
            }
        }
    }
}

proof fn record_holds(calls: Seq<Told>)
    requires
        calls.len() <= SEEN_ROOM,
    ensures
        is_record(calls),
    decreases calls.len(),
{
    if calls.len() > 0 {
        record_holds(calls.drop_last());
        record_goes_on(calls);
    } else {
        assert(book_of(calls) == untold());
    }
}

/// A fill is acted on as often as the feed that told of it most often did: several feeds that
/// tell of one fill fire it once, and one feed that tells of two equal fills fires both. A log
/// entry that a feed delivers again is never acted on. It holds while so few fills were told
/// of that nothing was forgotten.
pub proof fn fires_as_often_as_one_feed_told(calls: Seq<Told>, key: FillView)
    requires
        calls.len() <= SEEN_ROOM,
    ensures
        forall|s: Seq<char>| #[trigger] deliveries(calls, s, key) <= fires(calls, key),
        fires(calls, key) > 0 ==> exists|s: Seq<char>|
            #[trigger] deliveries(calls, s, key) == fires(calls, key),
        calls.len() > 0 && last_is_redelivered(calls) ==> !last_fires(calls),
{
    record_holds(calls);
    assert(fires(calls, key) >= 0);
    if calls.len() > 0 {
        record_holds(calls.drop_last());
        record_goes_on(calls);
    }
}

} // verus!
