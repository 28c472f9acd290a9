//! Which feed wins, and by how much the others are behind.

use vstd::prelude::*;
use crate::race;
use crate::race::{Behind, FillView, RaceView, SeenView};
use crate::units;
use crate::words;

verus! {

/// The first feed to tell of a fill wins it and acts on it; another that tells of it later
/// confirms it, and is behind by the time that has passed since. Each call counts for its feed
/// once, and for no other.
pub proof fn the_first_to_tell_wins(v: RaceView, source: Seq<char>, key: FillView, now: u64)
    requires
        race::tally(v.wins, source) < u64::MAX,
        race::tally(v.confirms, source) < u64::MAX,
    ensures
        ({
            let (a, fires) = v.told(source, key, now);
            let nth = race::tally(v.per_source, (source, key));
            &&& fires <==> !v.seen.contains_key((key, nth))
            &&& race::tally(a.wins, source) - race::tally(v.wins, source) == (if fires {
                1int
            } else {
                0
            })
            &&& race::tally(a.confirms, source) - race::tally(v.confirms, source) == (if fires {
                0int
            } else {
                1
            })
            &&& fires ==> a.seen.contains_key((key, nth)) && a.seen[(key, nth)] == now && a.margins
                == v.margins
            &&& !fires ==> a.seen == v.seen && a.margins.len() > 0 && a.margins.last() == (
                source,
                if now >= v.seen[(key, nth)] {
                    (now - v.seen[(key, nth)]) as u64
                } else {
                    0
                },
            )
            &&& a.redeliveries == v.redeliveries
            &&& nth < u64::MAX ==> race::tally(a.per_source, (source, key)) == nth + 1
        }),
{
}

/// What one feed tells counts for no other feed.
pub proof fn a_feed_counts_for_itself(
    v: RaceView,
    source: Seq<char>,
    key: FillView,
    log_index: Option<u64>,
    now: u64,
    other: Seq<char>,
)
    requires
        other != source,
    ensures
        ({
            let (a, _) = v.seen_by(source, key, log_index, now);
            &&& race::tally(a.wins, other) == race::tally(v.wins, other)
            &&& race::tally(a.confirms, other) == race::tally(v.confirms, other)
            &&& race::tally(a.redeliveries, other) == race::tally(v.redeliveries, other)
        }),
{
}

/// Of every call the feed has one more win, confirmation or redelivery, and acts on the fill
/// only with a win.
pub proof fn every_call_counts_once(
    v: RaceView,
    source: Seq<char>,
    key: FillView,
    log_index: Option<u64>,
    now: u64,
)
    requires
        race::tally(v.wins, source) < u64::MAX,
        race::tally(v.confirms, source) < u64::MAX,
        race::tally(v.redeliveries, source) < u64::MAX,
    ensures
        ({
            let (a, fires) = v.seen_by(source, key, log_index, now);
            &&& race::tally(a.wins, source) + race::tally(a.confirms, source) + race::tally(
                a.redeliveries,
                source,
            ) == race::tally(v.wins, source) + race::tally(v.confirms, source) + race::tally(
                v.redeliveries,
                source,
            ) + 1
            &&& fires <==> race::tally(a.wins, source) == race::tally(v.wins, source) + 1
        }),
{
}

/// What was told is remembered for a quarter of an hour at the least, and while few fills are
/// known for as long as it takes.
pub proof fn fills_are_remembered(v: RaceView, k: (FillView, u64), now: u64)
    requires
        v.seen.contains_key(k),
        v.seen.dom().len() < 512 || now < v.seen[k] + 900_000_000_000,
    ensures
        v.evicted(now).seen.contains_key(k),
        v.evicted(now).seen[k] == v.seen[k],
        v.evicted(now).wins == v.wins,
        v.evicted(now).confirms == v.confirms,
        v.evicted(now).margins == v.margins,
{
}

/// A margin joins the others at the end; the newest stay, two hundred and fifty at the least.
pub proof fn the_newest_margins_stay(m: Seq<(Seq<char>, u64)>, x: (Seq<char>, u64))
    ensures
        ({
            let a = race::with_margin(m, x);
            &&& a.len() > 0 && a.last() == x
            &&& a == m.push(x).skip(m.len() + 1 - a.len())
            &&& m.len() < 500 ==> a.len() == m.len() + 1
            &&& m.len() >= 500 ==> a.len() == m.len() + 1 - 250
        }),
{
    assert(m.push(x).skip(0) =~= m.push(x));
}

/// The margins of a feed are all of its own, in their order.
pub proof fn margins_are_the_feeds_own(m: Seq<(Seq<char>, u64)>, k: Seq<char>)
    ensures
        race::margins_of(m, k) == m.filter(|e: (Seq<char>, u64)| e.0 == k).map_values(
            |e: (Seq<char>, u64)| e.1,
        ),
    decreases m.len(),
{
    reveal(Seq::filter);
    let f = |e: (Seq<char>, u64)| e.0 == k;
    let g = |e: (Seq<char>, u64)| e.1;
    if m.len() > 0 {
        margins_are_the_feeds_own(m.drop_last(), k);
        let had = m.drop_last().filter(f);
        assert(had.push(m.last()).map_values(g) =~= had.map_values(g).push(m.last().1));
        assert(race::margins_of(m, k) =~= m.filter(f).map_values(g));
    } else {
        assert(m.filter(f) =~= Seq::empty());
        assert(m.filter(f).map_values(g) =~= Seq::empty());
    }
}

/// A lag after some times, one after another.
pub open spec fn after_times(b: Behind, us: Seq<u64>) -> Behind
    decreases us.len(),
{
    if us.len() == 0 {
        b
    } else {
        after_times(b, us.drop_last()).after(us.last())
    }
}

/// How many of the times are no more than so much.
pub open spec fn within(us: Seq<u64>, most: int) -> int
    decreases us.len(),
{
    if us.len() == 0 {
        0
    } else {
        within(us.drop_last(), most) + (if us.last() <= most {
            1int
        } else {
            0
        })
    }
}

/// Times, summed.
pub open spec fn total(us: Seq<u64>) -> int
    decreases us.len(),
{
    if us.len() == 0 {
        0
    } else {
        total(us.drop_last()) + us.last()
    }
}

/// Lags are counted, summed and sorted by how long they are: after any times, their number and
/// sum are exact, none is longer than the longest, and up to each bound as many are counted as
/// are no longer than it.
pub proof fn lags_are_counted(us: Seq<u64>, i: int)
    requires
        us.len() < 0x1_0000_0000,
        0 <= i < us.len(),
    ensures
        ({
            let b = after_times(race::no_lag(), us);
            &&& b.n == us.len()
            &&& b.sum_us == total(us)
            &&& us[i] <= b.max_us
            &&& us.contains(b.max_us)
            &&& b.le_1ms == within(us, 1_000)
            &&& b.le_1ms + b.le_5ms == within(us, 5_000)
            &&& b.le_1ms + b.le_5ms + b.le_20ms == within(us, 20_000)
            &&& b.le_1ms + b.le_5ms + b.le_20ms + b.le_100ms == within(us, 100_000)
            &&& b.le_1ms + b.le_5ms + b.le_20ms + b.le_100ms + b.over_100ms == us.len()
            &&& total(us) <= us.len() * u64::MAX
        }),
    decreases us.len(),
{
    let before = us.drop_last();
    if before.len() > 0 {
        lags_are_counted(
            before,
            if i < before.len() {
                i
            } else {
                0
            },
        );
        let had = after_times(race::no_lag(), before);
        let j = choose|j: int| 0 <= j < before.len() && before[j] == had.max_us;
        assert(us[j] == had.max_us);
        if i < before.len() {
            assert(before[i] == us[i]);
        }
        assert(us[us.len() - 1] == us.last());
        assert((us.len() - 1) * u64::MAX + u64::MAX == us.len() * u64::MAX) by (nonlinear_arith);
        let (n, t) = (us.len(), total(us));
        assert(t <= u128::MAX) by (nonlinear_arith)
            requires
                t <= n * u64::MAX,
                n < 0x1_0000_0000,
        ;
    } else {
        reveal_with_fuel(after_times, 2);
        reveal_with_fuel(within, 2);
        reveal_with_fuel(total, 2);
        assert(us[0] == us.last());
    }
}

/// The mean is the nearest to what the sum comes to, in thousandths of a microsecond.
pub proof fn the_mean_is_the_sum_divided(b: Behind)
    requires
        b.n > 0,
        b.sum_us <= 1_000_000_000_000_000_000_000_000_000_000,
    ensures
        -(b.n as int) <= 2 * (b.mean() * b.n - b.sum_us * 1_000) <= b.n,
{
    let (a, n) = (b.sum_us * 1_000, b.n as int);
    crate::laws::words::nearest_is_nearest(a, n);
    let q = words::nearest(a, n);
    assert(q <= a + 1) by (nonlinear_arith)
        requires
            2 * (q * n - a) <= n,
            n >= 1,
            a >= 0,
    ;
}

/// What is told of one feed changes no other's lag.
pub proof fn lags_are_the_feeds_own(
    m: Map<Seq<char>, Behind>,
    source: Seq<char>,
    behind_ns: u128,
    other: Seq<char>,
)
    requires
        other != source,
        behind_ns / 1_000 <= u64::MAX,
    ensures
        ({
            let a = race::lagged(m, source, behind_ns);
            let us = (behind_ns / 1_000) as u64;
            &&& race::lag_of(a, source) == race::lag_of(m, source).after(us)
            &&& race::lag_of(a, other) == race::lag_of(m, other)
            &&& us * 1_000 <= behind_ns < (us + 1) * 1_000
        }),
{
}

/// A transaction that is delivered again tells how long after the first time it came, and
/// changes nothing; one that is new is remembered with its time.
pub proof fn a_second_delivery_tells_the_delay(
    v: SeenView,
    tx: Seq<char>,
    first_ns: u128,
    again_ns: u128,
)
    requires
        !v.order.contains(tx),
        0 < first_ns <= again_ns,
        v.wf(),
    ensures
        ({
            let (a, new) = v.delivered(tx, first_ns);
            &&& new is None
            &&& a.delivered(tx, again_ns).1 == Some((again_ns - first_ns) as u128)
            &&& a.delivered(tx, again_ns).0 == a
        }),
{
    let (a, _) = v.delivered(tx, first_ns);
    assert(a.order[a.order.len() - 1] == tx);
}

/// What is remembered after some deliveries, one after another.
pub open spec fn after_deliveries(v: SeenView, txs: Seq<Seq<char>>) -> SeenView
    decreases txs.len(),
{
    if txs.len() == 0 {
        v
    } else {
        after_deliveries(v, txs.drop_last()).delivered(txs.last(), 0).0
    }
}

/// A transaction is remembered until as many others came as there is room for.
pub proof fn a_transaction_is_remembered(v: SeenView, txs: Seq<Seq<char>>, i: int)
    requires
        v.wf(),
        0 <= i < v.order.len(),
        v.cap >= 1,
        txs.len() + (v.order.len() - i) <= v.cap,
    ensures
        after_deliveries(v, txs).order.contains(v.order[i]),
        after_deliveries(v, txs).wf(),
        exists|j: int|
            0 <= j < after_deliveries(v, txs).order.len() && #[trigger] after_deliveries(
                v,
                txs,
            ).order[j] == v.order[i] && after_deliveries(v, txs).order.len() - j <= v.order.len()
                - i + txs.len(),
        after_deliveries(v, txs).cap == v.cap,
    decreases txs.len(),
{
    if txs.len() == 0 {
        assert(v.order[i] == v.order[i]);
    } else {
        let before = txs.drop_last();
        a_transaction_is_remembered(v, before, i);
        let b = after_deliveries(v, before);
        let a = after_deliveries(v, txs);
        let j = choose|j: int|
            0 <= j < b.order.len() && #[trigger] b.order[j] == v.order[i] && b.order.len() - j
                <= v.order.len() - i + before.len();
        race::memory_stays_bounded(b, txs.last(), 0);
        if b.order.contains(txs.last()) {
            assert(a.order[j] == v.order[i]);
        } else if b.order.len() >= b.cap {
            assert(j >= 1);
            assert(a.order[j - 1] == b.order[j]);
        } else {
            assert(a.order[j] == b.order[j]);
        }
    }
}

/// The median of some margins is one of them and the only one that is: as many stand before it,
/// when they are sorted, as half of them come to.
pub proof fn the_median_is_the_middle(v: Seq<u64>, x: u64, y: u64, s: Seq<u64>)
    requires
        race::is_median(x, v),
        race::is_median(y, v),
        crate::sorting::sorts(s, v),
    ensures
        x == y,
        v.contains(x),
        v.len() > 0,
        x == s[v.len() as int / 2],
{
    let a = choose|a: Seq<u64>| #[trigger]
        crate::sorting::sorts(a, v) && a.len() == v.len() && v.len() > 0 && x == a[a.len() as int
            / 2];
    let b = choose|b: Seq<u64>| #[trigger]
        crate::sorting::sorts(b, v) && b.len() == v.len() && v.len() > 0 && y == b[b.len() as int
            / 2];
    crate::laws::sorting::there_is_one_way_to_sort(a, b, v);
    crate::laws::sorting::there_is_one_way_to_sort(a, s, v);
    assert(a.contains(x));
}

} // verus!
