//! What a digest tells of the times that it took.

use vstd::prelude::*;
use crate::digest;
use crate::digest::{DigestView, OutlierView};
use crate::units::Qty;
use crate::words;

verus! {

/// The mean is the nearest to what the sum comes to.
pub proof fn the_mean_is_the_sum_divided(d: DigestView)
    requires
        d.n > 0,
    ensures
        -d.n < 2 * (d.average() * d.n - d.sum * 1_000) <= d.n,
{
    crate::laws::words::nearest_is_nearest(d.sum * 1_000, d.n);
}

/// A time adds itself to the sum and its square to the squares, and counts once, in its class;
/// nothing is below the least or above the most.
pub proof fn a_time_is_taken_whole(d: DigestView, us: i64, at: u128, c: int)
    requires
        us >= 0,
        d.n < u64::MAX,
        d.hist.len() == 80,
        0 <= c < 80,
        0 <= digest::class_of(us as int) < 80,
        d.hist[digest::class_of(us as int)] < u32::MAX,
    ensures
        ({
            let a = d.pushed(Qty::Finite(us), at);
            &&& a.n - d.n == 1
            &&& a.sum - d.sum == us
            &&& a.squares - d.squares == us * us
            &&& a.min <= us <= a.max
            &&& a.min <= d.min && (a.min == d.min || a.min == us)
            &&& a.max >= d.max && (a.max == d.max || a.max == us)
            &&& a.hist[c] - d.hist[c] == (if c == digest::class_of(us as int) {
                1int
            } else {
                0
            })
        }),
{
}

/// A time stands out only once thirty were taken, and then exactly where it is over the mean by
/// more than three deviations, or, where all were alike, more than twice as long.
pub proof fn what_stands_out_is_far_over_the_mean(d: DigestView, us: int, at: u128)
    ensures
        ({
            let over = d.n * us - d.sum;
            let o = d.stands_out(us, at);
            &&& d.n < 30 ==> o is None
            &&& d.n >= 30 && d.spread() > 0 ==> (o is Some <==> over > 0 && over * over * (d.n - 1)
                > 9 * d.n * d.spread())
            &&& d.n >= 30 && d.spread() <= 0 ==> (o is Some <==> d.sum > 0 && d.n * us > 2 * d.sum)
            &&& d.spread() == d.n * d.squares - d.sum * d.sum
            &&& o matches Some(x) ==> x.at == at
        }),
{
}

/// What stands out is kept, the newest sixty-four, and counted.
pub proof fn what_stands_out_is_kept(d: DigestView, o: OutlierView)
    requires
        d.out.len() <= 64,
        0 <= d.next < 64,
        d.total < u64::MAX,
    ensures
        ({
            let a = d.with_outlier(Some(o));
            &&& a.out.contains(o)
            &&& a.total == d.total + 1
            &&& a.out.len() == (if d.out.len() < 64 {
                d.out.len() + 1
            } else {
                64
            })
            &&& a.n == d.n && a.sum == d.sum
        }),
        d.with_outlier(None) == d,
{
    let a = d.with_outlier(Some(o));
    if d.out.len() < 64 {
        assert(a.out[d.out.len() as int] == o);
    } else {
        assert(a.out[d.next] == o);
    }
}

/// The rank of a part of so many is the least number that is no less than that part, and one at
/// the least.
pub proof fn a_rank_is_rounded_up(part: int, n: int)
    requires
        part >= 0,
        n > 0,
    ensures
        digest::rank_of(part, n) >= 1,
        part * n <= digest::rank_of(part, n) * 1_000_000,
        digest::rank_of(part, n) > 1 ==> (digest::rank_of(part, n) - 1) * 1_000_000 < part * n,
{
}

/// A percentile is the edge of the first class up to which as many times are counted as the
/// rank asks.
pub proof fn a_percentile_is_in_its_class(d: DigestView, part: int, i: int)
    requires
        d.n > 0,
        digest::class_with(d.hist, digest::rank_of(part, d.n), 0) == Some(i),
    ensures
        d.percentile(part) == digest::edge_of(i) * 1_000,
        0 <= i < d.hist.len(),
        digest::up_to_class(d.hist, i + 1) >= digest::rank_of(part, d.n),
        forall|j: int|
            0 <= j < i ==> #[trigger] digest::up_to_class(d.hist, j + 1) < digest::rank_of(
                part,
                d.n,
            ),
{
    the_first_class(d.hist, digest::rank_of(part, d.n), 0, i);
}

proof fn the_first_class(hist: Seq<u32>, want: int, from: int, i: int)
    requires
        0 <= from,
        digest::class_with(hist, want, from) == Some(i),
    ensures
        from <= i < hist.len(),
        digest::up_to_class(hist, i + 1) >= want,
        forall|j: int| from <= j < i ==> #[trigger] digest::up_to_class(hist, j + 1) < want,
    decreases hist.len() - from,
{
    if from < hist.len() && digest::up_to_class(hist, from + 1) < want {
        the_first_class(hist, want, from + 1, i);
    }
}

/// The deviation, in thousandths of a microsecond, is the root of the mean square of what the
/// times are off their mean, rounded down: its square is no more than that, and the next
/// number's is.
pub proof fn the_deviation_is_a_root(d: DigestView, r: int)
    requires
        d.n >= 2,
        0 <= r < 1_000_000_000_000_000_000_000_000_000_000,
        digest::is_root(
            r,
            words::nearest(d.spread() * 1_000_000, d.n * (d.n - 1)),
        ),
    ensures
        d.deviation() == r,
{
    let v = words::nearest(d.spread() * 1_000_000, d.n * (d.n - 1));
    let s = digest::root(v);
    assert(digest::is_root(s, v));
    if s < r {
        assert((s + 1) * (s + 1) <= r * r) by (nonlinear_arith)
            requires
                0 <= s < r,
        ;
    }
    if r < s {
        assert((r + 1) * (r + 1) <= s * s) by (nonlinear_arith)
            requires
                0 <= r < s,
        ;
    }
}

/// A time that stands out is told in thousandths of a microsecond, with the deviations that it is
/// over the mean by, in millionths, where the times spread, and with none where they do not.
pub proof fn how_far_a_time_stands_out(d: DigestView, us: u64, at: u128, r: int)
    requires
        d.stands_out(us as int, at) is Some,
        0 <= r < 1_000_000_000_000_000_000_000_000_000_000,
        d.spread() > 0 ==> digest::is_root(
            r,
            words::nearest(
                (d.n * us - d.sum) * (d.n * us - d.sum) * (d.n - 1) * 1_000_000_000_000,
                d.n * d.spread(),
            ),
        ),
    ensures
        d.stands_out(us as int, at) matches Some(o) && o.ms == 1_000 * us && o.sigma == (
        if d.spread() > 0 {
            r
        } else {
            0
        }) && o.by == (if d.spread() > 0 {
            "sigma"@
        } else {
            "ratio"@
        }),
{
    if d.spread() > 0 {
        let v = words::nearest(
            (d.n * us - d.sum) * (d.n * us - d.sum) * (d.n - 1) * 1_000_000_000_000,
            d.n * d.spread(),
        );
        let s = digest::root(v);
        assert(digest::is_root(s, v));
        if s < r {
            assert((s + 1) * (s + 1) <= r * r) by (nonlinear_arith)
                requires
                    0 <= s < r,
            ;
        }
        if r < s {
            assert((r + 1) * (r + 1) <= s * s) by (nonlinear_arith)
                requires
                    0 <= r < s,
            ;
        }
    }
}

} // verus!
