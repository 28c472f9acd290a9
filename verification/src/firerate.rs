//! How often a lane fires, and whether it has copied more than it should.

use vstd::prelude::*;
use crate::units;
use crate::units::Qty;

verus! {

/// The length of the window, in seconds.
pub const WINDOW_SECS: i64 = 30;

/// How many fires within the window are too many.
pub const DEFAULT_LIMIT: usize = 10;

/// How many lanes there can be.
pub const MAX_LANES: usize = 256;

/// By what factor a copy may exceed what was intended, in millionths.
pub const OVERCOPY_TOLERANCE: i64 = 1_500_000;

/// Whether we have copied more than the tolerance allows of what the leader filled.
/// Where the leader's fill, our copy or the intended part says nothing, we have not.
pub open spec fn overcopied(his: Qty, ours: Qty, intended_frac: int, tolerance: int) -> bool {
    match (his, ours) {
        (Qty::Finite(h), Qty::Finite(o)) => h > 0 && intended_frac > 0 && o * units::ONE * units::ONE
            > h * intended_frac * tolerance,
        _ => false,
    }
}

/// Whether we have copied too much; see [`overcopied`].
pub fn is_overcopy(his_filled: Qty, our_copied: Qty, intended_frac: i64, tolerance: i64) -> (r:
    bool)
    ensures
        r == overcopied(his_filled, our_copied, intended_frac as int, tolerance as int),
{
    match (his_filled, our_copied) {
        (Qty::Finite(h), Qty::Finite(o)) => {
            if h <= 0 || intended_frac <= 0 {
                return false;
            }
            let share = units::product(h, intended_frac);
            assert(share > 0) by (nonlinear_arith)
                requires
                    share == h * intended_frac,
                    h > 0,
                    intended_frac > 0,
            ;
            let copied: i128 = o as i128 * 1_000_000_000_000;
            let bar: Option<i128> = share.checked_mul(tolerance as i128);
            match bar {
                Some(b) => copied > b,
                None => {
                    proof {
                        let t = tolerance as int;
                        assert(t > 0 ==> share * t > 0) by (nonlinear_arith)
                            requires
                                share > 0,
                        ;
                        assert(t <= 0 ==> share * t <= 0) by (nonlinear_arith)
                            requires
                                share > 0,
                        ;
                    }
                    tolerance < 0
                },
            }
        },
        _ => false,
    }
}

/// When each lane has fired.
pub struct FireRate {
    fires: Vec<Vec<i64>>,
    limit: usize,
}

/// When each lane has fired, and how many fires are too many.
#[verifier::ext_equal]
pub struct FireRateView {
    pub fires: Seq<Seq<i64>>,
    pub limit: nat,
}

/// The contents of a list of lists.
pub open spec fn rows(v: Seq<Vec<i64>>) -> Seq<Seq<i64>> {
    v.map_values(|q: Vec<i64>| q@)
}

impl View for FireRate {
    type V = FireRateView;

    closed spec fn view(&self) -> FireRateView {
        FireRateView { fires: rows(self.fires@), limit: self.limit as nat }
    }
}

/// The fires without the leading ones that have left the window.
pub open spec fn within(q: Seq<i64>, now: int) -> Seq<i64>
    decreases q.len(),
{
    if q.len() > 0 && q[0] <= now - WINDOW_SECS {
        within(q.skip(1), now)
    } else {
        q
    }
}

/// `fires`, with empty rows up to `n` of them.
pub open spec fn grown(fires: Seq<Seq<i64>>, n: int) -> Seq<Seq<i64>> {
    if n <= fires.len() {
        fires
    } else {
        fires + Seq::new((n - fires.len()) as nat, |i: int| Seq::<i64>::empty())
    }
}

impl FireRateView {
    /// After a fire of a lane.
    pub open spec fn fired(self, lane: int, now: int) -> FireRateView {
        if lane >= self.fires.len() && lane >= MAX_LANES {
            self
        } else {
            let g = grown(self.fires, lane + 1);
            FireRateView {
                fires: g.update(lane, within(g[lane].push(now as i64), now)),
                ..self
            }
        }
    }

    /// Whether a fire of a lane is one too many. A lane beyond all bounds always is.
    pub open spec fn trips(self, lane: int, now: int) -> bool {
        if lane >= self.fires.len() && lane >= MAX_LANES {
            true
        } else {
            self.fired(lane, now).fires[lane].len() >= self.limit
        }
    }
}

fn drop_old(q: &Vec<i64>, now: i64) -> (r: Vec<i64>)
    ensures
        r@ == within(q@, now as int),
{
    let cutoff: i128 = now as i128 - WINDOW_SECS as i128;
    let mut i: usize = 0;
    assert(q@.skip(0) =~= q@);
    while i < q.len() && q[i] as i128 <= cutoff
        invariant
            cutoff == now - WINDOW_SECS,
            i <= q@.len(),
            within(q@, now as int) == within(q@.skip(i as int), now as int),
        decreases q@.len() - i,
    {
        assert(q@.skip(i as int).skip(1) =~= q@.skip(i + 1));
        i = i + 1;
    }
    let mut out: Vec<i64> = Vec::new();
    for k in i..q.len()
        invariant
            i <= q@.len(),
            out@ == q@.subrange(i as int, k as int),
    {
        out.push(q[k]);
        assert(q@.subrange(i as int, k + 1) =~= q@.subrange(i as int, k as int).push(q@[k as int]));
    }
    assert(out@ =~= q@.skip(i as int));
    out
}

impl FireRate {
    /// No fires yet.
    pub fn new(lanes: usize, limit: usize) -> (r: Self)
        ensures
            r@ == FireRateView::fresh(lanes as nat, limit as nat),
    {
        let mut fires: Vec<Vec<i64>> = Vec::new();
        for i in 0..lanes
            invariant
                rows(fires@) == Seq::new(i as nat, |k: int| Seq::<i64>::empty()),
        {
            let ghost before = rows(fires@);
            fires.push(Vec::new());
            assert(rows(fires@) =~= before.push(Seq::<i64>::empty()));
            assert(before.push(Seq::<i64>::empty()) =~= Seq::new(
                (i + 1) as nat,
                |k: int| Seq::<i64>::empty(),
            ));
        }
        let r = FireRate { fires, limit };
        assert(r@ =~= FireRateView::fresh(lanes as nat, limit as nat));
        r
    }

    /// Takes a fire of a lane in; whether it is one too many.
    pub fn record(&mut self, lane_ix: usize, now: i64) -> (r: bool)
        ensures
            final(self)@ == old(self)@.fired(lane_ix as int, now as int),
            r == old(self)@.trips(lane_ix as int, now as int),
    {
        let ghost before = self@;
        if lane_ix >= self.fires.len() && lane_ix >= MAX_LANES {
            return true;
        }
        while self.fires.len() <= lane_ix
            invariant
                lane_ix < self.fires@.len() || lane_ix < MAX_LANES,
                self@.limit == before.limit,
                before.fires.len() <= self.fires@.len(),
                self.fires@.len() <= units::larger(before.fires.len() as int, lane_ix + 1),
                self@.fires == grown(before.fires, self.fires@.len() as int),
            decreases lane_ix + 1 - self.fires@.len(),
        {
            let ghost had = self@.fires;
            self.fires.push(Vec::new());
            assert(self@.fires =~= had.push(Seq::<i64>::empty()));
            assert(had.push(Seq::<i64>::empty()) =~= grown(
                before.fires,
                self.fires@.len() as int,
            ));
        }
        let ghost g = self@.fires;
        assert(g =~= grown(before.fires, lane_ix + 1));
        let mut q: Vec<i64> = Vec::new();
        std::mem::swap(&mut q, &mut self.fires[lane_ix]);
        assert(q@ == g[lane_ix as int]);
        q.push(now);
        let q = drop_old(&q, now);
        let n = q.len();
        let ghost qv = q@;
        self.fires[lane_ix] = q;
        assert(self@.fires =~= g.update(lane_ix as int, qv));
        assert(self@ =~= before.fired(lane_ix as int, now as int));
        n >= self.limit
    }

    /// How many fires of a lane lie within the window.
    pub fn count(&mut self, lane_ix: usize, now: i64) -> (r: usize)
        ensures
            r == old(self)@.counted(lane_ix as int, now as int),
            final(self)@ == old(self)@.swept(lane_ix as int, now as int),
    {
        let ghost before = self@;
        if lane_ix >= self.fires.len() {
            return 0;
        }
        let q = drop_old(&self.fires[lane_ix], now);
        let n = q.len();
        let ghost qv = q@;
        self.fires[lane_ix] = q;
        assert(self@.fires =~= before.fires.update(lane_ix as int, qv));
        n
    }

    /// How many fires within the window are too many.
    pub fn limit(&self) -> (r: usize)
        ensures
            r == self@.limit,
    {
        self.limit
    }
}

/// A fire of one lane leaves the fires of every other lane as they were.
pub proof fn lanes_are_independent(f: FireRateView, lane: int, now: int, other: int)
    requires
        0 <= lane,
        0 <= other < f.fires.len(),
        other != lane,
    ensures
        f.fired(lane, now).fires[other] == f.fires[other],
{
}

/// Once all fires of a lane have left the window, its next fire is its first: it does
/// not trip a limit of two or more.
pub proof fn window_expires(f: FireRateView, lane: int, now: int)
    requires
        0 <= lane < f.fires.len(),
        forall|i: int| 0 <= i < f.fires[lane].len() ==> f.fires[lane][i] <= now - WINDOW_SECS,
        f.limit >= 2,
        i64::MIN <= now <= i64::MAX,
    ensures
        !f.trips(lane, now),
{
    let q = f.fires[lane];
    expired_prefix(q, now);
}

proof fn expired_prefix(q: Seq<i64>, now: int)
    requires
        forall|i: int| 0 <= i < q.len() ==> q[i] <= now - WINDOW_SECS,
        i64::MIN <= now <= i64::MAX,
    ensures
        within(q.push(now as i64), now).len() == 1,
    decreases q.len(),
{
    if q.len() > 0 {
        assert(q.push(now as i64).skip(1) =~= q.skip(1).push(now as i64));
        expired_prefix(q.skip(1), now);
    } else {
        assert(q.push(now as i64)[0] == now);
    }
}

/// A call that a lane's fires are told by.
pub enum Call {
    Record { lane: int, at: i64 },
    Count { lane: int, at: i64 },
}

impl Call {
    /// The lane that it is about.
    pub open spec fn lane(self) -> int {
        match self {
            Call::Record { lane, .. } => lane,
            Call::Count { lane, .. } => lane,
        }
    }

    /// When it was made.
    pub open spec fn at(self) -> i64 {
        match self {
            Call::Record { at, .. } => at,
            Call::Count { at, .. } => at,
        }
    }
}

impl FireRateView {
    /// No fires yet.
    pub open spec fn fresh(lanes: nat, limit: nat) -> FireRateView {
        FireRateView { fires: Seq::new(lanes, |i: int| Seq::<i64>::empty()), limit }
    }

    /// How many fires of a lane lie within the window.
    pub open spec fn counted(self, lane: int, now: int) -> int {
        if lane >= self.fires.len() {
            0
        } else {
            within(self.fires[lane], now).len() as int
        }
    }

    /// After the fires of a lane were counted.
    pub open spec fn swept(self, lane: int, now: int) -> FireRateView {
        if lane >= self.fires.len() {
            self
        } else {
            FireRateView { fires: self.fires.update(lane, within(self.fires[lane], now)), ..self }
        }
    }

    /// After one call.
    pub open spec fn called(self, c: Call) -> FireRateView {
        match c {
            Call::Record { lane, at } => self.fired(lane, at as int),
            Call::Count { lane, at } => self.swept(lane, at as int),
        }
    }

    /// After these calls.
    pub open spec fn after(self, calls: Seq<Call>) -> FireRateView
        decreases calls.len(),
    {
        if calls.len() == 0 {
            self
        } else {
            self.after(calls.drop_last()).called(calls.last())
        }
    }
}

/// How many fires of a lane were recorded by these calls after `cut`.
pub open spec fn fires_after(calls: Seq<Call>, lane: int, cut: int) -> int
    decreases calls.len(),
{
    if calls.len() == 0 {
        0
    } else {
        let before = fires_after(calls.drop_last(), lane, cut);
        match calls.last() {
            Call::Record { lane: l, at } => if l == lane && at > cut {
                before + 1
            } else {
                before
            },
            Call::Count { .. } => before,
        }
    }
}

/// Whether the calls about a lane were made in the order of their times, none after `now`.
pub open spec fn in_time(calls: Seq<Call>, lane: int, now: int) -> bool {
    &&& forall|i: int|
        0 <= i < calls.len() && (#[trigger] calls[i]).lane() == lane ==> calls[i].at() <= now
    &&& forall|i: int, j: int|
        0 <= i < j < calls.len() && (#[trigger] calls[i]).lane() == lane && (
        #[trigger] calls[j]).lane() == lane ==> calls[i].at() <= calls[j].at()
}

/// How many of these times are after `cut`.
spec fn above(q: Seq<i64>, cut: int) -> int
    decreases q.len(),
{
    if q.len() == 0 {
        0
    } else {
        above(q.drop_last(), cut) + (if q.last() > cut {
            1int
        } else {
            0int
        })
    }
}

spec fn sorted(q: Seq<i64>) -> bool {
    forall|i: int, j: int| 0 <= i <= j < q.len() ==> q[i] <= q[j]
}

proof fn above_front(q: Seq<i64>, cut: int)
    requires
        q.len() > 0,
    ensures
        above(q, cut) == above(q.skip(1), cut) + (if q[0] > cut {
            1int
        } else {
            0int
        }),
    decreases q.len(),
{
    if q.len() > 1 {
        above_front(q.drop_last(), cut);
        assert(q.drop_last().skip(1) =~= q.skip(1).drop_last());
        assert(q.skip(1).last() == q.last());
    } else {
        assert(q.drop_last() =~= Seq::<i64>::empty());
        assert(q.skip(1) =~= Seq::<i64>::empty());
    }
}

proof fn all_above(q: Seq<i64>, cut: int)
    requires
        forall|i: int| 0 <= i < q.len() ==> q[i] > cut,
    ensures
        above(q, cut) == q.len(),
    decreases q.len(),
{
    if q.len() > 0 {
        all_above(q.drop_last(), cut);
    }
}

proof fn window_facts(q: Seq<i64>, now: int)
    requires
        sorted(q),
    ensures
        sorted(within(q, now)),
        within(q, now).len() == above(q, now - WINDOW_SECS),
        forall|cut: int|
            cut >= now - WINDOW_SECS ==> #[trigger] above(within(q, now), cut) == above(q, cut),
        forall|i: int| 0 <= i < within(q, now).len() ==> q.contains(#[trigger] within(q, now)[i]),
    decreases q.len(),
{
    if q.len() > 0 && q[0] <= now - WINDOW_SECS {
        let rest = q.skip(1);
        window_facts(rest, now);
        above_front(q, now - WINDOW_SECS);
        assert forall|cut: int| cut >= now - WINDOW_SECS implies #[trigger] above(
            within(q, now),
            cut,
        ) == above(q, cut) by {
            above_front(q, cut);
        }
        assert forall|i: int| 0 <= i < within(q, now).len() implies q.contains(
            #[trigger] within(q, now)[i],
        ) by {
            let x = within(q, now)[i];
            assert(within(rest, now)[i] == x);
            let k = rest.index_of(x);
            assert(q[k + 1] == x);
        }
    } else {
        all_above(q, now - WINDOW_SECS);
    }
}

/// The times of a lane that are still held.
spec fn row(f: FireRateView, lane: int) -> Seq<i64> {
    if lane < f.fires.len() {
        f.fires[lane]
    } else {
        Seq::empty()
    }
}

proof fn rows_follow(calls: Seq<Call>, lanes: nat, limit: nat, lane: int, now: int)
    requires
        in_time(calls, lane, now),
        0 <= lane < units::larger(lanes as int, MAX_LANES as int),
        forall|i: int| 0 <= i < calls.len() ==> (#[trigger] calls[i]).lane() >= 0,
    ensures
        ({
            let f = FireRateView::fresh(lanes, limit).after(calls);
            let q = row(f, lane);
            &&& f.limit == limit
            &&& lanes <= f.fires.len() <= units::larger(lanes as int, MAX_LANES as int)
            &&& sorted(q)
            &&& forall|i: int| 0 <= i < q.len() ==> q[i] <= now
            &&& forall|cut: int|
                cut >= now - WINDOW_SECS ==> #[trigger] above(q, cut) == fires_after(
                    calls,
                    lane,
                    cut,
                )
        }),
    decreases calls.len(),
{
    if calls.len() > 0 {
        let rest = calls.drop_last();
        let c = calls.last();
        assert(c == calls[calls.len() - 1]);
        assert forall|i: int| 0 <= i < rest.len() implies (#[trigger] rest[i]).lane() >= 0 by {
            assert(rest[i] == calls[i]);
        }
        let then: int = if c.lane() == lane {
            c.at() as int
        } else {
            now
        };
        assert(in_time(rest, lane, then)) by {
            assert forall|i: int| 0 <= i < rest.len() && (#[trigger] rest[i]).lane()
                == lane implies rest[i].at() <= then by {
                assert(rest[i] == calls[i]);
            }
            assert forall|i: int, j: int|
                0 <= i < j < rest.len() && (#[trigger] rest[i]).lane() == lane && (
                #[trigger] rest[j]).lane() == lane implies rest[i].at() <= rest[j].at() by {
                assert(rest[i] == calls[i] && rest[j] == calls[j]);
            }
        }
        rows_follow(rest, lanes, limit, lane, then);
        let g = FireRateView::fresh(lanes, limit).after(rest);
        let f = FireRateView::fresh(lanes, limit).after(calls);
        let p = row(g, lane);
        let q = row(f, lane);
        if c.lane() == lane {
            match c {
                Call::Record { at, .. } => {
                    let r = p.push(at);
                    assert(sorted(r));
                    assert(grown(g.fires, lane + 1)[lane] =~= p);
                    window_facts(r, at as int);
                    assert(q == within(r, at as int));
                    assert(r.drop_last() =~= p);
                    assert forall|cut: int| cut >= now - WINDOW_SECS implies #[trigger] above(
                        q,
                        cut,
                    ) == fires_after(calls, lane, cut) by {
                        assert(above(within(r, at as int), cut) == above(r, cut));
                        assert(above(p, cut) == fires_after(rest, lane, cut));
                    }
                },
                Call::Count { at, .. } => {
                    window_facts(p, at as int);
                    assert forall|cut: int| cut >= now - WINDOW_SECS implies #[trigger] above(
                        q,
                        cut,
                    ) == fires_after(calls, lane, cut) by {
                        assert(above(within(p, at as int), cut) == above(p, cut));
                        assert(above(p, cut) == fires_after(rest, lane, cut));
                    }
                },
            }
        } else {
            assert(q =~= p);
            assert forall|cut: int| cut >= now - WINDOW_SECS implies #[trigger] above(q, cut)
                == fires_after(calls, lane, cut) by {
                assert(above(p, cut) == fires_after(rest, lane, cut));
            }
        }
    } else {
        let f = FireRateView::fresh(lanes, limit).after(calls);
        assert(row(f, lane) =~= Seq::<i64>::empty());
    }
}

/// The limit trips exactly when that many fires of the lane, this one included, lie inside
/// the window, whatever was recorded and counted before; a lane beyond all bounds always
/// trips, and leaves everything as it was.
pub proof fn limit_trips_exactly(
    calls: Seq<Call>,
    lanes: nat,
    limit: nat,
    lane: int,
    now: i64,
)
    requires
        0 <= lane,
        in_time(calls, lane, now as int),
        forall|i: int| 0 <= i < calls.len() ==> (#[trigger] calls[i]).lane() >= 0,
    ensures
        ({
            let f = FireRateView::fresh(lanes, limit).after(calls);
            if lane >= lanes && lane >= MAX_LANES {
                f.trips(lane, now as int) && f.fired(lane, now as int) == f
            } else {
                f.trips(lane, now as int) <==> fires_after(calls, lane, now - WINDOW_SECS) + 1
                    >= limit
            }
        }),
{
    let f = FireRateView::fresh(lanes, limit).after(calls);
    if lane >= lanes && lane >= MAX_LANES {
        lanes_stay_few(calls, lanes, limit);
    } else {
        rows_follow(calls, lanes, limit, lane, now as int);
        let p = row(f, lane);
        let r = p.push(now);
        assert(grown(f.fires, lane + 1)[lane] =~= p);
        assert(sorted(r));
        window_facts(r, now as int);
        assert(r.drop_last() =~= p);
        assert(above(p, now - WINDOW_SECS) == fires_after(calls, lane, now - WINDOW_SECS));
    }
}

proof fn lanes_stay_few(calls: Seq<Call>, lanes: nat, limit: nat)
    requires
        forall|i: int| 0 <= i < calls.len() ==> (#[trigger] calls[i]).lane() >= 0,
    ensures
        FireRateView::fresh(lanes, limit).after(calls).fires.len() <= units::larger(
            lanes as int,
            MAX_LANES as int,
        ),
    decreases calls.len(),
{
    if calls.len() > 0 {
        let rest = calls.drop_last();
        assert forall|i: int| 0 <= i < rest.len() implies (#[trigger] rest[i]).lane() >= 0 by {
            assert(rest[i] == calls[i]);
        }
        lanes_stay_few(rest, lanes, limit);
        assert(calls.last() == calls[calls.len() - 1]);
    }
}

/// What is counted of a lane is left as it was by a fire of another, also where that makes
/// room for more lanes.
pub proof fn count_is_the_lanes_own(f: FireRateView, lane: int, at: int, other: int, now: int)
    requires
        0 <= lane,
        0 <= other,
        other != lane,
    ensures
        f.fired(lane, at).counted(other, now) == f.counted(other, now),
{
    let g = f.fired(lane, at);
    if f.fires.len() <= other < g.fires.len() {
        assert(g.fires[other] =~= Seq::<i64>::empty());
    }
}

} // verus!
