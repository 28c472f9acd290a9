//! How long the venue takes, by name of what was timed.

use vstd::prelude::*;
use crate::digest;
use crate::digest::{Digest, DigestView};
use crate::json;
use crate::json::{fixed_json, put, text_json, Json, JsonView};
use crate::sorting;
use crate::table::Table;
use crate::text;
use crate::text::owned;
use crate::units::Qty;

verus! {

/// A digest for each name.
pub struct Latency {
    series: Table<String, Digest>,
}

impl View for Latency {
    type V = Map<Seq<char>, DigestView>;

    closed spec fn view(&self) -> Map<Seq<char>, DigestView> {
        timed(self.series@)
    }
}

/// What these digests say.
spec fn timed(m: Map<Seq<char>, Digest>) -> Map<Seq<char>, DigestView> {
    m.map_values(|d: Digest| d@)
}

/// The digest of a name.
pub open spec fn series_of(m: Map<Seq<char>, DigestView>, name: Seq<char>) -> DigestView {
    if m.contains_key(name) {
        m[name]
    } else {
        digest::nothing()
    }
}

/// After a time was offered under a name.
pub open spec fn recorded(
    m: Map<Seq<char>, DigestView>,
    name: Seq<char>,
    us: Qty,
    at: u128,
) -> Map<Seq<char>, DigestView> {
    m.insert(name, series_of(m, name).pushed(us, at))
}

/// After the times of all paths were offered.
pub open spec fn paths_recorded(
    m: Map<Seq<char>, DigestView>,
    paths: Seq<(String, Qty)>,
    at: u128,
) -> Map<Seq<char>, DigestView>
    decreases paths.len(),
{
    if paths.len() == 0 {
        m
    } else {
        recorded(
            paths_recorded(m, paths.drop_last(), at),
            "path."@ + paths.last().0@,
            paths.last().1,
            at,
        )
    }
}

/// Whether anything was timed under a name.
pub open spec fn is_timed(m: Map<Seq<char>, DigestView>, name: Seq<char>) -> bool {
    m.contains_key(name) && m[name].n > 0
}

/// The median of what was timed under a name.
pub open spec fn median(m: Map<Seq<char>, DigestView>, name: Seq<char>) -> Option<int> {
    if is_timed(m, name) {
        Some(m[name].percentile(500_000))
    } else {
        None
    }
}

/// What the venue adds: the median of orders over that of bare requests; not known
/// before both were timed.
pub open spec fn venue(m: Map<Seq<char>, DigestView>) -> Option<int> {
    match (median(m, "order"@), median(m, "baseline"@)) {
        (Some(a), Some(b)) => Some(a - b),
        _ => None,
    }
}

/// Whether every digest is sound.
pub open spec fn sound(m: Map<Seq<char>, DigestView>) -> bool {
    forall|k: Seq<char>| #[trigger] m.contains_key(k) ==> m[k].wf()
}

/// The names of fields.
pub open spec fn names_of(f: Seq<(Seq<char>, JsonView)>) -> Seq<Seq<char>> {
    f.map_values(|e: (Seq<char>, JsonView)| e.0)
}

/// Whether `f` tells of all that was timed: each name once, in order, with its digest.
pub open spec fn tells(m: Map<Seq<char>, DigestView>, f: Seq<(Seq<char>, JsonView)>) -> bool {
    &&& sorting::in_order(names_of(f))
    &&& forall|i: int|
        0 <= i < f.len() ==> is_timed(m, (#[trigger] f[i]).0) && digest::says(m[f[i].0], f[i].1)
    &&& forall|k: Seq<char>| #[trigger] is_timed(m, k) ==> names_of(f).contains(k)
}

impl Latency {
    #[verifier::type_invariant]
    spec fn inv(self) -> bool {
        sound(self@)
    }

    /// Nothing was timed yet.
    pub fn new() -> (r: Self)
        ensures
            r@ == Map::<Seq<char>, DigestView>::empty(),
            sound(r@),
    {
        let r = Latency { series: Table::new() };
        assert(r@ =~= Map::<Seq<char>, DigestView>::empty());
        r
    }

    /// Takes a time of so many microseconds under a name.
    pub fn record(&mut self, name: &str, us: Qty, at: u128)
        ensures
            final(self)@ == recorded(old(self)@, name@, us, at),
            sound(final(self)@),
    {
        proof {
            use_type_invariant(&*self);
        }
        let ghost start = self@;
        let key = owned(name);
        let mut series: Table<String, Digest> = Table::new();
        std::mem::swap(&mut series, &mut self.series);
        let ghost before = series@;
        match series.find(&key) {
            Some(i) => {
                assert(start.contains_key(name@));
                assert(series@.contains_key(series.keys()[i as int]));
                series.at_mut(i).push(us, at);
            },
            None => {
                let mut d = Digest::new();
                d.push(us, at);
                series.push(key, d);
            },
        }
        assert(timed(series@) =~= recorded(timed(before), name@, us, at));
        self.series = series;
    }

    /// The median of what was timed under a name, in millionths of a millisecond.
    pub fn p50(&self, name: &str) -> (r: Option<u128>)
        ensures
            match median(self@, name@) {
                Some(v) => r matches Some(x) && x == v && x <= 1_000 * u64::MAX,
                None => r is None,
            },
    {
        proof {
            use_type_invariant(self);
        }
        match self.series.get(&owned(name)) {
            Some(d) => {
                assert(self@.contains_key(name@));
                assert(self@[name@] == d@);
                if d.n() == 0 {
                    return None;
                }
                Some(d.pct(500_000))
            },
            None => None,
        }
    }

    /// Takes the time of an order, and that of each path it was sent over.
    pub fn record_order(&mut self, winner: Qty, per_path: &[(String, Qty)], at: u128)
        ensures
            final(self)@ == paths_recorded(
                recorded(old(self)@, "order"@, winner, at),
                per_path@,
                at,
            ),
            sound(final(self)@),
    {
        self.record("order", winner, at);
        let ghost start = self@;
        for i in 0..per_path.len()
            invariant
                sound(self@),
                self@ == paths_recorded(start, per_path@.take(i as int), at),
        {
            assert(per_path@.take(i + 1).drop_last() =~= per_path@.take(i as int));
            let mut name = owned("path.");
            name.append(per_path[i].0.as_str());
            self.record(name.as_str(), per_path[i].1, at);
        }
        assert(per_path@.take(per_path@.len() as int) =~= per_path@);
    }

    /// What was timed under a name, for a status page.
    pub fn stats(&self, name: &str) -> (r: Option<Json>)
        ensures
            r is Some == is_timed(self@, name@),
            r matches Some(j) ==> digest::says(self@[name@], j@),
    {
        proof {
            use_type_invariant(self);
        }
        match self.series.get(&owned(name)) {
            Some(d) => {
                assert(self@.contains_key(name@));
                assert(self@[name@] == d@);
                if d.n() == 0 {
                    return None;
                }
                Some(d.json())
            },
            None => None,
        }
    }

    /// What the venue adds, in millionths of a millisecond; it may be negative. See
    /// [`venue`].
    pub fn venue_ms(&self) -> (r: Option<i128>)
        ensures
            match venue(self@) {
                Some(v) => r matches Some(x) && x == v,
                None => r is None,
            },
    {
        match (self.p50("order"), self.p50("baseline")) {
            (Some(a), Some(b)) => Some(a as i128 - b as i128),
            _ => None,
        }
    }

    /// All that was timed, for a status page.
    pub fn snapshot(&self) -> (r: Json)
        ensures
            r@ matches JsonView::Fields(f) && f.len() == 3 && f[0].0 == "series"@ && (
            f[0].1 matches JsonView::Fields(s) && tells(self@, s)) && f[1] == (
                "venue_ms"@,
                match venue(self@) {
                    Some(v) => JsonView::Number(text::fixed(v, 6, 2)),
                    None => JsonView::Null,
                },
            ) && f[2] == (
                "note"@,
                JsonView::Text(
                    "order/baseline/path.* are RAW RTT and are NETWORK-BOUND — only comparable within one machine+route. venue_ms is the differential."@,
                ),
            ),
    {
        proof {
            use_type_invariant(self);
        }
        let ghost m = self@;
        let n = self.series.len();
        let ghost keys = self.series.keys();
        let mut all: Vec<String> = Vec::new();
        for i in 0..n
            invariant
                n == self.series.keys().len(),
                keys == self.series.keys(),
                text::texts(all@) == keys.take(i as int),
        {
            let ghost before = text::texts(all@);
            all.push(self.series.key_at(i).clone());
            assert(text::texts(all@) =~= before.push(keys[i as int]));
            assert(before.push(keys[i as int]) =~= keys.take(i + 1));
        }
        assert(keys.take(keys.len() as int) =~= keys);
        let names = sorting::distinct_in_order(all.as_slice());
        let ghost order = text::texts(names@);
        let mut s = json::no_fields();
        assert(names_of(json::shown_fields(s@)) =~= timed_of(m, order.take(0)));
        for i in 0..names.len()
            invariant
                sound(self@),
                m == self@,
                order == text::texts(names@),
                names_of(json::shown_fields(s@)) == timed_of(m, order.take(i as int)),
                forall|j: int|
                    0 <= j < json::shown_fields(s@).len() ==> is_timed(
                        m,
                        (#[trigger] json::shown_fields(s@)[j]).0,
                    ) && digest::says(
                        m[json::shown_fields(s@)[j].0],
                        json::shown_fields(s@)[j].1,
                    ),
        {
            assert(order.take(i + 1).drop_last() =~= order.take(i as int));
            let ghost before = json::shown_fields(s@);
            if let Some(j) = self.stats(names[i].as_str()) {
                let ghost v = j@;
                put(&mut s, names[i].as_str(), j);
                assert(names_of(json::shown_fields(s@)) =~= names_of(before).push(order[i as int]));
            }
        }
        assert(order.take(order.len() as int) =~= order);
        proof {
            timed_in_order(m, order);
            let f = json::shown_fields(s@);
            assert forall|k: Seq<char>| #[trigger] is_timed(m, k) implies names_of(f).contains(
                k,
            ) by {
                assert(self.series@.contains_key(k));
                assert(keys.contains(k));
                assert(order.contains(k));
                timed_covers(m, order, k);
            }
        }
        let venue = match self.venue_ms() {
            Some(v) => fixed_json(v, 6, 2),
            None => Json::Null,
        };
        let mut f = json::no_fields();
        put(&mut f, "series", Json::Fields(s));
        put(&mut f, "venue_ms", venue);
        put(
            &mut f,
            "note",
            text_json(
                "order/baseline/path.* are RAW RTT and are NETWORK-BOUND — only comparable within one machine+route. venue_ms is the differential.",
            ),
        );
        Json::Fields(f)
    }
}

/// Those of these names under which anything was timed.
spec fn timed_of(m: Map<Seq<char>, DigestView>, names: Seq<Seq<char>>) -> Seq<Seq<char>>
    decreases names.len(),
{
    if names.len() == 0 {
        Seq::empty()
    } else if is_timed(m, names.last()) {
        timed_of(m, names.drop_last()).push(names.last())
    } else {
        timed_of(m, names.drop_last())
    }
}

proof fn timed_are_some(m: Map<Seq<char>, DigestView>, names: Seq<Seq<char>>, i: int)
    requires
        0 <= i < timed_of(m, names).len(),
    ensures
        names.contains(timed_of(m, names)[i]),
    decreases names.len(),
{
    if names.len() > 0 {
        let before = timed_of(m, names.drop_last());
        if i < before.len() {
            timed_are_some(m, names.drop_last(), i);
            let k = names.drop_last().index_of(before[i]);
            assert(names[k] == before[i]);
        } else {
            assert(names[names.len() - 1] == names.last());
        }
    }
}

proof fn timed_in_order(m: Map<Seq<char>, DigestView>, names: Seq<Seq<char>>)
    requires
        sorting::in_order(names),
    ensures
        sorting::in_order(timed_of(m, names)),
    decreases names.len(),
{
    if names.len() > 0 {
        let rest = names.drop_last();
        assert(sorting::in_order(rest)) by {
            assert forall|i: int, j: int| 0 <= i < j < rest.len() implies sorting::before(
                #[trigger] rest[i],
                #[trigger] rest[j],
            ) by {
                assert(rest[i] == names[i] && rest[j] == names[j]);
            }
        }
        timed_in_order(m, rest);
        let t = timed_of(m, names);
        let before = timed_of(m, rest);
        if is_timed(m, names.last()) {
            assert forall|i: int, j: int| 0 <= i < j < t.len() implies sorting::before(
                #[trigger] t[i],
                #[trigger] t[j],
            ) by {
                assert(t[i] == before[i]);
                if j < before.len() {
                    assert(t[j] == before[j]);
                } else {
                    timed_are_some(m, rest, i);
                    let k = rest.index_of(before[i]);
                    assert(names[k] == before[i]);
                    assert(names[names.len() - 1] == names.last());
                }
            }
        }
    }
}

proof fn timed_covers(m: Map<Seq<char>, DigestView>, names: Seq<Seq<char>>, k: Seq<char>)
    requires
        names.contains(k),
        is_timed(m, k),
    ensures
        timed_of(m, names).contains(k),
    decreases names.len(),
{
    let t = timed_of(m, names);
    if names.last() == k {
        assert(t[t.len() - 1] == k);
    } else {
        let i = names.index_of(k);
        assert(names.drop_last()[i] == k);
        timed_covers(m, names.drop_last(), k);
        let before = timed_of(m, names.drop_last());
        let j = before.index_of(k);
        assert(t[j] == k);
    }
}

impl Default for Latency {
    fn default() -> (r: Self)
        ensures
            r@ == Map::<Seq<char>, DigestView>::empty(),
            sound(r@),
    {
        Latency::new()
    }
}

/// The series of a probe and what it took: one that failed counts as a millisecond.
pub open spec fn sampled(ok: bool, us: i64) -> (Seq<char>, Qty) {
    if ok {
        ("baseline"@, Qty::Finite(us))
    } else {
        ("baseline.err"@, Qty::Finite(1_000))
    }
}

/// The name and the time under which a probe of the venue is recorded: how long it took
/// where it was answered well, else a millisecond under a name of its own.
pub fn probe_sample(ok: bool, us: i64) -> (r: (&'static str, Qty))
    ensures
        r.0@ == (if ok {
            "baseline"@
        } else {
            "baseline.err"@
        }),
        r.1 == (if ok {
            Qty::Finite(us)
        } else {
            Qty::Finite(1_000)
        }),
        (r.0@, r.1) == sampled(ok, us),
{
    if ok {
        ("baseline", Qty::Finite(us))
    } else {
        ("baseline.err", Qty::Finite(1_000))
    }
}

/// One name's times never change what is known of another.
pub proof fn series_are_apart(
    m: Map<Seq<char>, DigestView>,
    name: Seq<char>,
    other: Seq<char>,
    us: Qty,
    at: u128,
)
    requires
        name != other,
    ensures
        median(recorded(m, name, us, at), other) == median(m, other),
{
}

} // verus!
