//! What the ledger's file says of the past: times, keys, the course of what was
//! realised, and whether the file still begins as it did.

use vstd::prelude::*;
use crate::calendar;
use crate::calendar::year_start_secs;
use crate::digests;
use crate::json;
use crate::json::Json;
use crate::ledger;
use crate::ledger::{read_rows, LaneBook, Ledger, LedgerView};
use crate::risk;
use crate::risk::RiskConfig;
use crate::rows;
use crate::rows::Row;
use crate::table::Table;
use crate::text;
use crate::text::{dec_u128, owned};
use crate::units;
use crate::units::{diff_of, sum_of};

verus! {

/// Whether a row says this under a name.
pub open spec fn says(j: Json, name: Seq<char>, what: Seq<char>) -> bool {
    json::text_in(json::field(j, name)) == Some(what)
}

fn says_so(j: &Json, name: &str, what: &str) -> (r: bool)
    ensures
        r == says(*j, name@, what@),
{
    match j.text_at(name) {
        Some(s) => text::same(s.as_str(), what),
        None => false,
    }
}

/// The time of a row that resets what was realised.
pub open spec fn reset_time(j: Json) -> Option<i64> {
    if says(j, "ev"@, "realised_reset"@) {
        json::signed_in(json::field(j, "t"@))
    } else {
        None
    }
}

/// The time of a row of a lane, if it has one.
pub open spec fn lane_time(j: Json, lane: Seq<char>) -> Option<i64> {
    match json::signed_in(json::field(j, "t"@)) {
        Some(t) => if says(j, "lane"@, lane) && t > 0 {
            Some(t)
        } else {
            None
        },
        None => None,
    }
}

/// Whether a row takes shares out of a lane to follow the chain.
pub open spec fn is_release(j: Json) -> bool {
    &&& says(j, "ev"@, "fill"@)
    &&& json::unsigned_in(json::field(j, "side"@)) == Some(1u64)
    &&& json::bool_in(json::field(j, "recon"@)) == Some(true)
}

fn releases_shares(j: &Json) -> (r: bool)
    ensures
        r == is_release(*j),
{
    let side = match j.unsigned_at("side") {
        Some(v) => v == 1,
        None => false,
    };
    let recon = match j.bool_at("recon") {
        Some(b) => b,
        None => false,
    };
    says_so(j, "ev", "fill") && side && recon
}

/// What a row says of shares, price and time.
pub open spec fn release_of(j: Json) -> (i64, i64, i64) {
    let r = rows::read_row(j);
    (r.shares, r.price, r.t)
}

/// The last release of a token by a lane that is not older than `not_before`.
pub open spec fn last_release(
    docs: Seq<Json>,
    lane: Seq<char>,
    token: Seq<char>,
    not_before: i64,
) -> Option<(i64, i64, i64)>
    decreases docs.len(),
{
    if docs.len() == 0 {
        None
    } else {
        let j = docs.last();
        if is_release(j) && says(j, "lane"@, lane) && says(j, "token"@, token) && release_of(j).2
            >= not_before {
            Some(release_of(j))
        } else {
            last_release(docs.drop_last(), lane, token, not_before)
        }
    }
}

/// Whether some row gives this key, under either of the two names for keys.
pub open spec fn has_key(docs: Seq<Json>, key: Seq<char>) -> bool {
    exists|i: int| 0 <= i < docs.len() && gives_key(#[trigger] docs[i], key)
}

/// Whether a row gives this key, under either of the two names for keys.
pub open spec fn gives_key(j: Json, key: Seq<char>) -> bool {
    says(j, "key"@, key) || says(j, "alt_key"@, key)
}

/// Whether some row gives this key under the first of the names.
pub open spec fn has_main_key(docs: Seq<Json>, key: Seq<char>) -> bool {
    exists|i: int| 0 <= i < docs.len() && says(#[trigger] docs[i], "key"@, key)
}

/// The last release of each token by each lane.
pub open spec fn all_releases(docs: Seq<Json>) -> Map<(Seq<char>, Seq<char>), (i64, i64, i64)>
    decreases docs.len(),
{
    if docs.len() == 0 {
        Map::empty()
    } else {
        let before = all_releases(docs.drop_last());
        let j = docs.last();
        match (json::text_in(json::field(j, "lane"@)), json::text_in(json::field(j, "token"@))) {
            (Some(lane), Some(token)) => if is_release(j) {
                before.insert((lane, token), release_of(j))
            } else {
                before
            },
            _ => before,
        }
    }
}

/// What two texts of the file say to the settlement of redemptions: the keys that
/// are booked, and the last release of each token.
pub fn scan_for_settlement(raw: &str) -> (r: (
    Table<String, ()>,
    Table<(String, String), (i64, i64, i64)>,
))
    ensures
        forall|k: Seq<char>| #[trigger]
            r.0@.contains_key(k) == has_main_key(
                ledger::documents(text::lines_of(raw@)),
                k,
            ),
        r.1@ == all_releases(ledger::documents(text::lines_of(raw@))),
{
    let docs = read_rows(raw);
    let mut keys: Table<String, ()> = Table::new();
    let mut found: Table<(String, String), (i64, i64, i64)> = Table::new();
    for i in 0..docs.len()
        invariant
            forall|k: Seq<char>| #[trigger]
                keys@.contains_key(k) == has_main_key(docs@.take(i as int), k),
            found@ == all_releases(docs@.take(i as int)),
    {
        let j = &docs[i];
        let ghost old_keys = keys@;
        let ghost head = docs@.take(i as int);
        let ghost more = docs@.take(i + 1);
        assert(more.drop_last() =~= head);
        assert(more.last() == *j);
        if let Some(k) = j.text_at("key") {
            keys.insert(k, ());
        }
        proof {
            assert forall|k: Seq<char>| #[trigger]
                keys@.contains_key(k) == has_main_key(more, k) by {
                if has_main_key(head, k) {
                    let n = choose|n: int| 0 <= n < head.len() && says(#[trigger] head[n], "key"@, k);
                    assert(says(more[n], "key"@, k));
                }
                if says(*j, "key"@, k) {
                    assert(says(more[i as int], "key"@, k));
                }
                if has_main_key(more, k) {
                    let n = choose|n: int| 0 <= n < more.len() && says(#[trigger] more[n], "key"@, k);
                    if n < i {
                        assert(says(head[n], "key"@, k));
                    }
                }
            }
        }
        if releases_shares(j) {
            match (j.text_at("lane"), j.text_at("token")) {
                (Some(lane), Some(token)) => {
                    let row = Row::read(j);
                    found.insert((lane, token), (row.shares, row.price, row.t));
                },
                _ => {},
            }
        }
    }
    assert(docs@.take(docs@.len() as int) =~= docs@);
    (keys, found)
}

/// Whether `r` is the largest of the times that `f` finds in the rows.
pub open spec fn is_newest(docs: Seq<Json>, r: Option<i64>) -> bool {
    match r {
        Some(m) => (exists|i: int| 0 <= i < docs.len() && reset_time(#[trigger] docs[i]) == Some(m))
            && forall|i: int|
            0 <= i < docs.len() ==> (reset_time(#[trigger] docs[i]) matches Some(t) ==> t <= m),
        None => forall|i: int| 0 <= i < docs.len() ==> reset_time(#[trigger] docs[i]) is None,
    }
}

/// Whether `r` is the smallest time of a row of the lane.
pub open spec fn is_oldest(docs: Seq<Json>, lane: Seq<char>, r: Option<i64>) -> bool {
    match r {
        Some(m) => (exists|i: int|
            0 <= i < docs.len() && lane_time(#[trigger] docs[i], lane) == Some(m)) && forall|i: int|
            0 <= i < docs.len() ==> (lane_time(#[trigger] docs[i], lane) matches Some(t) ==> m
                <= t),
        None => forall|i: int| 0 <= i < docs.len() ==> lane_time(#[trigger] docs[i], lane) is None,
    }
}

impl Ledger {
    /// The time of the newest reset of what was realised.
    pub fn newest_realised_reset_t(raw: &str) -> (r: Option<i64>)
        ensures
            is_newest(ledger::documents(text::lines_of(raw@)), r),
    {
        let docs = read_rows(raw);
        let mut best: Option<i64> = None;
        for i in 0..docs.len()
            invariant
                is_newest(docs@.take(i as int), best),
        {
            let ghost head = docs@.take(i as int);
            let ghost more = docs@.take(i + 1);
            let ghost was = best;
            assert forall|k: int| 0 <= k < i implies more[k] == head[k] by {}
            assert(more[i as int] == docs@[i as int]);
            if says_so(&docs[i], "ev", "realised_reset") {
                if let Some(t) = docs[i].signed_at("t") {
                    best = match best {
                        Some(b) => if t > b {
                            Some(t)
                        } else {
                            Some(b)
                        },
                        None => Some(t),
                    };
                }
            }
            proof {
                if best is Some && was is Some && best == was {
                    let n = choose|n: int|
                        0 <= n < head.len() && reset_time(#[trigger] head[n]) == was;
                    assert(reset_time(more[n]) == best);
                }
                assert forall|k: int| 0 <= k < more.len() implies (
                reset_time(#[trigger] more[k]) matches Some(t) ==> best matches Some(b) && t
                    <= b) by {
                    if k < i {
                        assert(reset_time(head[k]) == reset_time(more[k]));
                    }
                }
            }
        }
        assert(docs@.take(docs@.len() as int) =~= docs@);
        best
    }

    /// The time of the oldest row of a lane.
    pub fn lane_epoch(raw: &str, lane: &str) -> (r: Option<i64>)
        ensures
            is_oldest(ledger::documents(text::lines_of(raw@)), lane@, r),
    {
        let docs = read_rows(raw);
        let mut best: Option<i64> = None;
        for i in 0..docs.len()
            invariant
                is_oldest(docs@.take(i as int), lane@, best),
        {
            let ghost head = docs@.take(i as int);
            let ghost more = docs@.take(i + 1);
            let ghost was = best;
            assert forall|k: int| 0 <= k < i implies more[k] == head[k] by {}
            assert(more[i as int] == docs@[i as int]);
            if says_so(&docs[i], "lane", lane) {
                if let Some(t) = docs[i].signed_at("t") {
                    if t > 0 {
                        best = match best {
                            Some(b) => if t < b {
                                Some(t)
                            } else {
                                Some(b)
                            },
                            None => Some(t),
                        };
                    }
                }
            }
            proof {
                if best is Some && was is Some && best == was {
                    let n = choose|n: int|
                        0 <= n < head.len() && lane_time(#[trigger] head[n], lane@) == was;
                    assert(lane_time(more[n], lane@) == best);
                }
                assert forall|k: int| 0 <= k < more.len() implies (
                lane_time(#[trigger] more[k], lane@) matches Some(t) ==> best matches Some(b) && b
                    <= t) by {
                    if k < i {
                        assert(lane_time(head[k], lane@) == lane_time(more[k], lane@));
                    }
                }
            }
        }
        assert(docs@.take(docs@.len() as int) =~= docs@);
        best
    }

    /// Every key under which a correction is booked.
    pub fn corrected_keys(raw: &str) -> (r: Table<String, ()>)
        ensures
            forall|k: Seq<char>| #[trigger]
                r@.contains_key(k) == has_key(ledger::documents(text::lines_of(raw@)), k),
    {
        let docs = read_rows(raw);
        let mut keys: Table<String, ()> = Table::new();
        for i in 0..docs.len()
            invariant
                forall|k: Seq<char>| #[trigger]
                    keys@.contains_key(k) == has_key(docs@.take(i as int), k),
        {
            let j = &docs[i];
            let ghost head = docs@.take(i as int);
            let ghost more = docs@.take(i + 1);
            if let Some(k) = j.text_at("key") {
                keys.insert(k, ());
            }
            if let Some(k) = j.text_at("alt_key") {
                keys.insert(k, ());
            }
            proof {
                assert forall|k: Seq<char>| #[trigger]
                    keys@.contains_key(k) == has_key(more, k) by {
                    if has_key(head, k) {
                        let n = choose|n: int| 0 <= n < head.len() && gives_key(#[trigger] head[n], k);
                        assert(gives_key(more[n], k));
                    }
                    if gives_key(*j, k) {
                        assert(gives_key(more[i as int], k));
                    }
                    if has_key(more, k) {
                        let n = choose|n: int| 0 <= n < more.len() && gives_key(#[trigger] more[n], k);
                        if n < i {
                            assert(gives_key(head[n], k));
                        }
                    }
                }
            }
        }
        assert(docs@.take(docs@.len() as int) =~= docs@);
        keys
    }

    /// The last release of a token by a lane: shares, price and time.
    pub fn last_recon_release(raw: &str, lane: &str, token: &str, not_before: i64) -> (r: Option<
        (i64, i64, i64),
    >)
        ensures
            r == last_release(
                ledger::documents(text::lines_of(raw@)),
                lane@,
                token@,
                not_before,
            ),
    {
        let docs = read_rows(raw);
        let mut found: Option<(i64, i64, i64)> = None;
        for i in 0..docs.len()
            invariant
                found == last_release(docs@.take(i as int), lane@, token@, not_before),
        {
            let j = &docs[i];
            assert(docs@.take(i + 1).drop_last() =~= docs@.take(i as int));
            if releases_shares(j) && says_so(j, "lane", lane) && says_so(j, "token", token) {
                let row = Row::read(j);
                if row.t >= not_before {
                    found = Some((row.shares, row.price, row.t));
                }
            }
        }
        assert(docs@.take(docs@.len() as int) =~= docs@);
        found
    }
}

/// An amount in units of twelve places, rounded half away from zero to whole cents
/// and given in millionths.
pub open spec fn cents(x: int) -> int {
    if x < 0 {
        -((-x + 5_000_000_000) / 10_000_000_000 * 10_000)
    } else {
        (x + 5_000_000_000) / 10_000_000_000 * 10_000
    }
}

fn to_cents(x: i128) -> (r: i128)
    requires
        units::in_range(x as int),
    ensures
        r == cents(x as int),
        -units::AMOUNT_CAP <= r <= units::AMOUNT_CAP,
{
    let a: i128 = if x < 0 {
        -x
    } else {
        x
    };
    let near: i128 = if a % 10_000_000_000 >= 5_000_000_000 {
        a / 10_000_000_000 + 1
    } else {
        a / 10_000_000_000
    };
    assert(near == (a + 5_000_000_000) / 10_000_000_000);
    if x < 0 {
        -(near * 10_000)
    } else {
        near * 10_000
    }
}

/// How far a replay of the file has come.
#[verifier::ext_equal]
pub struct Course {
    pub ledger: LedgerView,
    pub order: Seq<Seq<char>>,
    pub series: Seq<(i64, i128)>,
}

/// What these lanes have realised together, summed in their order.
pub open spec fn realised_by(l: LedgerView, order: Seq<Seq<char>>) -> int
    decreases order.len(),
{
    if order.len() == 0 {
        0
    } else {
        units::clip(realised_by(l, order.drop_last()) + l.lanes[order.last()].risk.realised_pnl)
    }
}

/// A series with one more point; a second point of the same moment replaces it.
pub open spec fn plotted(series: Seq<(i64, i128)>, t: i64, total: i128) -> Seq<(i64, i128)> {
    if series.len() > 0 && series.last().0 == t {
        series.update(series.len() - 1, (t, total))
    } else {
        series.push((t, total))
    }
}

impl Course {
    /// The lane of a row comes to be when its first row comes.
    pub open spec fn with_lane(self, lane: Seq<char>, now: int) -> Course {
        if self.ledger.lanes.contains_key(lane) {
            self
        } else {
            Course {
                ledger: LedgerView {
                    lanes: self.ledger.lanes.insert(
                        lane,
                        ledger::fresh_lane(lane, risk::no_limits(), now),
                    ),
                    ..self.ledger
                },
                order: self.order.push(lane),
                ..self
            }
        }
    }

    /// What is realised: by the one lane, or by all.
    pub open spec fn total(self, lane: Option<Seq<char>>) -> int {
        match lane {
            Some(name) => self.ledger.lanes[name].risk.realised_pnl,
            None => realised_by(self.ledger, self.order),
        }
    }

    /// After one row. A row without a lane says nothing; a row of another lane or
    /// without a time moves the books and adds no point.
    pub open spec fn after(self, j: Json, lane: Option<Seq<char>>, now: int) -> Course {
        let r = rows::read_row(j);
        if r.lane.len() == 0 {
            self
        } else {
            let w = self.with_lane(r.lane, now);
            let next = Course { ledger: w.ledger.applied(r, now), ..w };
            if (lane matches Some(name) && name != r.lane) || r.t <= 0 {
                next
            } else {
                Course {
                    series: plotted(next.series, r.t, cents(units::clip(next.total(lane))) as i128),
                    ..next
                }
            }
        }
    }
}

/// A replay that has not begun.
pub open spec fn no_course() -> Course {
    Course { ledger: ledger::nowhere(Seq::empty()), order: Seq::empty(), series: Seq::empty() }
}

/// A replay of these rows.
pub open spec fn course(docs: Seq<Json>, lane: Option<Seq<char>>, now: int) -> Course
    decreases docs.len(),
{
    if docs.len() == 0 {
        no_course()
    } else {
        course(docs.drop_last(), lane, now).after(docs.last(), lane, now)
    }
}

fn sum_realised(l: &Ledger) -> (r: i128)
    ensures
        r == realised_by(l@, l.lanes.keys()),
        units::in_range(r as int),
{
    let n = l.lanes.len();
    let ghost keys = l.lanes.keys();
    let mut acc: i128 = 0;
    for i in 0..n
        invariant
            n == keys.len(),
            keys == l.lanes.keys(),
            l.lanes.aligned(),
            acc == realised_by(l@, keys.take(i as int)),
            units::in_range(acc as int),
    {
        let b = l.lanes.val_at(i);
        assert(keys.take(i + 1).drop_last() =~= keys.take(i as int));
        assert(l.lanes@.contains_key(keys[i as int]));
        assert(l@.lanes[keys[i as int]] == b@);
        acc = sum_of(acc, b.risk.realised_pnl);
    }
    assert(keys.take(keys.len() as int) =~= keys);
    acc
}

/// The course of what was realised, by one lane or by all: a replay of the file with
/// a point for every moment at which a row came.
#[verifier::rlimit(50)]
pub fn equity_series_at(raw: &str, lane: Option<&str>, now: i64) -> (r: Vec<(i64, i128)>)
    ensures
        r@ == course(
            ledger::documents(text::lines_of(raw@)),
            match lane {
                Some(s) => Some(s@),
                None => None,
            },
            now as int,
        ).series,
{
    let docs = read_rows(raw);
    let ghost name = match lane {
        Some(s) => Some(s@),
        None => None,
    };
    let mut scratch = Ledger::empty("");
    let mut out: Vec<(i64, i128)> = Vec::new();
    proof {
        reveal_strlit("");
        assert(""@ =~= Seq::<char>::empty());
    }
    for i in 0..docs.len()
        invariant
            name == (match lane {
                Some(s) => Some(s@),
                None => None,
            }),
            (Course { ledger: scratch@, order: scratch.lanes.keys(), series: out@ }) == course(
                docs@.take(i as int),
                name,
                now as int,
            ),
    {
        let ghost before = Course {
            ledger: scratch@,
            order: scratch.lanes.keys(),
            series: out@,
        };
        assert(docs@.take(i + 1).drop_last() =~= docs@.take(i as int));
        let row = Row::read(&docs[i]);
        let chars = text::chars_of(row.lane.as_str());
        if chars.len() > 0 {
            if !scratch.lanes.has(&row.lane) {
                let fresh = LaneBook::fresh(row.lane.as_str(), RiskConfig::default(), now);
                let ghost f = fresh@;
                scratch.lanes.push(row.lane.clone(), fresh);
                assert(scratch@.lanes =~= before.ledger.lanes.insert(row@.lane, f));
                assert(scratch@ =~= before.with_lane(row@.lane, now as int).ledger);
            }
            assert((Course { ledger: scratch@, order: scratch.lanes.keys(), series: out@ })
                =~= before.with_lane(row@.lane, now as int));
            scratch.apply(&row, now);
            let ghost next = Course {
                ledger: scratch@,
                order: scratch.lanes.keys(),
                series: out@,
            };
            let ours = match lane {
                Some(s) => text::same(s, row.lane.as_str()),
                None => true,
            };
            if ours && row.t > 0 {
                assert(scratch@.lanes.contains_key(row@.lane));
                assert(scratch.lanes@.contains_key(row@.lane));
                let total = match lane {
                    Some(_) => match scratch.lanes.get(&row.lane) {
                        Some(b) => {
                            assert(next.ledger.lanes[row@.lane] == b@);
                            units::clip_of(b.risk.realised_pnl)
                        },
                        None => 0,
                    },
                    None => sum_realised(&scratch),
                };
                assert(total == units::clip(next.total(name)));
                let value = to_cents(total);
                let n = out.len();
                if n > 0 && out[n - 1].0 == row.t {
                    out.set(n - 1, (row.t, value));
                } else {
                    out.push((row.t, value));
                }
                assert(out@ =~= plotted(next.series, row.t, value));
            }
        }
        assert((Course { ledger: scratch@, order: scratch.lanes.keys(), series: out@ })
            =~= before.after(docs@[i as int], name, now as int));
    }
    assert(docs@.take(docs@.len() as int) =~= docs@);
    out
}

/// What was realised over a number of windows that end now, in millionths rounded to
/// cents.
#[derive(Debug, Clone, Copy, PartialEq, Eq, Structural)]
pub struct RealisedWindows {
    pub total: i128,
    pub d1: i128,
    pub d7: i128,
    pub d30: i128,
    pub ytd: i128,
    pub y1: i128,
}

/// The value of a series at a moment: that of its last point not after it.
pub open spec fn value_at(series: Seq<(i64, i128)>, cutoff: int) -> int
    decreases series.len(),
{
    if series.len() == 0 {
        0
    } else if series.last().0 <= cutoff {
        series.last().1 as int
    } else {
        value_at(series.drop_last(), cutoff)
    }
}

/// The last value of a series.
pub open spec fn end_value(series: Seq<(i64, i128)>) -> int {
    if series.len() == 0 {
        0
    } else {
        series.last().1 as int
    }
}

/// Millionths rounded half away from zero to whole cents.
pub open spec fn micro_cents(x: int) -> int {
    if x < 0 {
        units::clip(-((-x + 5_000) / 10_000 * 10_000))
    } else {
        units::clip((x + 5_000) / 10_000 * 10_000)
    }
}

/// What was realised since a moment.
pub open spec fn since(series: Seq<(i64, i128)>, cutoff: int) -> int {
    micro_cents(units::clip(end_value(series) - value_at(series, cutoff)))
}

fn round_micro(x: i128) -> (r: i128)
    requires
        units::in_range(x as int),
    ensures
        r == micro_cents(x as int),
{
    let a: i128 = if x < 0 {
        -x
    } else {
        x
    };
    let low: i128 = a / 10_000 * 10_000;
    let near = if a % 10_000 >= 5_000 {
        sum_of(low, 10_000)
    } else {
        low
    };
    assert(near == units::clip((a + 5_000) / 10_000 * 10_000));
    if x < 0 {
        -near
    } else {
        near
    }
}

fn window(series: &[(i64, i128)], cutoff: i64) -> (r: i128)
    ensures
        r == since(series@, cutoff as int),
{
    let total: i128 = if series.len() > 0 {
        series[series.len() - 1].1
    } else {
        0
    };
    let mut i: usize = series.len();
    let mut at: i128 = 0;
    assert(series@.take(series@.len() as int) =~= series@);
    while i > 0
        invariant_except_break
            at == 0,
            value_at(series@, cutoff as int) == value_at(series@.take(i as int), cutoff as int),
        invariant
            i <= series@.len(),
        ensures
            at == value_at(series@, cutoff as int),
        decreases i,
    {
        assert(series@.take(i as int).drop_last() =~= series@.take(i - 1));
        if series[i - 1].0 <= cutoff {
            at = series[i - 1].1;
            break;
        }
        i = i - 1;
    }
    round_micro(diff_of(total, at))
}

/// Whether `r` are the windows of a series: what was realised in all, in the last day,
/// week, month and year, and since the year began.
pub open spec fn windows(series: Seq<(i64, i128)>, now: int, r: RealisedWindows) -> bool {
    &&& r.total == micro_cents(units::clip(end_value(series)))
    &&& r.d1 == since(series, now - 86_400)
    &&& r.d7 == since(series, now - 7 * 86_400)
    &&& r.d30 == since(series, now - 30 * 86_400)
    &&& exists|year: int|
        r.ytd == since(series, #[trigger] calendar::first_day(year) * 86_400)
            && calendar::first_day(year) <= calendar::day_of(now) < calendar::first_day(year + 1)
    &&& r.y1 == since(series, now - 365 * 86_400)
}

impl Ledger {
    /// The windows of what a file says was realised, by one lane or by all.
    pub fn realised_windows_at(raw: &str, lane: Option<&str>, now: i64) -> (r: RealisedWindows)
        requires
            now >= i64::MIN + 400 * 86_400,
        ensures
            windows(
                course(
                    ledger::documents(text::lines_of(raw@)),
                    match lane {
                        Some(s) => Some(s@),
                        None => None,
                    },
                    now as int,
                ).series,
                now as int,
                r,
            ),
    {
        let series = equity_series_at(raw, lane, now);
        RealisedWindows::from_series(series.as_slice(), now)
    }
}

impl RealisedWindows {
    /// The windows of a series; see [`windows`].
    pub fn from_series(series: &[(i64, i128)], now: i64) -> (r: RealisedWindows)
        requires
            now >= i64::MIN + 400 * 86_400,
        ensures
            windows(series@, now as int, r),
    {
        let total: i128 = if series.len() > 0 {
            series[series.len() - 1].1
        } else {
            0
        };
        let start = year_start_secs(now);
        RealisedWindows {
            total: round_micro(units::clip_of(total)),
            d1: window(series, now - 86_400),
            d7: window(series, now - 7 * 86_400),
            d30: window(series, now - 30 * 86_400),
            ytd: window(series, start),
            y1: window(series, now - 365 * 86_400),
        }
    }
}

/// How far the file had come when the engine last started.
#[derive(Debug)]
pub struct Continuity {
    pub lines: u64,
    pub bytes: u64,
    pub prefix_sha256: String,
}

/// Whether the file still begins as it did.
#[derive(Debug)]
pub enum ContinuityVerdict {
    FirstRun,
    Intact,
    Broken(String),
}

/// What the record of the last start says.
#[derive(Debug)]
pub enum Prior {
    Absent,
    Unreadable,
    Found(Continuity),
}

/// A file of this many lines takes long to replay.
pub const LEDGER_GROWTH_ALARM_LINES: u64 = 250_000;

/// The bytes of these lines, each with a line break behind it.
pub open spec fn line_bytes(lines: Seq<Seq<char>>) -> Seq<u8>
    decreases lines.len(),
{
    if lines.len() == 0 {
        Seq::empty()
    } else {
        line_bytes(lines.drop_last()) + vstd::utf8::encode_utf8(lines.last()) + seq![10u8]
    }
}

/// The fingerprint of the first lines of a file.
pub open spec fn prefix_hash(lines: Seq<Seq<char>>, n: int) -> Seq<char> {
    text::hex_of(digests::sha256(line_bytes(lines.take(units::smaller(n, lines.len() as int)))))
}

fn prefix_digest(lines: &Vec<String>, n: u64) -> (r: (String, u64))
    ensures
        r.0@ == prefix_hash(text::texts(lines@), n as int),
        r.1 == units::smaller(n as int, lines@.len() as int),
{
    let ghost all = text::texts(lines@);
    let mut buf: Vec<u8> = Vec::new();
    let mut i: usize = 0;
    while i < lines.len() && (i as u64) < n
        invariant
            i <= lines@.len(),
            i <= n,
            all == text::texts(lines@),
            buf@ == line_bytes(all.take(i as int)),
        decreases lines@.len() - i,
    {
        assert(all.take(i + 1).drop_last() =~= all.take(i as int));
        assert(all.take(i + 1).last() == lines@[i as int]@);
        text::push_bytes(&mut buf, lines[i].as_str().as_bytes());
        buf.push(10u8);
        assert(buf@ =~= line_bytes(all.take(i + 1)));
        i = i + 1;
    }
    let h = digests::sha(buf.as_slice());
    (digests::hex_encode(&h), i as u64)
}

/// How the check of a file against the record of the last start comes out.
pub open spec fn verdict(
    path: Seq<char>,
    prior: Prior,
    raw: Option<Seq<char>>,
    v: ContinuityVerdict,
) -> bool {
    match prior {
        Prior::Absent => v is FirstRun,
        Prior::Unreadable => v matches ContinuityVerdict::Broken(s) && s@
            == "the continuity record itself is unreadable"@,
        Prior::Found(prev) => match raw {
            None => v matches ContinuityVerdict::Broken(s) && s@ == "cannot read "@ + path,
            Some(raw) => {
                let lines = text::lines_of(raw);
                if lines.len() < prev.lines {
                    v matches ContinuityVerdict::Broken(s) && s@ == "the ledger LOST history: "@
                        + text::dec(lines.len()) + " lines now, "@ + text::dec(prev.lines as nat)
                        + " at the last boot"@
                } else if prefix_hash(lines, prev.lines as int) != prev.prefix_sha256@ {
                    v matches ContinuityVerdict::Broken(s) && s@ == "the first "@ + text::dec(
                        prev.lines as nat,
                    )
                        + " lines no longer hash to what they did at the last boot — history was REWRITTEN, not appended to"@
                } else {
                    v is Intact
                }
            },
        },
    }
}

impl Ledger {
    /// How far the file has come: its lines, its bytes and its fingerprint.
    pub fn continuity(raw: &str) -> (r: Continuity)
        ensures
            r.lines == text::lines_of(raw@).len(),
            r.bytes == vstd::utf8::encode_utf8(raw@).len(),
            r.prefix_sha256@ == prefix_hash(
                text::lines_of(raw@),
                text::lines_of(raw@).len() as int,
            ),
    {
        let lines = text::lines(raw);
        let total = lines.len() as u64;
        assert(text::texts(lines@).len() == lines@.len());
        let (prefix_sha256, n) = prefix_digest(&lines, total);
        Continuity { lines: n, bytes: raw.as_bytes().len() as u64, prefix_sha256 }
    }

    /// Holds the file against the record of the last start: it may have grown, and
    /// nothing else.
    pub fn verify_continuity(&self, prior: Prior, raw: Option<&str>) -> (r: ContinuityVerdict)
        ensures
            verdict(
                self.path@,
                prior,
                match raw {
                    Some(s) => Some(s@),
                    None => None,
                },
                r,
            ),
    {
        match prior {
            Prior::Absent => ContinuityVerdict::FirstRun,
            Prior::Unreadable => ContinuityVerdict::Broken(
                owned("the continuity record itself is unreadable"),
            ),
            Prior::Found(prev) => match raw {
                None => {
                    let mut m = owned("cannot read ");
                    m.append(self.path.as_str());
                    ContinuityVerdict::Broken(m)
                },
                Some(raw) => {
                    let lines = text::lines(raw);
                    assert(text::texts(lines@).len() == lines@.len());
                    let total = lines.len() as u64;
                    if total < prev.lines {
                        let mut m = owned("the ledger LOST history: ");
                        m.append(dec_u128(total as u128).as_str());
                        m.append(" lines now, ");
                        m.append(dec_u128(prev.lines as u128).as_str());
                        m.append(" at the last boot");
                        return ContinuityVerdict::Broken(m);
                    }
                    let (digest, _) = prefix_digest(&lines, prev.lines);
                    if !text::same(digest.as_str(), prev.prefix_sha256.as_str()) {
                        let mut m = owned("the first ");
                        m.append(dec_u128(prev.lines as u128).as_str());
                        m.append(
                            " lines no longer hash to what they did at the last boot — history was REWRITTEN, not appended to",
                        );
                        return ContinuityVerdict::Broken(m);
                    }
                    ContinuityVerdict::Intact
                },
            },
        }
    }
}

/// A file that has only grown since its record was made is found intact: its first
/// lines are the ones that the record was made of.
pub proof fn grown_file_is_intact(
    path: Seq<char>,
    old_lines: Seq<Seq<char>>,
    raw: Seq<char>,
    prev: Continuity,
    v: ContinuityVerdict,
)
    requires
        prev.lines == old_lines.len(),
        prev.prefix_sha256@ == prefix_hash(old_lines, old_lines.len() as int),
        old_lines.len() <= text::lines_of(raw).len(),
        text::lines_of(raw).take(old_lines.len() as int) == old_lines,
        verdict(path, Prior::Found(prev), Some(raw), v),
    ensures
        v is Intact,
{
    assert(old_lines.take(old_lines.len() as int) =~= old_lines);
}

/// A file that has lost lines is never found intact.
pub proof fn shorter_file_is_broken(
    path: Seq<char>,
    raw: Seq<char>,
    prev: Continuity,
    v: ContinuityVerdict,
)
    requires
        text::lines_of(raw).len() < prev.lines,
        verdict(path, Prior::Found(prev), Some(raw), v),
    ensures
        v is Broken,
{
}

/// Those of these lines that are rows of one lane.
pub open spec fn lines_of_lane(lines: Seq<Seq<char>>, lane: Seq<char>) -> Seq<Seq<char>>
    decreases lines.len(),
{
    if lines.len() == 0 {
        Seq::empty()
    } else {
        let before = lines_of_lane(lines.drop_last(), lane);
        match json::document(text::trimmed(lines.last())) {
            Some(j) => if rows::read_row(j).lane == lane {
                before.push(lines.last())
            } else {
                before
            },
            None => before,
        }
    }
}

/// Whether two replays agree in what they say of one lane.
spec fn agree(a: Course, b: Course, lane: Seq<char>) -> bool {
    &&& a.series == b.series
    &&& a.ledger.lanes.contains_key(lane) == b.ledger.lanes.contains_key(lane)
    &&& a.ledger.lanes.contains_key(lane) ==> a.ledger.lanes[lane] == b.ledger.lanes[lane]
}

proof fn own_row_keeps_agreement(a: Course, b: Course, j: Json, lane: Seq<char>, now: int)
    requires
        agree(a, b, lane),
        lane.len() > 0,
        rows::read_row(j).lane == lane,
    ensures
        agree(a.after(j, Some(lane), now), b.after(j, Some(lane), now), lane),
{
    let x = a.with_lane(lane, now);
    let y = b.with_lane(lane, now);
    assert(x.ledger.lanes[lane] == y.ledger.lanes[lane]);
}

proof fn other_row_keeps_agreement(a: Course, b: Course, j: Json, lane: Seq<char>, now: int)
    requires
        agree(a, b, lane),
        rows::read_row(j).lane != lane,
    ensures
        agree(a.after(j, Some(lane), now), b, lane),
{
}

proof fn replays_agree(lines: Seq<Seq<char>>, lane: Seq<char>, now: int)
    requires
        lane.len() > 0,
    ensures
        agree(
            course(ledger::documents(lines), Some(lane), now),
            course(ledger::documents(lines_of_lane(lines, lane)), Some(lane), now),
            lane,
        ),
    decreases lines.len(),
{
    if lines.len() > 0 {
        let rest = lines.drop_last();
        replays_agree(rest, lane, now);
        let a = ledger::documents(rest);
        let own = lines_of_lane(rest, lane);
        let b = ledger::documents(own);
        if let Some(j) = json::document(text::trimmed(lines.last())) {
            assert(a.push(j).drop_last() =~= a);
            if rows::read_row(j).lane == lane {
                assert(own.push(lines.last()).drop_last() =~= own);
                assert(b.push(j).drop_last() =~= b);
                own_row_keeps_agreement(
                    course(a, Some(lane), now),
                    course(b, Some(lane), now),
                    j,
                    lane,
                    now,
                );
            } else {
                other_row_keeps_agreement(
                    course(a, Some(lane), now),
                    course(b, Some(lane), now),
                    j,
                    lane,
                    now,
                );
            }
        }
    }
}

/// The series of one lane is told by the lines of that lane alone: rows of other lanes, and
/// lines that are torn, have no part in it.
pub proof fn series_is_the_lanes_own(
    raw: Seq<char>,
    own: Seq<char>,
    lane: Seq<char>,
    now: int,
)
    requires
        lane.len() > 0,
        text::lines_of(own) == lines_of_lane(text::lines_of(raw), lane),
    ensures
        course(ledger::documents(text::lines_of(raw)), Some(lane), now).series == course(
            ledger::documents(text::lines_of(own)),
            Some(lane),
            now,
        ).series,
{
    replays_agree(text::lines_of(raw), lane, now);
}

/// Whether every point of a series has a time, no two that are next to each other the same,
/// and each is a whole number of cents.
pub open spec fn is_plot(series: Seq<(i64, i128)>) -> bool {
    &&& forall|i: int|
        0 <= i < series.len() ==> (#[trigger] series[i]).0 > 0 && series[i].1 as int % 10_000 == 0
    &&& forall|i: int, k: int|
        0 <= i < series.len() && k == i + 1 && k < series.len() ==> (#[trigger] series[i]).0 != (
        #[trigger] series[k]).0
}

proof fn cents_are_whole(x: int)
    requires
        units::in_range(x),
    ensures
        cents(x) as i128 == cents(x),
        cents(x) as i128 as int % 10_000 == 0,
{
    let a = if x < 0 {
        -x
    } else {
        x
    };
    let n = (a + 5_000_000_000) / 10_000_000_000;
    assert((n * 10_000) % 10_000 == 0 && (-(n * 10_000)) % 10_000 == 0);
}

proof fn plot_goes_on(series: Seq<(i64, i128)>, t: i64, total: i128)
    requires
        is_plot(series),
        t > 0,
        total as int % 10_000 == 0,
    ensures
        is_plot(plotted(series, t, total)),
{
    let p = plotted(series, t, total);
    assert forall|i: int, k: int|
        0 <= i < p.len() && k == i + 1 && k < p.len() implies (#[trigger] p[i]).0 != (
    #[trigger] p[k]).0 by {
        assert(p[i].0 == series[i].0);
        if k < series.len() {
            assert(p[k].0 == series[k].0);
        }
    }
}

/// Every point of a series has a time, no two that are next to each other the same, and each
/// is a whole number of cents; of no rows there is no point.
pub proof fn series_is_in_cents(docs: Seq<Json>, lane: Option<Seq<char>>, now: int)
    ensures
        is_plot(course(docs, lane, now).series),
        docs.len() == 0 ==> course(docs, lane, now).series.len() == 0,
    decreases docs.len(),
{
    if docs.len() > 0 {
        series_is_in_cents(docs.drop_last(), lane, now);
        let before = course(docs.drop_last(), lane, now);
        point_goes_on(before, docs.last(), lane, now);
    }
}

proof fn point_goes_on(c: Course, j: Json, lane: Option<Seq<char>>, now: int)
    requires
        is_plot(c.series),
    ensures
        is_plot(c.after(j, lane, now).series),
{
    let r = rows::read_row(j);
    if r.lane.len() > 0 {
        let w = c.with_lane(r.lane, now);
        let next = Course { ledger: w.ledger.applied(r, now), ..w };
        let x = units::clip(next.total(lane));
        cents_are_whole(x);
        if r.t > 0 {
            plot_goes_on(c.series, r.t, cents(x) as i128);
        }
    }
}

} // verus!
