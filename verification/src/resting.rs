//! Our orders that rest on the venue's book: which they are, which have to go, and
//! whether a cancel came through.

use vstd::prelude::*;
use crate::json;
use crate::json::{read_json, Json, JsonView};
use crate::table::Table;
use crate::text;
use crate::text::{dec_i128, dec_u128, owned, show};
use crate::units;
use crate::units::{read_reading, Reading};

verus! {

/// One of our orders that rests, with what was known of the leader when it was placed.
#[derive(Debug)]
pub struct Resting {
    pub order_id: String,
    pub lane: String,
    pub token: String,
    pub side: u8,
    pub limit: i64,
    pub shares: i64,
    pub placed: i64,
    pub salt: [u8; 32],
    pub condition: [u8; 32],
    pub his_price: i64,
    pub his_remaining: i64,
    pub printed_at_place: i128,
    pub contested_at_place: bool,
}

/// What an order that rests says.
#[verifier::ext_equal]
pub struct RestingView {
    pub order_id: Seq<char>,
    pub lane: Seq<char>,
    pub token: Seq<char>,
    pub side: u8,
    pub limit: i64,
    pub shares: i64,
    pub placed: i64,
    pub salt: Seq<u8>,
    pub condition: Seq<u8>,
    pub his_price: i64,
    pub his_remaining: i64,
    pub printed_at_place: i128,
    pub contested_at_place: bool,
}

impl View for Resting {
    type V = RestingView;

    open spec fn view(&self) -> RestingView {
        RestingView {
            order_id: self.order_id@,
            lane: self.lane@,
            token: self.token@,
            side: self.side,
            limit: self.limit,
            shares: self.shares,
            placed: self.placed,
            salt: self.salt@,
            condition: self.condition@,
            his_price: self.his_price,
            his_remaining: self.his_remaining,
            printed_at_place: self.printed_at_place,
            contested_at_place: self.contested_at_place,
        }
    }
}

impl Resting {
    /// A copy of an order.
    pub fn copy(&self) -> (r: Resting)
        ensures
            r@ == self@,
    {
        Resting {
            order_id: self.order_id.clone(),
            lane: self.lane.clone(),
            token: self.token.clone(),
            side: self.side,
            limit: self.limit,
            shares: self.shares,
            placed: self.placed,
            salt: self.salt,
            condition: self.condition,
            his_price: self.his_price,
            his_remaining: self.his_remaining,
            printed_at_place: self.printed_at_place,
            contested_at_place: self.contested_at_place,
        }
    }
}

/// Why an order is cancelled.
#[derive(Debug, Clone, Copy, PartialEq, Eq, Structural)]
pub enum CancelReason {
    HeExited,
    Expired,
    Disarmed,
    OverCap,
    HeCancelled,
    RestingDisabled,
    LaneHalted,
}

/// Whether an order has to be pulled by the state of its lane: only a buy, and only
/// where the lane is halted, retired or not armed.
pub open spec fn must_pull(side: u8, halted: bool, armed: bool, retired: bool) -> bool {
    side == 0 && (halted || retired || !armed)
}

/// Whether an order has to be pulled by the state of its lane; see [`must_pull`].
pub fn halted_lane_must_pull(side: u8, halted: bool, armed: bool, retired: bool) -> (r: bool)
    ensures
        r == must_pull(side, halted, armed, retired),
{
    if side != 0 {
        return false;
    }
    halted || retired || !armed
}

/// The name of a reason in the audit trail.
pub open spec fn reason_name(r: CancelReason) -> Seq<char> {
    match r {
        CancelReason::HeExited => "he_exited"@,
        CancelReason::HeCancelled => "he_cancelled"@,
        CancelReason::RestingDisabled => "resting_disabled"@,
        CancelReason::LaneHalted => "lane_halted"@,
        CancelReason::Expired => "expired"@,
        CancelReason::Disarmed => "disarmed"@,
        CancelReason::OverCap => "over_cap"@,
    }
}

impl CancelReason {
    /// The name of a reason in the audit trail.
    pub fn as_str(&self) -> (r: &'static str)
        ensures
            r@ == reason_name(*self),
    {
        match self {
            CancelReason::HeExited => "he_exited",
            CancelReason::HeCancelled => "he_cancelled",
            CancelReason::RestingDisabled => "resting_disabled",
            CancelReason::LaneHalted => "lane_halted",
            CancelReason::Expired => "expired",
            CancelReason::Disarmed => "disarmed",
            CancelReason::OverCap => "over_cap",
        }
    }
}

/// The orders that rest, by their numbers, and the ones that are being settled.
pub struct RestingBook {
    settling: Table<String, ()>,
    inner: Table<String, Resting>,
}

/// The orders that rest, their numbers in the order in which they came, and the numbers
/// of those that are being settled.
#[verifier::ext_equal]
pub struct RestingBookView {
    pub orders: Map<Seq<char>, RestingView>,
    pub ids: Seq<Seq<char>>,
    pub settling: Set<Seq<char>>,
}

impl RestingBookView {
    /// The orders in the order in which they came, each once.
    pub open spec fn rows(self) -> Seq<RestingView> {
        Seq::new(self.ids.len(), |i: int| self.orders[self.ids[i]])
    }

    /// Whether every order has its number in the list, once.
    pub open spec fn listed(self) -> bool {
        &&& self.ids.no_duplicates()
        &&& self.orders.dom().finite()
        &&& self.orders.dom().len() == self.ids.len()
        &&& forall|id: Seq<char>| #[trigger] self.orders.contains_key(id) == self.ids.contains(id)
    }

    /// With an order tracked: a new one comes last, a known one keeps its place.
    pub open spec fn with(self, r: RestingView) -> RestingBookView {
        RestingBookView {
            orders: self.orders.insert(r.order_id, r),
            ids: if self.orders.contains_key(r.order_id) {
                self.ids
            } else {
                self.ids.push(r.order_id)
            },
            ..self
        }
    }

    /// Without the order of a number.
    pub open spec fn without(self, id: Seq<char>) -> RestingBookView {
        RestingBookView {
            orders: self.orders.remove(id),
            ids: self.ids.remove(self.ids.index_of(id)),
            ..self
        }
    }
}

/// What these orders say.
pub open spec fn views(v: Seq<Resting>) -> Seq<RestingView> {
    v.map_values(|r: Resting| r@)
}

impl View for RestingBook {
    type V = RestingBookView;

    closed spec fn view(&self) -> RestingBookView {
        RestingBookView {
            orders: self.inner@.map_values(|r: Resting| r@),
            ids: self.inner.keys(),
            settling: self.settling@.dom(),
        }
    }
}

/// A number with the prefix that the venue sometimes leaves out.
pub open spec fn prefixed(id: Seq<char>) -> Seq<char> {
    "0x"@ + text::bare(id)
}

impl RestingBookView {
    /// The number under which an order is tracked: as given, with the prefix, or
    /// without it.
    pub open spec fn tracked_as(self, id: Seq<char>) -> Option<Seq<char>> {
        if self.orders.contains_key(id) {
            Some(id)
        } else if self.orders.contains_key(prefixed(id)) {
            Some(prefixed(id))
        } else if self.orders.contains_key(text::bare(id)) {
            Some(text::bare(id))
        } else {
            None
        }
    }
}

/// Whether no order was placed after a later one.
pub open spec fn by_age(s: Seq<RestingView>) -> bool {
    forall|i: int, j: int| 0 <= i < j < s.len() ==> (#[trigger] s[i]).placed <= (#[trigger] s[j]).placed
}

/// Whether `s` are the orders `t`, the oldest first.
pub open spec fn ages(s: Seq<RestingView>, t: Seq<RestingView>) -> bool {
    by_age(s) && s.to_multiset() == t.to_multiset() && s.len() == t.len()
}

/// Whether `out` are the oldest of `rows` that are too many for `cap`.
pub open spec fn sheds(rows: Seq<RestingView>, out: Seq<RestingView>, cap: int) -> bool {
    if rows.len() <= cap {
        out.len() == 0
    } else {
        exists|s: Seq<RestingView>| #[trigger] ages(s, rows) && out == s.take(rows.len() - cap)
    }
}

/// The orders of a lane.
pub open spec fn of_lane(rows: Seq<RestingView>, lane: Seq<char>) -> Seq<RestingView> {
    rows.filter(|r: RestingView| r.lane == lane)
}

fn sort_by_age(v: Vec<Resting>) -> (r: Vec<Resting>)
    ensures
        ages(views(r@), views(v@)),
{
    let ghost all = views(v@);
    let mut out: Vec<Resting> = Vec::new();
    assert(views(out@) =~= all.take(0));
    for i in 0..v.len()
        invariant
            all == views(v@),
            by_age(views(out@)),
            views(out@).to_multiset() == all.take(i as int).to_multiset(),
            out@.len() == i,
    {
        let x = v[i].copy();
        let ghost xv = x@;
        let placed = x.placed;
        let mut k: usize = out.len();
        let ghost before = views(out@);
        while k > 0 && out[k - 1].placed > placed
            invariant
                k <= out@.len(),
                before == views(out@),
                forall|j: int| k <= j < out@.len() ==> (#[trigger] before[j]).placed > placed,
            decreases k,
        {
            assert(before[k - 1] == out@[k - 1]@);
            k = k - 1;
        }
        assert(k > 0 ==> before[k - 1] == out@[k - 1]@);
        out.insert(k, x);
        let ghost now = views(out@);
        assert(now =~= before.insert(k as int, xv));
        assert forall|a: int, b: int| 0 <= a < b < now.len() implies (#[trigger] now[a]).placed <= (
        #[trigger] now[b]).placed by {
            let pa = if a < k {
                before[a]
            } else if a == k {
                xv
            } else {
                before[a - 1]
            };
            let pb = if b < k {
                before[b]
            } else if b == k {
                xv
            } else {
                before[b - 1]
            };
            assert(now[a] == pa && now[b] == pb);
            if b == k && a < k {
                assert(before[a].placed <= before[k - 1].placed);
            }
        }
        proof {
            vstd::seq_lib::to_multiset_insert(before, k as int, xv);
            assert(all.take(i + 1) =~= all.take(i as int).push(xv));
            vstd::seq_lib::to_multiset_build(all.take(i as int), xv);
        }
    }
    assert(all.take(all.len() as int) =~= all);
    out
}

/// Whether every order is of one lane.
spec fn all_of(s: Seq<RestingView>, lane: Seq<char>) -> bool {
    forall|i: int| 0 <= i < s.len() ==> (#[trigger] s[i]).lane == lane
}

fn take_oldest(v: Vec<Resting>, cap: usize) -> (r: Vec<Resting>)
    ensures
        sheds(views(v@), views(r@), cap as int),
        forall|l: Seq<char>| all_of(views(v@), l) ==> #[trigger] all_of(views(r@), l),
{
    let ghost all = views(v@);
    if v.len() <= cap {
        let none: Vec<Resting> = Vec::new();
        return none;
    }
    let n = v.len() - cap;
    let s = sort_by_age(v);
    let ghost sv = views(s@);
    let mut out: Vec<Resting> = Vec::new();
    for i in 0..n
        invariant
            n <= s@.len(),
            sv == views(s@),
            views(out@) == sv.take(i as int),
            out@.len() == i,
    {
        let ghost before = views(out@);
        out.push(s[i].copy());
        assert(views(out@) =~= before.push(sv[i as int]));
        assert(sv.take(i + 1) =~= sv.take(i as int).push(sv[i as int]));
    }
    assert(ages(sv, all));
    proof {
        assert forall|l: Seq<char>| all_of(all, l) implies #[trigger] all_of(views(out@), l) by {
            assert forall|i: int| 0 <= i < out@.len() implies (#[trigger] views(out@)[i]).lane
                == l by {
                let x = views(out@)[i];
                assert(x == sv[i]);
                vstd::seq_lib::to_multiset_contains(sv, x);
                vstd::seq_lib::to_multiset_contains(all, x);
                assert(sv.contains(x));
                assert(all.contains(x));
                let j = all.index_of(x);
                assert(all[j] == x);
            }
        }
    }
    out
}

/// A number under a name, written as a number or as text; zero where there is none.
pub open spec fn num_at(v: Json, name: Seq<char>) -> Reading<i64> {
    match json::field(v, name) {
        Some(Json::Number(n)) => match units::reading(n@) {
            Some(x) => x,
            None => Reading::Finite(0i64),
        },
        Some(Json::Text(t)) => match units::reading(t@) {
            Some(x) => x,
            None => Reading::Finite(0i64),
        },
        _ => Reading::Finite(0i64),
    }
}

fn num(v: &Json, name: &str) -> (r: Reading<i64>)
    ensures
        r == num_at(*v, name@),
{
    let read = match v.get(name) {
        Some(Json::Number(n)) => read_reading(n.as_str()),
        Some(Json::Text(t)) => read_reading(t.as_str()),
        _ => None,
    };
    match read {
        Some(x) => x,
        None => Reading::Finite(0),
    }
}

/// The larger of two numbers; one that is no number gives way to the other.
pub open spec fn larger_of(a: Reading<i64>, b: Reading<i64>) -> Reading<i64> {
    match (a, b) {
        (Reading::NotANumber, _) => b,
        (_, Reading::NotANumber) => a,
        (Reading::Infinite, _) => a,
        (_, Reading::Infinite) => b,
        (Reading::MinusInfinite, _) => b,
        (_, Reading::MinusInfinite) => a,
        (Reading::Finite(x), Reading::Finite(y)) => if x >= y {
            a
        } else {
            b
        },
    }
}

fn greater(a: Reading<i64>, b: Reading<i64>) -> (r: Reading<i64>)
    ensures
        r == larger_of(a, b),
{
    match (a, b) {
        (Reading::NotANumber, _) => b,
        (_, Reading::NotANumber) => a,
        (Reading::Infinite, _) => a,
        (_, Reading::Infinite) => b,
        (Reading::MinusInfinite, _) => b,
        (_, Reading::MinusInfinite) => a,
        (Reading::Finite(x), Reading::Finite(y)) => if x >= y {
            a
        } else {
            b
        },
    }
}

/// A number held within the range of `i64`; what is no number is zero.
pub open spec fn held(x: Reading<i64>) -> i64 {
    match x {
        Reading::Finite(v) => v,
        Reading::Infinite => i64::MAX,
        Reading::MinusInfinite => i64::MIN,
        Reading::NotANumber => 0,
    }
}

fn hold(x: Reading<i64>) -> (r: i64)
    ensures
        r == held(x),
{
    match x {
        Reading::Finite(v) => v,
        Reading::Infinite => i64::MAX,
        Reading::MinusInfinite => i64::MIN,
        Reading::NotANumber => 0,
    }
}

/// What is left of `whole` after `part`, held within the range of `i64`; nothing where it
/// is not over zero or no number.
pub open spec fn rest_of(whole: Reading<i64>, part: Reading<i64>) -> int {
    match (whole, part) {
        (Reading::Finite(a), Reading::Finite(b)) => units::clip64(units::larger(a - b, 0)),
        (Reading::Infinite, Reading::Finite(_)) => i64::MAX as int,
        (Reading::Infinite, Reading::MinusInfinite) => i64::MAX as int,
        (Reading::Finite(_), Reading::MinusInfinite) => i64::MAX as int,
        _ => 0,
    }
}

fn rest(whole: Reading<i64>, part: Reading<i64>) -> (r: i64)
    ensures
        r == rest_of(whole, part),
{
    match (whole, part) {
        (Reading::Finite(a), Reading::Finite(b)) => units::max64(units::diff64(a, b), 0),
        (Reading::Infinite, Reading::Finite(_)) => i64::MAX,
        (Reading::Infinite, Reading::MinusInfinite) => i64::MAX,
        (Reading::Finite(_), Reading::MinusInfinite) => i64::MAX,
        _ => 0,
    }
}

/// The text under the first of two names that has one.
pub open spec fn either_text(v: Json, a: Seq<char>, b: Seq<char>) -> Option<Seq<char>> {
    match json::text_in(json::field(v, a)) {
        Some(s) => Some(s),
        None => json::text_in(json::field(v, b)),
    }
}

/// What is left of an order of the venue to be matched.
pub open spec fn working(v: Json) -> int {
    rest_of(
        larger_of(num_at(v, "original_size"@), num_at(v, "size"@)),
        num_at(v, "size_matched"@),
    )
}

/// The order that a row of the venue's open orders is, where it is one that still has
/// something to be matched.
pub open spec fn adopted(v: Json, lane: Seq<char>, now: i64) -> Option<RestingView> {
    match (either_text(v, "id"@, "orderID"@), either_text(v, "asset_id"@, "market"@)) {
        (Some(id), Some(token)) => if working(v) > 0 {
            Some(
                RestingView {
                    order_id: id,
                    lane,
                    token,
                    side: if text::lower_of(json::text_or_none(v, "side"@)) == "sell"@ {
                        1
                    } else {
                        0
                    },
                    limit: held(num_at(v, "price"@)),
                    shares: working(v) as i64,
                    placed: match json::signed_in(json::field(v, "created_at"@)) {
                        Some(t) => t,
                        None => now,
                    },
                    salt: Seq::new(32, |i: int| 0u8),
                    condition: Seq::new(32, |i: int| 0u8),
                    his_price: 0,
                    his_remaining: 0,
                    printed_at_place: 0,
                    contested_at_place: true,
                },
            )
        } else {
            None
        },
        _ => None,
    }
}

fn adopt(v: &Json, lane: &str, now: i64) -> (r: Option<Resting>)
    ensures
        match adopted(*v, lane@, now) {
            Some(a) => r matches Some(b) && b@ == a,
            None => r is None,
        },
{
    let id = match v.text_at("id") {
        Some(s) => s,
        None => match v.text_at("orderID") {
            Some(s) => s,
            None => {
                return None;
            },
        },
    };
    let token = match v.text_at("asset_id") {
        Some(s) => s,
        None => match v.text_at("market") {
            Some(s) => s,
            None => {
                return None;
            },
        },
    };
    let shares = rest(
        greater(num(v, "original_size"), num(v, "size")),
        num(v, "size_matched"),
    );
    if shares <= 0 {
        return None;
    }
    let side_text = v.text_or_empty("side");
    let lower = text::lower_chars(side_text.as_str());
    let side: u8 = if text::same(text::text_of(&lower).as_str(), "sell") {
        1
    } else {
        0
    };
    let placed = match v.signed_at("created_at") {
        Some(t) => t,
        None => now,
    };
    let r = Resting {
        order_id: id,
        lane: owned(lane),
        token,
        side,
        limit: hold(num(v, "price")),
        shares,
        placed,
        salt: [0u8;32],
        condition: [0u8;32],
        his_price: 0,
        his_remaining: 0,
        printed_at_place: 0,
        contested_at_place: true,
    };
    assert(r@.salt =~= Seq::new(32, |i: int| 0u8));
    assert(r@.condition =~= Seq::new(32, |i: int| 0u8));
    Some(r)
}

impl RestingBookView {
    /// The book after the rows of the venue's open orders, and how many of them were
    /// taken in: those that are not tracked yet.
    pub open spec fn rehydrated(
        self,
        rows: Seq<Json>,
        lane: Seq<char>,
        now: i64,
    ) -> (RestingBookView, int)
        decreases rows.len(),
    {
        if rows.len() == 0 {
            (self, 0)
        } else {
            let (b, n) = self.rehydrated(rows.drop_last(), lane, now);
            match adopted(rows.last(), lane, now) {
                Some(r) => if b.tracked_as(r.order_id) is None {
                    (b.with(r), n + 1)
                } else {
                    (b, n)
                },
                None => (b, n),
            }
        }
    }
}

fn with_prefix(id: &str) -> (r: String)
    ensures
        r@ == prefixed(id@),
{
    let mut s = owned("0x");
    s.append(without_prefix(id).as_str());
    s
}

fn without_prefix(id: &str) -> (r: String)
    ensures
        r@ == text::bare(id@),
{
    let v = text::chars_of(id);
    let b = text::strip_0x(&v);
    text::text_of(&b)
}

/// How large a part of the orders may vanish at once before the read is doubted, in
/// millionths.
pub const MAX_PRUNE_FRAC: i64 = 340_000;

/// Up to how many orders that part is not judged.
pub const PRUNE_FRAC_APPLIES_ABOVE: usize = 4;

/// One order for a status page.
pub open spec fn says_order(j: Json, r: RestingView) -> bool {
    &&& j matches Json::Fields(f)
    &&& f@.len() == 7
    &&& f@[0].0@ == "order_id"@ && (f@[0].1 matches Json::Text(t) && t@ == r.order_id)
    &&& f@[1].0@ == "lane"@ && (f@[1].1 matches Json::Text(t) && t@ == r.lane)
    &&& f@[2].0@ == "token"@ && (f@[2].1 matches Json::Text(t) && t@ == r.token)
    &&& f@[3].0@ == "side"@ && (f@[3].1 matches Json::Text(t) && t@ == (if r.side == 0 {
        "BUY"@
    } else {
        "SELL"@
    }))
    &&& f@[4].0@ == "limit"@ && (f@[4].1 matches Json::Number(t) && t@ == text::fixed(
        r.limit as int,
        6,
        6,
    ))
    &&& f@[5].0@ == "shares"@ && (f@[5].1 matches Json::Number(t) && t@ == text::fixed(
        r.shares as int,
        6,
        6,
    ))
    &&& f@[6].0@ == "placed"@ && (f@[6].1 matches Json::Number(t) && t@ == text::dec_int(
        r.placed as int,
    ))
}

/// All orders for a status page, in the order given.
pub open spec fn says_book(j: Json, rows: Seq<RestingView>) -> bool {
    &&& j matches Json::Fields(f)
    &&& f@.len() == 2
    &&& f@[0].0@ == "n"@ && (f@[0].1 matches Json::Number(t) && t@ == text::dec(rows.len()))
    &&& f@[1].0@ == "orders"@ && (f@[1].1 matches Json::List(l) && l@.len() == rows.len()
        && forall|i: int| 0 <= i < rows.len() ==> says_order(#[trigger] l@[i], rows[i]))
}

fn order_json(r: &Resting) -> (j: Json)
    ensures
        says_order(j, r@),
{
    let mut f: Vec<(String, Json)> = Vec::new();
    f.push((owned("order_id"), Json::Text(r.order_id.clone())));
    f.push((owned("lane"), Json::Text(r.lane.clone())));
    f.push((owned("token"), Json::Text(r.token.clone())));
    let side = if r.side == 0 {
        owned("BUY")
    } else {
        owned("SELL")
    };
    f.push((owned("side"), Json::Text(side)));
    f.push((owned("limit"), Json::Number(show(r.limit as i128, 6, 6))));
    f.push((owned("shares"), Json::Number(show(r.shares as i128, 6, 6))));
    f.push((owned("placed"), Json::Number(dec_i128(r.placed as i128))));
    Json::Fields(f)
}

/// The orders that have rested for as long as they may.
pub open spec fn stale(rows: Seq<RestingView>, now: i64, ttl_secs: i64) -> Seq<RestingView> {
    rows.filter(|x: RestingView| now - x.placed >= ttl_secs)
}

/// Whether so many of the orders can have gone at once.
pub open spec fn may_prune(known: int, gone: int) -> bool {
    known <= PRUNE_FRAC_APPLIES_ABOVE || gone * units::ONE < known * MAX_PRUNE_FRAC
}

impl RestingBookView {
    /// An order claimed to be settled: the book after it, and whether the claim holds.
    pub open spec fn claimed(self, id: Seq<char>) -> (RestingBookView, bool) {
        (
            RestingBookView { settling: self.settling.insert(text::bare(id)), ..self },
            !self.settling.contains(text::bare(id)),
        )
    }

    /// An order that is no longer being settled.
    pub open spec fn settled(self, id: Seq<char>) -> RestingBookView {
        RestingBookView { settling: self.settling.remove(text::bare(id)), ..self }
    }
}

impl RestingBook {
    /// No orders.
    pub fn new() -> (r: Self)
        ensures
            r@ == (RestingBookView {
                orders: Map::empty(),
                ids: Seq::empty(),
                settling: Set::empty(),
            }),
    {
        let r = RestingBook { settling: Table::new(), inner: Table::new() };
        assert(r@ =~= RestingBookView {
            orders: Map::empty(),
            ids: Seq::empty(),
            settling: Set::empty(),
        });
        r
    }

    /// The numbers and the orders agree.
    fn is_listed(&self)
        ensures
            self@.listed(),
            self@.rows() == views(self.inner.vals()),
    {
        let _ = self.inner.len();
        assert(self@.orders.dom() =~= self.inner@.dom());
        assert(self@.rows() =~= views(self.inner.vals()));
        assert forall|id: Seq<char>| self@.ids.contains(id) implies #[trigger] self@.orders.contains_key(
            id,
        ) by {
            let k = self@.ids.index_of(id);
            assert(self.inner.keys()[k] == id);
        }
    }

    /// Tracks an order.
    pub fn add(&mut self, r: Resting)
        ensures
            final(self)@ == old(self)@.with(r@),
            final(self)@.listed(),
    {
        let ghost before = self@;
        let key = r.order_id.clone();
        let ghost v = r@;
        self.inner.insert(key, r);
        assert(self@ =~= before.with(v));
        self.is_listed();
    }

    /// Whether an order is tracked.
    pub fn contains(&self, order_id: &str) -> (r: bool)
        ensures
            r == self@.tracked_as(order_id@) is Some,
    {
        let id = owned(order_id);
        self.inner.has(&id) || self.inner.has(&with_prefix(order_id)) || self.inner.has(
            &without_prefix(order_id),
        )
    }

    /// Claims the settlement of an order; only one claim holds at a time.
    pub fn try_claim_settle(&mut self, order_id: &str) -> (r: bool)
        ensures
            r == !old(self)@.settling.contains(text::bare(order_id@)),
            final(self)@ == (RestingBookView {
                settling: old(self)@.settling.insert(text::bare(order_id@)),
                ..old(self)@
            }),
            (final(self)@, r) == old(self)@.claimed(order_id@),
    {
        let ghost before = self@;
        let key = without_prefix(order_id);
        let free = !self.settling.has(&key);
        self.settling.insert(key, ());
        assert(self@.settling =~= before.settling.insert(text::bare(order_id@)));
        free
    }

    /// Gives the claim on the settlement of an order up.
    pub fn finish_settle(&mut self, order_id: &str)
        ensures
            final(self)@ == (RestingBookView {
                settling: old(self)@.settling.remove(text::bare(order_id@)),
                ..old(self)@
            }),
            final(self)@ == old(self)@.settled(order_id@),
    {
        let ghost before = self@;
        let key = without_prefix(order_id);
        self.settling.remove(&key);
        assert(self@.settling =~= before.settling.remove(text::bare(order_id@)));
    }

    /// Stops tracking an order.
    pub fn remove(&mut self, order_id: &str) -> (r: Option<Resting>)
        ensures
            match old(self)@.tracked_as(order_id@) {
                Some(k) => final(self)@ == old(self)@.without(k) && (r matches Some(x) && x@
                    == old(self)@.orders[k]),
                None => r is None && final(self)@ == old(self)@,
            },
            final(self)@.listed(),
    {
        let ghost before = self@;
        let id = owned(order_id);
        let long = with_prefix(order_id);
        let short = without_prefix(order_id);
        let key = if self.inner.has(&id) {
            id
        } else if self.inner.has(&long) {
            long
        } else {
            short
        };
        let r = self.inner.remove(&key);
        if r.is_none() {
            assert(self@ =~= before);
        } else {
            assert(self@ =~= before.without(key@));
        }
        self.is_listed();
        r
    }

    /// How many orders are tracked.
    pub fn len(&self) -> (r: usize)
        ensures
            r == self@.rows().len(),
            r == self@.orders.dom().len(),
            self@.listed(),
    {
        self.is_listed();
        self.inner.len()
    }

    /// Whether no order is tracked.
    pub fn is_empty(&self) -> (r: bool)
        ensures
            r == (self@.orders.dom().len() == 0),
    {
        self.len() == 0
    }

    /// The orders on a token.
    pub fn by_token(&self, token: &str) -> (r: Vec<Resting>)
        ensures
            views(r@) == self@.rows().filter(|x: RestingView| x.token == token@),
    {
        let ghost keep = |x: RestingView| x.token == token@;
        let all = self.all();
        let ghost av = views(all@);
        let mut out: Vec<Resting> = Vec::new();
        assert(views(out@) =~= av.take(0).filter(keep)) by {
            reveal(Seq::filter);
        }
        for i in 0..all.len()
            invariant
                av == views(all@),
                keep == (|x: RestingView| x.token == token@),
                views(out@) == av.take(i as int).filter(keep),
        {
            proof {
                grow_filter(av, keep, i as int);
            }
            let ghost before = views(out@);
            if text::same(all[i].token.as_str(), token) {
                out.push(all[i].copy());
                assert(views(out@) =~= before.push(av[i as int]));
            }
        }
        assert(av.take(av.len() as int) =~= av);
        out
    }

    /// The orders that have rested for `ttl_secs` or more.
    pub fn expired(&self, now: i64, ttl_secs: i64) -> (r: Vec<Resting>)
        ensures
            views(r@) == self@.rows().filter(|x: RestingView| now - x.placed >= ttl_secs),
            views(r@) == stale(self@.rows(), now, ttl_secs),
    {
        let ghost keep = |x: RestingView| now - x.placed >= ttl_secs;
        let all = self.all();
        let ghost av = views(all@);
        let mut out: Vec<Resting> = Vec::new();
        assert(views(out@) =~= av.take(0).filter(keep)) by {
            reveal(Seq::filter);
        }
        for i in 0..all.len()
            invariant
                av == views(all@),
                keep == (|x: RestingView| now - x.placed >= ttl_secs),
                views(out@) == av.take(i as int).filter(keep),
        {
            proof {
                grow_filter(av, keep, i as int);
            }
            let ghost before = views(out@);
            if now as i128 - all[i].placed as i128 >= ttl_secs as i128 {
                out.push(all[i].copy());
                assert(views(out@) =~= before.push(av[i as int]));
            }
        }
        assert(av.take(av.len() as int) =~= av);
        out
    }

    /// All orders.
    pub fn all(&self) -> (r: Vec<Resting>)
        ensures
            views(r@) == self@.rows(),
            self@.listed(),
    {
        self.is_listed();
        let n = self.inner.len();
        let ghost rows = self@.rows();
        let mut out: Vec<Resting> = Vec::new();
        for i in 0..n
            invariant
                n == self.inner.keys().len(),
                self.inner.aligned(),
                rows == views(self.inner.vals()),
                views(out@) == rows.take(i as int),
        {
            let ghost before = views(out@);
            out.push(self.inner.val_at(i).copy());
            assert(views(out@) =~= before.push(rows[i as int]));
            assert(rows.take(i + 1) =~= rows.take(i as int).push(rows[i as int]));
        }
        assert(rows.take(rows.len() as int) =~= rows);
        out
    }

    /// Takes the venue's own open orders in, but for those that are tracked already;
    /// how many there were.
    pub fn rehydrate(&mut self, rows: &Json, fallback_lane: &str, now: i64) -> (r: usize)
        ensures
            match *rows {
                Json::List(l) => (final(self)@, r as int) == old(self)@.rehydrated(
                    l@,
                    fallback_lane@,
                    now,
                ),
                _ => r == 0 && final(self)@ == old(self)@,
            },
            final(self)@.listed(),
    {
        self.is_listed();
        let list = match rows {
            Json::List(l) => l,
            _ => {
                return 0;
            },
        };
        let ghost start = self@;
        let mut n: usize = 0;
        for i in 0..list.len()
            invariant
                self@.listed(),
                (self@, n as int) == start.rehydrated(
                    list@.take(i as int),
                    fallback_lane@,
                    now,
                ),
                n <= i,
        {
            assert(list@.take(i + 1).drop_last() =~= list@.take(i as int));
            if let Some(r) = adopt(&list[i], fallback_lane, now) {
                let seen = self.contains(r.order_id.as_str());
                if !seen {
                    self.add(r);
                    n = n + 1;
                }
            }
        }
        assert(list@.take(list@.len() as int) =~= list@);
        n
    }

    /// The oldest orders beyond `cap`: the newest follow the leader's intent.
    pub fn over_cap(&self, cap: usize) -> (r: Vec<Resting>)
        ensures
            sheds(self@.rows(), views(r@), cap as int),
    {
        let all = self.all();
        take_oldest(all, cap)
    }

    /// Whether it is plausible that this many orders have gone at once: with more than
    /// a few tracked, a third or more indicts the read.
    pub fn prune_is_plausible(&self, prune_count: usize) -> (r: bool)
        ensures
            r == (self@.rows().len() <= PRUNE_FRAC_APPLIES_ABOVE || prune_count * units::ONE
                < self@.rows().len() * MAX_PRUNE_FRAC),
            r == may_prune(self@.rows().len() as int, prune_count as int),
    {
        let live = self.len();
        if live <= PRUNE_FRAC_APPLIES_ABOVE {
            return true;
        }
        (prune_count as i128) * 1_000_000 < (live as i128) * (MAX_PRUNE_FRAC as i128)
    }

    /// The oldest orders of each lane beyond `cap`: a busy lane never costs a quiet
    /// one an order.
    pub fn over_cap_per_lane(&self, cap: usize) -> (r: Vec<Resting>)
        ensures
            forall|lane: Seq<char>| #[trigger]
                sheds(of_lane(self@.rows(), lane), of_lane(views(r@), lane), cap as int),
    {
        let all = self.all();
        let ghost av = views(all@);
        let mut lanes: Table<String, ()> = Table::new();
        for i in 0..all.len()
            invariant
                forall|l: Seq<char>| #[trigger]
                    lanes@.contains_key(l) == exists|k: int|
                        0 <= k < i && (#[trigger] all@[k])@.lane == l,
        {
            let ghost before = lanes@;
            lanes.insert(all[i].lane.clone(), ());
            assert(all@[i as int]@.lane == all@[i as int].lane@);
        }
        let n = lanes.len();
        let ghost names = lanes.keys();
        let mut out: Vec<Resting> = Vec::new();
        proof {
            reveal(Seq::filter);
        }
        for i in 0..n
            invariant
                n == names.len(),
                names == lanes.keys(),
                names.no_duplicates(),
                av == views(all@),
                av == self@.rows(),
                forall|j: int|
                    0 <= j < i ==> sheds(
                        of_lane(av, #[trigger] names[j]),
                        of_lane(views(out@), names[j]),
                        cap as int,
                    ),
                forall|l: Seq<char>|
                    (forall|j: int| 0 <= j < i ==> names[j] != l) ==> (#[trigger] of_lane(
                        views(out@),
                        l,
                    )).len() == 0,
        {
            let lane = lanes.key_at(i);
            let group = lane_rows(&all, lane.as_str());
            let mut doomed = take_oldest(group, cap);
            let ghost before = views(out@);
            let ghost dv = views(doomed@);
            assert(all_of(dv, lane@));
            out.append(&mut doomed);
            assert(views(out@) =~= before + dv);
            proof {
                only_lane(dv, lane@);
                assert forall|j: int| 0 <= j < i + 1 implies sheds(
                    of_lane(av, #[trigger] names[j]),
                    of_lane(views(out@), names[j]),
                    cap as int,
                ) by {
                    split_lane(before, dv, names[j]);
                    if j < i {
                        other_lane(dv, lane@, names[j]);
                        assert(of_lane(before, names[j]) + Seq::<RestingView>::empty() =~= of_lane(
                            before,
                            names[j],
                        ));
                    } else {
                        assert(of_lane(before, names[j]).len() == 0);
                        assert(of_lane(before, names[j]) + dv =~= dv);
                    }
                }
                assert forall|l: Seq<char>|
                    (forall|j: int| 0 <= j < i + 1 ==> names[j] != l) implies (#[trigger] of_lane(
                    views(out@),
                    l,
                )).len() == 0 by {
                    split_lane(before, dv, l);
                    assert(names[i as int] != l);
                    other_lane(dv, lane@, l);
                    assert(of_lane(before, l).len() == 0);
                }
            }
        }
        proof {
            assert forall|lane: Seq<char>| #[trigger]
                sheds(of_lane(self@.rows(), lane), of_lane(views(out@), lane), cap as int) by {
                if lanes@.contains_key(lane) {
                    let j = names.index_of(lane);
                    assert(names[j] == lane);
                } else {
                    assert forall|k: int| 0 <= k < av.len() implies (#[trigger] av[k]).lane
                        != lane by {
                        assert(av[k] == all@[k]@);
                    }
                    no_lane(av, lane);
                    assert(forall|j: int| 0 <= j < n ==> names[j] != lane) by {
                        assert forall|j: int| 0 <= j < n implies names[j] != lane by {
                            assert(lanes@.contains_key(names[j]));
                        }
                    }
                }
            }
        }
        out
    }

    /// All orders for a status page, the oldest first.
    pub fn snapshot(&self) -> (r: Json)
        ensures
            exists|rows: Seq<RestingView>| #[trigger]
                ages(rows, self@.rows()) && says_book(r, rows),
    {
        let all = self.all();
        let v = sort_by_age(all);
        let ghost rows = views(v@);
        let mut l: Vec<Json> = Vec::new();
        for i in 0..v.len()
            invariant
                rows == views(v@),
                l@.len() == i,
                forall|k: int| 0 <= k < i ==> says_order(#[trigger] l@[k], rows[k]),
        {
            l.push(order_json(&v[i]));
        }
        let mut f: Vec<(String, Json)> = Vec::new();
        f.push((owned("n"), Json::Number(dec_u128(v.len() as u128))));
        f.push((owned("orders"), Json::List(l)));
        assert(ages(rows, self@.rows()));
        let r = Json::Fields(f);
        assert(says_book(r, rows));
        r
    }
}

fn lane_rows(all: &Vec<Resting>, lane: &str) -> (r: Vec<Resting>)
    ensures
        views(r@) == of_lane(views(all@), lane@),
        all_of(views(r@), lane@),
{
    let ghost keep = |x: RestingView| x.lane == lane@;
    let ghost av = views(all@);
    let mut out: Vec<Resting> = Vec::new();
    assert(views(out@) =~= av.take(0).filter(keep)) by {
        reveal(Seq::filter);
    }
    for i in 0..all.len()
        invariant
            av == views(all@),
            keep == (|x: RestingView| x.lane == lane@),
            views(out@) == av.take(i as int).filter(keep),
            all_of(views(out@), lane@),
    {
        proof {
            grow_filter(av, keep, i as int);
        }
        let ghost before = views(out@);
        if text::same(all[i].lane.as_str(), lane) {
            out.push(all[i].copy());
            assert(views(out@) =~= before.push(av[i as int]));
        }
    }
    assert(av.take(av.len() as int) =~= av);
    out
}

proof fn grow_filter(s: Seq<RestingView>, keep: spec_fn(RestingView) -> bool, i: int)
    requires
        0 <= i < s.len(),
    ensures
        s.take(i + 1).filter(keep) == (if keep(s[i]) {
            s.take(i).filter(keep).push(s[i])
        } else {
            s.take(i).filter(keep)
        }),
{
    reveal(Seq::filter);
    assert(s.take(i + 1).drop_last() =~= s.take(i));
}

proof fn split_lane(a: Seq<RestingView>, b: Seq<RestingView>, lane: Seq<char>)
    ensures
        of_lane(a + b, lane) == of_lane(a, lane) + of_lane(b, lane),
    decreases b.len(),
{
    reveal(Seq::filter);
    if b.len() == 0 {
        assert(a + b =~= a);
        assert(of_lane(a, lane) + of_lane(b, lane) =~= of_lane(a, lane));
    } else {
        split_lane(a, b.drop_last(), lane);
        assert((a + b).drop_last() =~= a + b.drop_last());
        assert(of_lane(a + b, lane) =~= of_lane(a, lane) + of_lane(b, lane));
    }
}

proof fn only_lane(s: Seq<RestingView>, lane: Seq<char>)
    requires
        all_of(s, lane),
    ensures
        of_lane(s, lane) == s,
    decreases s.len(),
{
    reveal(Seq::filter);
    if s.len() > 0 {
        only_lane(s.drop_last(), lane);
        assert(s.last().lane == lane);
        assert(s.drop_last().push(s.last()) =~= s);
    } else {
        assert(of_lane(s, lane) =~= s);
    }
}

proof fn no_lane(s: Seq<RestingView>, lane: Seq<char>)
    requires
        forall|k: int| 0 <= k < s.len() ==> (#[trigger] s[k]).lane != lane,
    ensures
        of_lane(s, lane).len() == 0,
    decreases s.len(),
{
    reveal(Seq::filter);
    if s.len() > 0 {
        no_lane(s.drop_last(), lane);
        assert(s.last().lane != lane);
    }
}

proof fn other_lane(s: Seq<RestingView>, own: Seq<char>, lane: Seq<char>)
    requires
        all_of(s, own),
        lane != own,
    ensures
        of_lane(s, lane) == Seq::<RestingView>::empty(),
{
    assert forall|k: int| 0 <= k < s.len() implies (#[trigger] s[k]).lane != lane by {
        assert(s[k].lane == own);
    }
    no_lane(s, lane);
    assert(of_lane(s, lane) =~= Seq::<RestingView>::empty());
}

/// The body of a request that cancels these orders: their ids as a JSON list.
pub fn cancel_body(ids: &[String]) -> (r: String)
    ensures
        r@ == json::written(JsonView::List(json::text_list(text::texts(ids@)))),
{
    json::line_of(&json::texts_json(ids))
}

/// Whether a list holds this text.
pub open spec fn lists(l: Seq<Json>, id: Seq<char>) -> bool {
    exists|i: int| 0 <= i < l.len() && json::text_in(Some(#[trigger] l[i])) == Some(id)
}

/// Whether the reason for which an order was not cancelled means that it is gone.
pub open spec fn gone_by(reason: Seq<char>) -> bool {
    let r = text::lower_of(reason);
    ||| text::occurs(r, "can't be found"@)
    ||| text::occurs(r, "cannot be found"@)
    ||| text::occurs(r, "already canceled"@)
    ||| text::occurs(r, "matched"@)
}

/// Whether an answer to a cancel says that an order is gone: it is among the cancelled
/// ones, or the venue could not cancel it because it is not there.
pub open spec fn is_gone(v: Json, id: Seq<char>) -> bool {
    ||| json::list_in(json::field(v, "canceled"@)) matches Some(l) && lists(l, id)
    ||| json::field(v, "not_canceled"@) matches Some(nc) && json::text_in(json::field(nc, id))
        matches Some(why) && gone_by(why)
}

/// Whether an answer that was read says that an order is gone; see [`is_gone`].
pub fn cancelled_in(order_id: &str, v: &Json) -> (r: bool)
    ensures
        r == is_gone(*v, order_id@),
{
    if let Some(c) = v.list_at("canceled") {
        for i in 0..c.len()
            invariant
                json::list_in(json::field(*v, "canceled"@)) == Some(c@),
                forall|k: int| 0 <= k < i ==> json::text_in(Some(#[trigger] c@[k])) != Some(order_id@),
        {
            if let Json::Text(s) = &c[i] {
                if text::same(s.as_str(), order_id) {
                    assert(json::text_in(Some(c@[i as int])) == Some(order_id@));
                    return true;
                }
            }
        }
    }
    if let Some(nc) = v.get("not_canceled") {
        if let Some(reason) = nc.text_at(order_id) {
            let r = text::lower_chars(reason.as_str());
            return text::contains(&r, "can't be found") || text::contains(&r, "cannot be found")
                || text::contains(&r, "already canceled") || text::contains(&r, "matched");
        }
    }
    false
}

/// Whether the answer to a cancel says that an order is gone. What is no JSON never
/// does.
pub fn cancel_succeeded(order_id: &str, body: &str) -> (r: bool)
    ensures
        r == (json::document(body@) matches Some(v) && is_gone(v, order_id@)),
{
    match read_json(body) {
        Some(v) => cancelled_in(order_id, &v),
        None => false,
    }
}

/// For each of these orders whether the answer to its cancel says that it is gone;
/// without an answer none is.
pub fn cancel_outcomes(ids: &[String], answer: Option<&str>) -> (r: Vec<(String, bool)>)
    ensures
        r@.len() == ids@.len(),
        forall|i: int|
            0 <= i < r@.len() ==> (#[trigger] r@[i]).0@ == ids@[i]@ && r@[i].1 == (
            answer matches Some(a) && json::document(a@) matches Some(v) && is_gone(v, ids@[i]@)),
{
    let mut out: Vec<(String, bool)> = Vec::new();
    for i in 0..ids.len()
        invariant
            out@.len() == i,
            forall|k: int|
                0 <= k < i ==> (#[trigger] out@[k]).0@ == ids@[k]@ && out@[k].1 == (
                answer matches Some(a) && json::document(a@) matches Some(v) && is_gone(
                    v,
                    ids@[k]@,
                )),
    {
        let gone = match answer {
            Some(a) => cancel_succeeded(ids[i].as_str(), a),
            None => false,
        };
        out.push((ids[i].clone(), gone));
    }
    out
}

/// A sell that rests is never pulled by the state of its lane: what follows the leader
/// out keeps working.
pub proof fn sells_are_never_pulled(side: u8, halted: bool, armed: bool, retired: bool)
    requires
        side != 0,
    ensures
        !must_pull(side, halted, armed, retired),
{
}

/// An order that is tracked is never replaced by what the venue shows of it.
pub proof fn tracked_orders_keep_their_row(
    b: RestingBookView,
    rows: Seq<Json>,
    lane: Seq<char>,
    now: i64,
    id: Seq<char>,
)
    requires
        b.orders.contains_key(id),
    ensures
        b.rehydrated(rows, lane, now).0.orders.contains_key(id),
        b.rehydrated(rows, lane, now).0.orders[id] == b.orders[id],
    decreases rows.len(),
{
    if rows.len() > 0 {
        tracked_orders_keep_their_row(b, rows.drop_last(), lane, now, id);
    }
}

proof fn tracked_stays_tracked(b: RestingBookView, r: RestingView, id: Seq<char>)
    ensures
        b.tracked_as(id) is Some ==> b.with(r).tracked_as(id) is Some,
        b.with(r).tracked_as(r.order_id) is Some,
{
    assert(b.with(r).orders.contains_key(r.order_id));
}

/// Every row of the venue's open orders that can be read is tracked once the rows are taken in.
#[verifier::spinoff_prover]
#[verifier::rlimit(50)]
pub proof fn shown_order_is_tracked(
    b: RestingBookView,
    rows: Seq<Json>,
    lane: Seq<char>,
    now: i64,
    k: int,
)
    requires
        0 <= k < rows.len(),
    ensures
        adopted(rows[k], lane, now) matches Some(r) ==> b.rehydrated(rows, lane, now).0.tracked_as(
            r.order_id,
        ) is Some,
    decreases rows.len(),
{
    let before = b.rehydrated(rows.drop_last(), lane, now).0;
    let after = b.rehydrated(rows, lane, now).0;
    let last = adopted(rows.last(), lane, now);
    let shown = adopted(rows[k], lane, now);
    assert(after == before || last is Some && after == before.with(last->0));
    if shown is Some {
        let id = (shown->0).order_id;
        if k < rows.len() - 1 {
            shown_order_is_tracked(b, rows.drop_last(), lane, now, k);
            assert(rows.drop_last()[k] == rows[k]);
            assert(before.tracked_as(id) is Some);
        } else {
            assert(rows[k] == rows.last());
            assert(before.tracked_as(id) is None ==> after == before.with(shown->0));
        }
        if last is Some {
            tracked_stays_tracked(before, last->0, id);
        }
        assert(after.tracked_as(id) is Some);
    }
}

proof fn nothing_new(
    b: RestingBookView,
    rows: Seq<Json>,
    lane: Seq<char>,
    now: i64,
)
    requires
        forall|k: int|
            0 <= k < rows.len() ==> (adopted(#[trigger] rows[k], lane, now) matches Some(r)
                ==> b.tracked_as(r.order_id) is Some),
    ensures
        b.rehydrated(rows, lane, now) == (b, 0int),
    decreases rows.len(),
{
    if rows.len() > 0 {
        assert forall|k: int| 0 <= k < rows.drop_last().len() implies (adopted(
            #[trigger] rows.drop_last()[k],
            lane,
            now,
        ) matches Some(r) ==> b.tracked_as(r.order_id) is Some) by {
            assert(rows.drop_last()[k] == rows[k]);
        }
        nothing_new(b, rows.drop_last(), lane, now);
        assert(rows.last() == rows[rows.len() - 1]);
    }
}

/// The venue's open orders are taken in once: the same list again adds nothing and
/// changes nothing.
pub proof fn rehydrating_again_changes_nothing(
    b: RestingBookView,
    rows: Seq<Json>,
    lane: Seq<char>,
    now: i64,
)
    ensures
        b.rehydrated(rows, lane, now).0.rehydrated(rows, lane, now) == (
            b.rehydrated(rows, lane, now).0,
            0int,
        ),
{
    let after = b.rehydrated(rows, lane, now).0;
    assert forall|k: int| 0 <= k < rows.len() implies (adopted(#[trigger] rows[k], lane, now) matches Some(r)
        ==> after.tracked_as(r.order_id) is Some) by {
        shown_order_is_tracked(b, rows, lane, now, k);
    }
    nothing_new(after, rows, lane, now);
}

/// An order has one claim on its settlement, under its number with or without the prefix.
pub proof fn claim_is_exclusive(b: RestingBookView, id: Seq<char>)
    ensures
        text::bare(prefixed(id)) == text::bare(id),
        text::bare(text::bare(id)) == text::bare(id),
        b.settling.insert(text::bare(id)).contains(text::bare(prefixed(id))),
{
    reveal_strlit("0x");
    bare_is_bare(id);
    let s = prefixed(id);
    assert(s.skip(2) =~= text::bare(id));
}

proof fn bare_is_bare(s: Seq<char>)
    ensures
        text::bare(text::bare(s)) == text::bare(s),
    decreases s.len(),
{
    if s.len() >= 2 && s[0] == '0' && s[1] == 'x' {
        bare_is_bare(s.skip(2));
    }
}

} // verus!
