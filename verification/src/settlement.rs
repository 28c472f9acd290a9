//! Redemptions of resolved markets.

use vstd::prelude::*;
use crate::json;
use crate::json::Json;
use crate::numerals;
use crate::table::Table;
use crate::text;
use crate::text::{dec_u128, owned};
use crate::units::Qty;

verus! {

/// The key under which every writer knows the settlement of a token in a lane.
pub open spec fn settle_key(lane: Seq<char>, token: Seq<char>) -> Seq<char> {
    "settle:"@ + lane + ":"@ + token
}

/// The key under which every writer knows the settlement of a token in a lane.
pub fn cross_writer_key(lane: &str, token: &str) -> (r: String)
    ensures
        r@ == settle_key(lane@, token@),
{
    let mut s = owned("settle:");
    s.append(lane);
    s.append(":");
    s.append(token);
    s
}

/// What the venue says of a position.
#[derive(Debug, Clone, Copy, PartialEq, Eq)]
pub struct PositionView {
    pub redeemable: bool,
    pub cur_price: Qty,
}

/// What a share of a resolved position pays, where it is resolved.
pub open spec fn payout_of(pos: PositionView) -> Option<i64> {
    match pos.cur_price {
        Qty::Finite(p) => if pos.redeemable && 0 <= p <= 1_000_000 {
            Some(p)
        } else {
            None
        },
        Qty::NotFinite => None,
    }
}

/// What a share of a resolved market pays: its price, where it can be redeemed and the
/// price is a probability.
pub fn resolved_payout(pos: PositionView) -> (r: Option<i64>)
    ensures
        match pos.cur_price {
            Qty::Finite(p) => r == (if pos.redeemable && 0 <= p <= 1_000_000 {
                Some(p)
            } else {
                None
            }),
            Qty::NotFinite => r is None,
        },
        r == payout_of(pos),
{
    match pos.cur_price {
        Qty::Finite(p) => if pos.redeemable && 0 <= p && p <= 1_000_000 {
            Some(p)
        } else {
            None
        },
        Qty::NotFinite => None,
    }
}

/// A billionth, in units of twelve places: no redemption is so small.
pub const DUST: i128 = 1_000;

/// A redemption that the venue tells of; its size and what it paid in units of twelve places.
#[derive(Debug, PartialEq, Eq)]
pub struct Redemption {
    pub tx: String,
    pub condition_id: String,
    pub outcome_index: u32,
    pub asset: String,
    pub size: i128,
    pub usdc: i128,
    pub ts: i64,
}

/// What a redemption says.
#[verifier::ext_equal]
pub struct RedemptionView {
    pub tx: Seq<char>,
    pub condition_id: Seq<char>,
    pub outcome_index: u32,
    pub asset: Seq<char>,
    pub size: i128,
    pub usdc: i128,
    pub ts: i64,
}

impl View for Redemption {
    type V = RedemptionView;

    open spec fn view(&self) -> RedemptionView {
        RedemptionView {
            tx: self.tx@,
            condition_id: self.condition_id@,
            outcome_index: self.outcome_index,
            asset: self.asset@,
            size: self.size,
            usdc: self.usdc,
            ts: self.ts,
        }
    }
}

impl RedemptionView {
    /// What tells one redemption from another.
    pub open spec fn ident(self) -> Seq<char> {
        self.tx + ":"@ + self.condition_id + ":"@ + text::dec(self.outcome_index as nat)
    }

    /// Whether it can be booked: it names its transaction and market, has a time, is of more
    /// than a billionth of a share, and paid between nothing and one a share.
    pub open spec fn bookable(self) -> bool {
        self.tx.len() > 0 && self.condition_id.len() > 0 && self.ts > 0 && self.size > DUST
            && 0 <= self.usdc <= self.size
    }
}

impl Redemption {
    /// What tells one redemption from another.
    pub fn key(&self) -> (r: String)
        ensures
            r@ == self@.ident(),
    {
        let mut s = owned(self.tx.as_str());
        s.append(":");
        s.append(self.condition_id.as_str());
        s.append(":");
        s.append(dec_u128(self.outcome_index as u128).as_str());
        s
    }

    /// What tells the booking of a redemption in one lane from any other.
    pub fn lane_key(&self, lane: &str) -> (r: String)
        ensures
            r@ == lane@ + "|"@ + self@.ident(),
    {
        let mut s = owned(lane);
        s.append("|");
        s.append(self.key().as_str());
        s
    }

    /// Whether it can be booked; see [`RedemptionView::bookable`].
    pub fn is_bookable(&self) -> (r: bool)
        ensures
            r == self@.bookable(),
    {
        text::chars_of(self.tx.as_str()).len() > 0 && text::chars_of(
            self.condition_id.as_str(),
        ).len() > 0 && self.ts > 0 && self.size > DUST && 0 <= self.usdc && self.usdc <= self.size
    }

    /// The token of the redeemed outcome, unless the redemption names another.
    pub fn token<'a>(&self, market_tokens: &'a [String]) -> (r: Option<&'a str>)
        ensures
            match r {
                Some(t) => self.outcome_index < market_tokens@.len() && t@
                    == market_tokens@[self.outcome_index as int]@ && t@.len() > 0 && (
                self.asset@.len() == 0 || self.asset@ == t@),
                None => self.outcome_index >= market_tokens@.len()
                    || market_tokens@[self.outcome_index as int]@.len() == 0 || (
                self.asset@.len() > 0 && self.asset@ != market_tokens@[self.outcome_index as int]@),
            },
    {
        if self.outcome_index as u64 >= market_tokens.len() as u64 {
            return None;
        }
        let token = market_tokens[self.outcome_index as usize].as_str();
        if text::chars_of(token).len() == 0 {
            return None;
        }
        if text::chars_of(self.asset.as_str()).len() > 0 && !text::same(
            self.asset.as_str(),
            token,
        ) {
            return None;
        }
        Some(token)
    }
}

/// A text under a name: empty where there is none, nothing where it is no text.
pub open spec fn text_field(j: Json, name: Seq<char>) -> Option<Seq<char>> {
    match json::field(j, name) {
        None => Some(Seq::empty()),
        Some(Json::Text(s)) => Some(s@),
        _ => None,
    }
}

fn text_of_field(j: &Json, name: &str) -> (r: Option<String>)
    ensures
        match text_field(*j, name@) {
            Some(s) => r matches Some(t) && t@ == s,
            None => r is None,
        },
{
    match j.get(name) {
        None => {
            let s = String::new();
            assert(s@ =~= Seq::<char>::empty());
            Some(s)
        },
        Some(Json::Text(s)) => Some(s.clone()),
        _ => None,
    }
}

/// The redemption that a row tells of: the outcome and what it paid have to be there,
/// and nothing may be of the wrong kind.
pub open spec fn redemption_in(j: Json) -> Option<RedemptionView> {
    match (
        text_field(j, "transactionHash"@),
        text_field(j, "conditionId"@),
        json::unsigned_in(json::field(j, "outcomeIndex"@)),
        text_field(j, "asset"@),
        json::picos_in(json::field(j, "usdcSize"@)),
    ) {
        (Some(tx), Some(condition_id), Some(index), Some(asset), Some(usdc)) => {
            let size = if json::field(j, "size"@) is None {
                Some(0int)
            } else {
                json::picos_in(json::field(j, "size"@))
            };
            let ts = if json::field(j, "timestamp"@) is None {
                Some(0i64)
            } else {
                json::signed_in(json::field(j, "timestamp"@))
            };
            match (size, ts) {
                (Some(size), Some(ts)) => if index <= u32::MAX {
                    Some(
                        RedemptionView {
                            tx,
                            condition_id,
                            outcome_index: index as u32,
                            asset,
                            size: size as i128,
                            usdc: usdc as i128,
                            ts,
                        },
                    )
                } else {
                    None
                },
                _ => None,
            }
        },
        _ => None,
    }
}

fn read_redemption(j: &Json) -> (r: Option<Redemption>)
    ensures
        match redemption_in(*j) {
            Some(v) => r matches Some(x) && x@ == v,
            None => r is None,
        },
{
    match (
        text_of_field(j, "transactionHash"),
        text_of_field(j, "conditionId"),
        j.unsigned_at("outcomeIndex"),
        text_of_field(j, "asset"),
        j.picos_at("usdcSize"),
    ) {
        (Some(tx), Some(condition_id), Some(index), Some(asset), Some(usdc)) => {
            let size: Option<i128> = match j.get("size") {
                None => Some(0),
                Some(_) => j.picos_at("size"),
            };
            let ts: Option<i64> = match j.get("timestamp") {
                None => Some(0),
                Some(_) => j.signed_at("timestamp"),
            };
            match (size, ts) {
                (Some(size), Some(ts)) => if index <= u32::MAX as u64 {
                    Some(
                        Redemption {
                            tx,
                            condition_id,
                            outcome_index: index as u32,
                            asset,
                            size,
                            usdc,
                            ts,
                        },
                    )
                } else {
                    None
                },
                _ => None,
            }
        },
        _ => None,
    }
}

/// What these redemptions say.
pub open spec fn redemption_views(v: Seq<Redemption>) -> Seq<RedemptionView> {
    v.map_values(|r: Redemption| r@)
}

/// The redemptions among these rows that can be booked, in order.
pub open spec fn redemptions_in(rows: Seq<Json>) -> Seq<RedemptionView>
    decreases rows.len(),
{
    if rows.len() == 0 {
        Seq::empty()
    } else {
        let before = redemptions_in(rows.drop_last());
        let j = rows.last();
        match redemption_in(j) {
            Some(r) => if json::text_in(json::field(j, "type"@)) == Some("REDEEM"@)
                && r.bookable() {
                before.push(r)
            } else {
                before
            },
            None => before,
        }
    }
}

/// The redemptions in a reply that can be booked; none where it is no list.
pub fn parse_redemptions(body: &Json) -> (r: Vec<Redemption>)
    ensures
        redemption_views(r@) == (match *body {
            Json::List(rows) => redemptions_in(rows@),
            _ => Seq::empty(),
        }),
{
    let mut out: Vec<Redemption> = Vec::new();
    assert(redemption_views(out@) =~= Seq::<RedemptionView>::empty());
    match body {
        Json::List(rows) => {
            for i in 0..rows.len()
                invariant
                    redemption_views(out@) == redemptions_in(rows@.take(i as int)),
            {
                assert(rows@.take(i + 1).drop_last() =~= rows@.take(i as int));
                let j = &rows[i];
                let redeem = match j.text_at("type") {
                    Some(t) => text::same(t.as_str(), "REDEEM"),
                    None => false,
                };
                let ghost before = redemption_views(out@);
                if let Some(r) = read_redemption(j) {
                    if redeem && r.is_bookable() {
                        let ghost v = r@;
                        out.push(r);
                        assert(redemption_views(out@) =~= before.push(v));
                    }
                }
            }
            assert(rows@.take(rows@.len() as int) =~= rows@);
        },
        _ => {},
    }
    out
}

/// Whether one of these redemptions has this key.
pub open spec fn has_key(v: Seq<RedemptionView>, k: Seq<char>) -> bool {
    exists|i: int| 0 <= i < v.len() && (#[trigger] v[i]).ident() == k
}

/// The redemptions that are not booked yet, each once, in order.
pub open spec fn left_to_book(
    v: Seq<RedemptionView>,
    booked: Map<Seq<char>, ()>,
) -> Seq<RedemptionView>
    decreases v.len(),
{
    if v.len() == 0 {
        Seq::empty()
    } else {
        let before = left_to_book(v.drop_last(), booked);
        let k = v.last().ident();
        if booked.contains_key(k) || has_key(before, k) {
            before
        } else {
            before.push(v.last())
        }
    }
}

/// What these redemptions say.
pub open spec fn refs(v: Seq<&Redemption>) -> Seq<RedemptionView> {
    v.map_values(|r: &Redemption| r@)
}

/// The redemptions that are not booked yet; see [`left_to_book`].
pub fn unbooked<'a>(redemptions: &'a [Redemption], already_booked: &Table<String, ()>) -> (r: Vec<
    &'a Redemption,
>)
    ensures
        refs(r@) == left_to_book(redemption_views(redemptions@), already_booked@),
{
    let ghost all = redemption_views(redemptions@);
    let mut out: Vec<&'a Redemption> = Vec::new();
    assert(refs(out@) =~= Seq::<RedemptionView>::empty());
    for i in 0..redemptions.len()
        invariant
            all == redemption_views(redemptions@),
            refs(out@) == left_to_book(all.take(i as int), already_booked@),
    {
        assert(all.take(i + 1).drop_last() =~= all.take(i as int));
        let x = &redemptions[i];
        let k = x.key();
        let ghost before = refs(out@);
        if !already_booked.has(&k) && !told_of(&out, k.as_str()) {
            out.push(x);
            assert(refs(out@) =~= before.push(x@));
        }
    }
    assert(all.take(all.len() as int) =~= all);
    out
}

fn told_of(v: &Vec<&Redemption>, k: &str) -> (r: bool)
    ensures
        r == has_key(refs(v@), k@),
{
    for i in 0..v.len()
        invariant
            forall|j: int| 0 <= j < i ==> (#[trigger] refs(v@)[j]).ident() != k@,
    {
        assert(refs(v@)[i as int] == v@[i as int]@);
        if text::same(v[i].key().as_str(), k) {
            return true;
        }
    }
    false
}

proof fn left_is_new(v: Seq<RedemptionView>, booked: Map<Seq<char>, ()>, i: int)
    requires
        0 <= i < left_to_book(v, booked).len(),
    ensures
        !booked.contains_key(left_to_book(v, booked)[i].ident()),
    decreases v.len(),
{
    if v.len() > 0 && i < left_to_book(v.drop_last(), booked).len() {
        left_is_new(v.drop_last(), booked, i);
    }
}

proof fn left_is_distinct(v: Seq<RedemptionView>, booked: Map<Seq<char>, ()>, i: int, j: int)
    requires
        0 <= i < j < left_to_book(v, booked).len(),
    ensures
        left_to_book(v, booked)[i].ident() != left_to_book(v, booked)[j].ident(),
    decreases v.len(),
{
    if v.len() > 0 {
        let before = left_to_book(v.drop_last(), booked);
        if j < before.len() {
            left_is_distinct(v.drop_last(), booked, i, j);
        } else {
            assert(before[i].ident() != v.last().ident());
        }
    }
}

/// No two that are handed out for booking are one redemption, and none that is handed out is
/// booked.
pub proof fn booked_at_most_once(v: Seq<RedemptionView>, booked: Map<Seq<char>, ()>)
    ensures
        forall|i: int, j: int|
            0 <= i < j < left_to_book(v, booked).len() ==> (#[trigger] left_to_book(
                v,
                booked,
            )[i]).ident() != (#[trigger] left_to_book(v, booked)[j]).ident(),
        forall|i: int|
            0 <= i < left_to_book(v, booked).len() ==> !booked.contains_key(
                (#[trigger] left_to_book(v, booked)[i]).ident(),
            ),
{
    let r = left_to_book(v, booked);
    assert forall|i: int, j: int| 0 <= i < j < r.len() implies (#[trigger] r[i]).ident() != (
    #[trigger] r[j]).ident() by {
        left_is_distinct(v, booked, i, j);
    }
    assert forall|i: int| 0 <= i < r.len() implies !booked.contains_key(
        (#[trigger] r[i]).ident(),
    ) by {
        left_is_new(v, booked, i);
    }
}

/// Every redemption that is not booked is handed out, itself or one with its key.
pub proof fn none_is_left_behind(v: Seq<RedemptionView>, booked: Map<Seq<char>, ()>, k: int)
    requires
        0 <= k < v.len(),
        !booked.contains_key(v[k].ident()),
    ensures
        has_key(left_to_book(v, booked), v[k].ident()),
    decreases v.len(),
{
    let before = left_to_book(v.drop_last(), booked);
    let r = left_to_book(v, booked);
    if k < v.len() - 1 {
        none_is_left_behind(v.drop_last(), booked, k);
        let i = choose|i: int|
            0 <= i < before.len() && (#[trigger] before[i]).ident() == v[k].ident();
        assert(r[i] == before[i]);
    } else if !has_key(before, v[k].ident()) {
        assert(r[before.len() as int] == v[k]);
    }
}

/// Two outcomes that one transaction redeems in one market are told apart.
pub proof fn outcomes_stay_apart(a: RedemptionView, b: RedemptionView)
    requires
        a.tx == b.tx,
        a.condition_id == b.condition_id,
        a.outcome_index != b.outcome_index,
    ensures
        a.ident() != b.ident(),
{
    let x = text::dec(a.outcome_index as nat);
    let y = text::dec(b.outcome_index as nat);
    numerals::integer_reads_back(a.outcome_index as int);
    numerals::integer_reads_back(b.outcome_index as int);
    let p = a.tx + ":"@ + a.condition_id + ":"@;
    assert(a.ident() == p + x);
    assert(b.ident() == p + y);
    if a.ident() == b.ident() {
        assert((p + x).skip(p.len() as int) =~= x);
        assert((p + y).skip(p.len() as int) =~= y);
    }
}

} // verus!
