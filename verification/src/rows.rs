//! The rows of the ledger: what one line of its file says, and how one is written.

use vstd::prelude::*;
use crate::json;
use crate::json::Json;
use crate::numerals;
use crate::text;
use crate::text::{dec_i128, owned, show};
use crate::units;
use crate::units::clip_of;

verus! {

/// One row as it is read: a field that is missing or of another kind stands as
/// empty, zero or false.
pub struct Row {
    pub ev: String,
    pub lane: String,
    pub token: String,
    pub order_hash: String,
    pub shares: i64,
    pub price: i64,
    pub fee: i64,
    pub his_price: Option<i64>,
    pub side: u8,
    pub recon: bool,
    pub t: i64,
    pub payout: i64,
    pub pnl: i128,
    pub yes: String,
    pub no: String,
}

/// What a row says.
#[verifier::ext_equal]
pub struct RowView {
    pub ev: Seq<char>,
    pub lane: Seq<char>,
    pub token: Seq<char>,
    pub order_hash: Seq<char>,
    pub shares: i64,
    pub price: i64,
    pub fee: i64,
    pub his_price: Option<i64>,
    pub side: u8,
    pub recon: bool,
    pub t: i64,
    pub payout: i64,
    pub pnl: int,
    pub yes: Seq<char>,
    pub no: Seq<char>,
}

impl View for Row {
    type V = RowView;

    open spec fn view(&self) -> RowView {
        RowView {
            ev: self.ev@,
            lane: self.lane@,
            token: self.token@,
            order_hash: self.order_hash@,
            shares: self.shares,
            price: self.price,
            fee: self.fee,
            his_price: self.his_price,
            side: self.side,
            recon: self.recon,
            t: self.t,
            payout: self.payout,
            pnl: self.pnl as int,
            yes: self.yes@,
            no: self.no@,
        }
    }
}

/// A row that says nothing but its event, its lane and its time.
pub open spec fn plain_row(ev: Seq<char>, lane: Seq<char>, t: i64) -> RowView {
    RowView {
        ev,
        lane,
        token: Seq::empty(),
        order_hash: Seq::empty(),
        shares: 0,
        price: 0,
        fee: 0,
        his_price: None,
        side: 0,
        recon: false,
        t,
        payout: 0,
        pnl: 0,
        yes: Seq::empty(),
        no: Seq::empty(),
    }
}

/// An amount under a name, or zero.
pub open spec fn micros_or_zero(j: Json, name: Seq<char>) -> i64 {
    match json::micros_in(json::field(j, name)) {
        Some(v) => v,
        None => 0,
    }
}

/// What a JSON value says as a row.
pub open spec fn read_row(j: Json) -> RowView {
    RowView {
        ev: json::text_or_none(j, "ev"@),
        lane: json::text_or_none(j, "lane"@),
        token: json::text_or_none(j, "token"@),
        order_hash: json::text_or_none(j, "order_hash"@),
        shares: micros_or_zero(j, "shares"@),
        price: micros_or_zero(j, "price"@),
        fee: micros_or_zero(j, "fee"@),
        his_price: json::micros_in(json::field(j, "his_price"@)),
        side: match json::unsigned_in(json::field(j, "side"@)) {
            Some(v) => (v % 256) as u8,
            None => 0,
        },
        recon: json::bool_in(json::field(j, "recon"@)) == Some(true),
        t: match json::signed_in(json::field(j, "t"@)) {
            Some(v) => v,
            None => 0,
        },
        payout: micros_or_zero(j, "payout"@),
        pnl: match json::picos_in(json::field(j, "pnl"@)) {
            Some(v) => v,
            None => 0,
        },
        yes: json::text_or_none(j, "yes"@),
        no: json::text_or_none(j, "no"@),
    }
}

fn micros_or(j: &Json, name: &str) -> (r: i64)
    ensures
        r == micros_or_zero(*j, name@),
{
    match j.micros_at(name) {
        Some(v) => v,
        None => 0,
    }
}

impl Row {
    /// Reads a row out of a JSON value.
    pub fn read(j: &Json) -> (r: Row)
        ensures
            r@ == read_row(*j),
    {
        let side: u8 = match j.unsigned_at("side") {
            Some(v) => (v % 256) as u8,
            None => 0,
        };
        let recon = match j.bool_at("recon") {
            Some(b) => b,
            None => false,
        };
        let t: i64 = match j.signed_at("t") {
            Some(v) => v,
            None => 0,
        };
        let pnl: i128 = match j.picos_at("pnl") {
            Some(v) => v,
            None => 0,
        };
        Row {
            ev: j.text_or_empty("ev"),
            lane: j.text_or_empty("lane"),
            token: j.text_or_empty("token"),
            order_hash: j.text_or_empty("order_hash"),
            shares: micros_or(j, "shares"),
            price: micros_or(j, "price"),
            fee: micros_or(j, "fee"),
            his_price: j.micros_at("his_price"),
            side,
            recon,
            t,
            payout: micros_or(j, "payout"),
            pnl,
            yes: j.text_or_empty("yes"),
            no: j.text_or_empty("no"),
        }
    }
}

/// An amount as the file can hold it: the one amount without a positive counterpart
/// is written as its neighbour.
pub open spec fn writable(m: i64) -> i64 {
    if m == i64::MIN {
        -i64::MAX as i64
    } else {
        m
    }
}

fn writable_of(m: i64) -> (r: i64)
    ensures
        r == writable(m),
{
    if m == i64::MIN {
        -i64::MAX
    } else {
        m
    }
}

proof fn lookup_after_push(f: Seq<(String, Json)>, e: (String, Json), n: Seq<char>)
    ensures
        json::lookup(f.push(e), n) == (if json::lookup(f, n) is Some {
            json::lookup(f, n)
        } else if e.0@ == n {
            Some(e.1)
        } else {
            None
        }),
    decreases f.len(),
{
    reveal_with_fuel(json::lookup, 2);
    if f.len() > 0 {
        assert(f.push(e).skip(1) =~= f.skip(1).push(e));
        lookup_after_push(f.skip(1), e, n);
    } else {
        assert(f.push(e).skip(1).len() == 0);
    }
}

/// Whether `after` are the fields `before` and one more.
pub open spec fn adds(
    before: Seq<(String, Json)>,
    after: Seq<(String, Json)>,
    name: Seq<char>,
    v: Json,
) -> bool {
    forall|n: Seq<char>| #[trigger]
        json::lookup(after, n) == (if json::lookup(before, n) is Some {
            json::lookup(before, n)
        } else if n == name {
            Some(v)
        } else {
            None
        })
}

fn put(f: &mut Vec<(String, Json)>, name: &str, v: Json)
    ensures
        adds(old(f)@, final(f)@, name@, v),
{
    let ghost before = f@;
    let key = owned(name);
    let ghost e = (key, v);
    f.push((key, v));
    proof {
        assert forall|n: Seq<char>| #[trigger]
            json::lookup(f@, n) == (if json::lookup(before, n) is Some {
                json::lookup(before, n)
            } else if n == name@ {
                Some(v)
            } else {
                None
            }) by {
            lookup_after_push(before, e, n);
        }
    }
}

fn put_text(f: &mut Vec<(String, Json)>, name: &str, s: &str) -> (v: Ghost<Json>)
    ensures
        adds(old(f)@, final(f)@, name@, v@),
        json::text_in(Some(v@)) == Some(s@),
{
    let j = Json::Text(owned(s));
    let ghost v = j;
    put(f, name, j);
    Ghost(v)
}

fn put_micros(f: &mut Vec<(String, Json)>, name: &str, m: i64) -> (v: Ghost<Json>)
    ensures
        adds(old(f)@, final(f)@, name@, v@),
        json::micros_in(Some(v@)) == Some(writable(m)),
{
    let w = writable_of(m);
    let j = Json::Number(show(w as i128, 6, 6));
    proof {
        numerals::micros_read_back(w as int);
    }
    let ghost v = j;
    put(f, name, j);
    Ghost(v)
}

fn put_integer(f: &mut Vec<(String, Json)>, name: &str, i: i64) -> (v: Ghost<Json>)
    ensures
        adds(old(f)@, final(f)@, name@, v@),
        json::signed_in(Some(v@)) == Some(i),
        i >= 0 ==> json::unsigned_in(Some(v@)) == Some(i as u64),
{
    let j = Json::Number(dec_i128(i as i128));
    proof {
        numerals::integer_reads_back(i as int);
    }
    let ghost v = j;
    put(f, name, j);
    Ghost(v)
}

/// The row of a fill, with the leader's price where it is known.
pub fn fill_row(
    lane: &str,
    token: &str,
    side: u8,
    shares: i64,
    price: i64,
    fee: i64,
    his_price: Option<i64>,
    t: i64,
) -> (r: Json)
    ensures
        read_row(r) == (RowView {
            token: token@,
            side,
            shares: writable(shares),
            price: writable(price),
            fee: writable(fee),
            his_price: match his_price {
                Some(h) => Some(writable(h)),
                None => None,
            },
            ..plain_row("fill"@, lane@, t)
        }),
{
    let mut f: Vec<(String, Json)> = Vec::new();
    put_text(&mut f, "ev", "fill");
    put_text(&mut f, "lane", lane);
    put_text(&mut f, "token", token);
    put_integer(&mut f, "side", side as i64);
    put_micros(&mut f, "shares", shares);
    put_micros(&mut f, "price", price);
    put_micros(&mut f, "fee", fee);
    match his_price {
        Some(h) => {
            put_micros(&mut f, "his_price", h);
        },
        None => {
            put(&mut f, "his_price", Json::Null);
        },
    }
    put_integer(&mut f, "t", t);
    proof {
        names_apart();
    }
    Json::Fields(f)
}

/// The row of a fill that only brings the book in line with the chain: no trade of
/// ours, and no money spent.
pub fn recon_row(
    lane: &str,
    token: &str,
    side: u8,
    shares: i64,
    price: i64,
    fee: i64,
    t: i64,
) -> (r: Json)
    ensures
        read_row(r) == (RowView {
            token: token@,
            side,
            shares: writable(shares),
            price: writable(price),
            fee: writable(fee),
            recon: true,
            ..plain_row("fill"@, lane@, t)
        }),
{
    let mut f: Vec<(String, Json)> = Vec::new();
    put_text(&mut f, "ev", "fill");
    put_text(&mut f, "lane", lane);
    put_text(&mut f, "token", token);
    put_integer(&mut f, "side", side as i64);
    put_micros(&mut f, "shares", shares);
    put_micros(&mut f, "price", price);
    put_micros(&mut f, "fee", fee);
    put(&mut f, "recon", Json::Bool(true));
    put_integer(&mut f, "t", t);
    proof {
        names_apart();
    }
    Json::Fields(f)
}

/// A row of an event that has nothing but a reason.
pub fn note_row(ev: &str, lane: &str, why: &str, t: i64) -> (r: Json)
    ensures
        read_row(r) == plain_row(ev@, lane@, t),
        json::text_in(json::field(r, "why"@)) == Some(why@),
{
    let mut f: Vec<(String, Json)> = Vec::new();
    put_text(&mut f, "ev", ev);
    put_text(&mut f, "lane", lane);
    put_text(&mut f, "why", why);
    put_integer(&mut f, "t", t);
    proof {
        names_apart();
    }
    Json::Fields(f)
}

/// The row of a settlement.
pub fn settle_row(lane: &str, token: &str, payout: i64, t: i64) -> (r: Json)
    ensures
        read_row(r) == (RowView {
            token: token@,
            payout: writable(payout),
            ..plain_row("settle"@, lane@, t)
        }),
{
    let mut f: Vec<(String, Json)> = Vec::new();
    put_text(&mut f, "ev", "settle");
    put_text(&mut f, "lane", lane);
    put_text(&mut f, "token", token);
    put_micros(&mut f, "payout", payout);
    put_integer(&mut f, "t", t);
    proof {
        names_apart();
    }
    Json::Fields(f)
}

/// The row of a merge of two complementary tokens.
pub fn merge_row(lane: &str, yes: &str, no: &str, shares: i64, t: i64) -> (r: Json)
    ensures
        read_row(r) == (RowView {
            yes: yes@,
            no: no@,
            shares: writable(shares),
            ..plain_row("merge"@, lane@, t)
        }),
{
    let mut f: Vec<(String, Json)> = Vec::new();
    put_text(&mut f, "ev", "merge");
    put_text(&mut f, "lane", lane);
    put_text(&mut f, "yes", yes);
    put_text(&mut f, "no", no);
    put_micros(&mut f, "shares", shares);
    put_integer(&mut f, "t", t);
    proof {
        names_apart();
    }
    Json::Fields(f)
}

/// What an adjustment realises: the proceeds over the cost of the shares, in units
/// of twelve places.
pub open spec fn adjustment(shares: i64, proceeds: i64, avg_cost: i64) -> int {
    units::clip(proceeds * units::ONE - shares * avg_cost)
}

/// The row of a correction of what was realised, with the keys under which it is
/// known where it has any.
pub fn adjust_row(
    lane: &str,
    token: &str,
    shares: i64,
    proceeds: i64,
    avg_cost: i64,
    why: &str,
    keys: Option<(&str, &str)>,
    t: i64,
) -> (r: Json)
    ensures
        read_row(r) == (RowView {
            token: token@,
            shares: writable(shares),
            pnl: adjustment(shares, proceeds, avg_cost),
            ..plain_row("realised_adjust"@, lane@, t)
        }),
        json::text_in(json::field(r, "why"@)) == Some(why@),
        json::micros_in(json::field(r, "proceeds"@)) == Some(writable(proceeds)),
        json::micros_in(json::field(r, "avg_cost"@)) == Some(writable(avg_cost)),
        match keys {
            Some(k) => json::text_in(json::field(r, "key"@)) == Some(k.0@) && json::text_in(
                json::field(r, "alt_key"@),
            ) == Some(k.1@),
            None => json::field(r, "key"@) is None && json::field(r, "alt_key"@) is None,
        },
{
    let gross = units::product(shares, avg_cost);
    let pnl = clip_of(proceeds as i128 * 1_000_000 - gross);
    let mut f: Vec<(String, Json)> = Vec::new();
    put_text(&mut f, "ev", "realised_adjust");
    put_text(&mut f, "lane", lane);
    put_text(&mut f, "token", token);
    put_micros(&mut f, "shares", shares);
    put_micros(&mut f, "proceeds", proceeds);
    put_micros(&mut f, "avg_cost", avg_cost);
    let n = Json::Number(show(pnl, 12, 12));
    proof {
        numerals::picos_read_back(pnl as int);
    }
    put(&mut f, "pnl", n);
    put_text(&mut f, "why", why);
    match keys {
        Some(k) => {
            put_text(&mut f, "key", k.0);
            put_text(&mut f, "alt_key", k.1);
        },
        None => {},
    }
    put_integer(&mut f, "t", t);
    proof {
        names_apart();
    }
    Json::Fields(f)
}

/// How an order was executed, as rows say it.
pub open spec fn exec_name(resting: bool) -> Seq<char> {
    if resting {
        "maker"@
    } else {
        "taker"@
    }
}

/// The row of a fill that is booked under the hash of its order.
pub fn booked_row(
    lane: &str,
    token: &str,
    side: u8,
    shares: i64,
    price: i64,
    fee: i64,
    his_price: Option<i64>,
    order_hash: &str,
    resting: bool,
    lane_id: Option<&String>,
    px_provisional: bool,
    t: i64,
) -> (r: Json)
    ensures
        read_row(r) == (RowView {
            token: token@,
            order_hash: order_hash@,
            side,
            shares: writable(shares),
            price: writable(price),
            fee: writable(fee),
            his_price: match his_price {
                Some(h) => Some(writable(h)),
                None => None,
            },
            ..plain_row("fill"@, lane@, t)
        }),
        json::text_in(json::field(r, "exec"@)) == Some(exec_name(resting)),
        json::text_in(json::field(r, "lane_id"@)) == (match lane_id {
            Some(id) => Some(id@),
            None => None,
        }),
        json::bool_in(json::field(r, "px_provisional"@)) == (if px_provisional {
            Some(true)
        } else {
            None
        }),
{
    let mut f: Vec<(String, Json)> = Vec::new();
    put_text(&mut f, "ev", "fill");
    put_text(&mut f, "lane", lane);
    put_text(&mut f, "token", token);
    put_integer(&mut f, "side", side as i64);
    put_micros(&mut f, "shares", shares);
    put_micros(&mut f, "price", price);
    put_micros(&mut f, "fee", fee);
    match his_price {
        Some(h) => {
            put_micros(&mut f, "his_price", h);
        },
        None => {
            put(&mut f, "his_price", Json::Null);
        },
    }
    put_text(
        &mut f,
        "exec",
        if resting {
            "maker"
        } else {
            "taker"
        },
    );
    put_text(&mut f, "order_hash", order_hash);
    put_integer(&mut f, "t", t);
    if let Some(id) = lane_id {
        put_text(&mut f, "lane_id", id.as_str());
    }
    if px_provisional {
        put(&mut f, "px_provisional", Json::Bool(true));
    }
    proof {
        names_apart();
    }
    Json::Fields(f)
}

/// No two of the names that rows use are the same: each has its own length and
/// first letter.
proof fn names_apart()
    ensures
        "ev"@.len() == 2 && "ev"@[0] == 'e',
        "lane"@.len() == 4 && "lane"@[0] == 'l',
        "token"@.len() == 5 && "token"@[0] == 't',
        "order_hash"@.len() == 10 && "order_hash"@[0] == 'o',
        "shares"@.len() == 6 && "shares"@[0] == 's',
        "price"@.len() == 5 && "price"@[0] == 'p',
        "fee"@.len() == 3 && "fee"@[0] == 'f',
        "his_price"@.len() == 9 && "his_price"@[0] == 'h',
        "side"@.len() == 4 && "side"@[0] == 's',
        "recon"@.len() == 5 && "recon"@[0] == 'r',
        "t"@.len() == 1 && "t"@[0] == 't',
        "payout"@.len() == 6 && "payout"@[0] == 'p',
        "pnl"@.len() == 3 && "pnl"@[0] == 'p',
        "yes"@.len() == 3 && "yes"@[0] == 'y',
        "no"@.len() == 2 && "no"@[0] == 'n',
        "exec"@.len() == 4 && "exec"@[0] == 'e',
        "why"@.len() == 3 && "why"@[0] == 'w',
        "key"@.len() == 3 && "key"@[0] == 'k',
        "alt_key"@.len() == 7 && "alt_key"@[0] == 'a',
        "lane_id"@.len() == 7 && "lane_id"@[0] == 'l',
        "px_provisional"@.len() == 14 && "px_provisional"@[0] == 'p',
        "proceeds"@.len() == 8 && "proceeds"@[0] == 'p',
        "avg_cost"@.len() == 8 && "avg_cost"@[0] == 'a',
{
    reveal_strlit("ev");
    reveal_strlit("lane");
    reveal_strlit("token");
    reveal_strlit("order_hash");
    reveal_strlit("shares");
    reveal_strlit("price");
    reveal_strlit("fee");
    reveal_strlit("his_price");
    reveal_strlit("side");
    reveal_strlit("recon");
    reveal_strlit("t");
    reveal_strlit("payout");
    reveal_strlit("pnl");
    reveal_strlit("yes");
    reveal_strlit("no");
    reveal_strlit("exec");
    reveal_strlit("why");
    reveal_strlit("key");
    reveal_strlit("alt_key");
    reveal_strlit("lane_id");
    reveal_strlit("px_provisional");
    reveal_strlit("proceeds");
    reveal_strlit("avg_cost");
}

} // verus!
