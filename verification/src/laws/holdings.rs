//! What the lanes hold together, what of it is adopted or released, and how merges are booked.

use vstd::prelude::*;
use crate::ledger;
use crate::ledger::{Append, Booked, LaneBook, LedgerFile, LedgerView, Position};
use crate::risk::RiskConfig;
use crate::rows;
use crate::text;
use crate::units::Qty;

verus! {

/// What the open positions cost, summed.
pub open spec fn cost_of(vals: Seq<Position>) -> int
    decreases vals.len(),
{
    if vals.len() == 0 {
        0
    } else {
        cost_of(vals.drop_last()) + (if vals.last().shares > 0 {
            vals.last().cost as int
        } else {
            0
        })
    }
}

/// What stands open is the cost of every position of which any is held, summed; what is no
/// longer held costs nothing.
pub proof fn what_stands_open_is_summed(vals: Seq<Position>)
    requires
        forall|i: int|
            0 <= i <= vals.len()
                ==> -1_000_000_000_000_000_000_000_000_000_000_000_000 <= cost_of(
                #[trigger] vals.take(i),
            ) <= 1_000_000_000_000_000_000_000_000_000_000_000_000,
    ensures
        ledger::open_cost(vals) == cost_of(vals),
    decreases vals.len(),
{
    if vals.len() > 0 {
        let before = vals.drop_last();
        assert forall|i: int| 0 <= i <= before.len() implies
            -1_000_000_000_000_000_000_000_000_000_000_000_000 <= cost_of(
            #[trigger] before.take(i),
        ) <= 1_000_000_000_000_000_000_000_000_000_000_000_000 by {
            assert(before.take(i) =~= vals.take(i));
        }
        what_stands_open_is_summed(before);
        assert(vals.take(vals.len() as int) =~= vals);
    }
}

/// A lane holds what it has shares of, so many of each, and nothing else.
pub proof fn a_lane_holds_what_it_has_shares_of(m: Map<Seq<char>, Position>, token: Seq<char>)
    ensures
        ledger::open_shares(m).contains_key(token) <==> m.contains_key(token) && m[token].shares
            > 0,
        ledger::open_shares(m).contains_key(token) ==> ledger::open_shares(m)[token]
            == m[token].shares,
{
}

/// The lanes together claim of a token what each of them holds, summed, whichever lane comes
/// first.
pub proof fn the_lanes_claim_what_they_hold(a: Seq<LaneBook>, b: Seq<LaneBook>, tok: Seq<char>)
    ensures
        ledger::claimed(a + b, tok) == ledger::claimed(a, tok) + ledger::claimed(b, tok),
        ledger::claimed(a + b, tok) == ledger::claimed(b + a, tok),
    decreases b.len(),
{
    claims_add(a, b, tok);
    claims_add(b, a, tok);
}

proof fn claims_add(a: Seq<LaneBook>, b: Seq<LaneBook>, tok: Seq<char>)
    ensures
        ledger::claimed(a + b, tok) == ledger::claimed(a, tok) + ledger::claimed(b, tok),
    decreases b.len(),
{
    if b.len() == 0 {
        assert(a + b =~= a);
    } else {
        assert((a + b).drop_last() =~= a + b.drop_last());
        claims_add(a, b.drop_last(), tok);
    }
}

/// One lane claims what it holds.
pub proof fn one_lane_claims_what_it_holds(b: LaneBook, tok: Seq<char>)
    ensures
        ledger::claimed(seq![b], tok) == (if b@.positions.contains_key(tok) {
            b@.positions[tok].shares as int
        } else {
            0
        }),
{
    assert(seq![b].drop_last() =~= Seq::empty());
    reveal_with_fuel(ledger::claimed, 2);
}

/// A position is quiet when nothing was filled of it for so long.
pub open spec fn rests(p: Position, quiet_secs: i64, now: i64) -> bool {
    p.shares > 0 && p.last_fill_t > 0 && now >= p.last_fill_t + quiet_secs
}

/// What is adopted is what the chain shows over the books, as far as no other lane claims it:
/// afterwards the lane holds no more than the chain shows, and neither do the lanes together.
/// It is adopted of a quiet position alone, more than a thousandth of a share, and never where
/// as much as the limit is over.
pub proof fn what_is_adopted_is_on_the_chain(
    p: Position,
    on_chain: int,
    claimed: int,
    quiet_secs: i64,
    now: i64,
    max_shares: i64,
)
    ensures
        ({
            let a = ledger::adoption(p, on_chain, claimed, quiet_secs, now, max_shares);
            &&& a matches Some(n) ==> n > 1_000 && p.shares + n <= on_chain && claimed + n
                <= on_chain && (p.shares + n == on_chain || claimed + n == on_chain)
            &&& a is Some <==> rests(p, quiet_secs, now) && on_chain - p.shares > 1_000 && on_chain
                - p.shares < max_shares && on_chain - claimed > 1_000
        }),
{
}

/// What is released is what the books hold over the chain: afterwards they hold what it shows.
/// A hundredth of a share is let be while the chain shows any.
pub proof fn what_is_released_is_not_on_the_chain(
    p: Position,
    on_chain: int,
    quiet_secs: i64,
    now: i64,
)
    ensures
        ({
            let r = ledger::release(p, on_chain, quiet_secs, now);
            &&& r matches Some(n) ==> n > 0 && p.shares - n == on_chain
            &&& r is Some <==> rests(p, quiet_secs, now) && p.shares > on_chain && (p.shares
                - on_chain > 10_000 || on_chain <= 0)
        }),
{
}

/// Each position is looked at once: one more adds what is adopted or released of it, at its own
/// average cost, and changes nothing of the others.
pub proof fn each_position_is_looked_at_once(
    keys: Seq<Seq<char>>,
    vals: Seq<Position>,
    lanes: Seq<LaneBook>,
    chain: Map<Seq<char>, i64>,
    quiet_secs: i64,
    now: i64,
    max_shares: i64,
    k: Seq<char>,
    p: Position,
)
    requires
        keys.len() == vals.len(),
    ensures
        ({
            let shown = if chain.contains_key(k) {
                chain[k] as int
            } else {
                0
            };
            let before = ledger::adoptions(
                keys,
                vals,
                lanes,
                chain,
                quiet_secs,
                now,
                max_shares,
            );
            let after = ledger::adoptions(
                keys.push(k),
                vals.push(p),
                lanes,
                chain,
                quiet_secs,
                now,
                max_shares,
            );
            let a = ledger::adoption(
                p,
                shown,
                ledger::claimed(lanes, k),
                quiet_secs,
                now,
                max_shares,
            );
            let gone = ledger::releases(keys, vals, chain, quiet_secs, now);
            let more = ledger::releases(keys.push(k), vals.push(p), chain, quiet_secs, now);
            let r = ledger::release(p, shown, quiet_secs, now);
            let open = ledger::open_rows(keys, vals);
            let now_open = ledger::open_rows(keys.push(k), vals.push(p));
            &&& a is None ==> after == before
            &&& a matches Some(n) ==> after == before.push((k, n, p.average()))
            &&& r is None ==> more == gone
            &&& r matches Some(n) ==> more == gone.push((k, n, p.average()))
            &&& p.shares > 0 ==> now_open == open.push((k, p))
            &&& p.shares <= 0 ==> now_open == open
        }),
{
    assert(keys.push(k).drop_last() =~= keys);
    assert(vals.push(p).drop_last() =~= vals);
}

/// The pairs that a lane holds are the lesser of the two sides.
pub proof fn the_pairs_are_the_lesser_side(
    l: LedgerView,
    lane: Seq<char>,
    yes: Seq<char>,
    no: Seq<char>,
)
    requires
        l.lanes.contains_key(lane),
    ensures
        ({
            let n = ledger::pairs_held(l, lane, yes, no);
            let y = l.lanes[lane].position(yes).shares;
            let z = l.lanes[lane].position(no).shares;
            n <= y && n <= z && (n == y || n == z)
        }),
        ledger::pairs_held(l, lane, yes, no) == ledger::pairs_held(l, lane, no, yes),
{
}

/// A merge pays a dollar a pair, divided between the sides as their marks are: the first gets
/// the nearest millionth of its part, and the other what is left of the dollar. Where the marks
/// tell nothing each gets half.
pub proof fn a_merge_is_divided_by_the_marks(a: i64, b: i64)
    requires
        a >= 0,
        b >= 0,
        a + b > 0,
    ensures
        ({
            let p = ledger::merge_price(Qty::Finite(a), Qty::Finite(b));
            &&& -(a + b) <= 2 * (p * (a + b) - a * 1_000_000) <= a + b
            &&& 0 <= p <= 1_000_000
        }),
        ledger::merge_price(Qty::NotFinite, Qty::Finite(b)) == 500_000,
        ledger::merge_price(Qty::Finite(a), Qty::NotFinite) == 500_000,
        ledger::merge_price(Qty::Finite(0), Qty::Finite(0)) == 500_000,
        ledger::side_price(Qty::Finite(a), Qty::Finite(b), true) + ledger::side_price(
            Qty::Finite(a),
            Qty::Finite(b),
            false,
        ) == 1_000_000,
{
    let d = a + b;
    let x = a * 2 * 1_000_000 + d;
    vstd::arithmetic::div_mod::lemma_fundamental_div_mod(x, 2 * d);
    vstd::arithmetic::div_mod::lemma_mod_bound(x, 2 * d);
    let q = x / (2 * d);
    assert((2 * d) * q == 2 * (q * d)) by (nonlinear_arith);
    ledger::merge_prices_make_one(Qty::Finite(a), Qty::Finite(b));
    if q > 1_000_000 {
        assert(q * d >= 1_000_001 * d) by (nonlinear_arith)
            requires
                q >= 1_000_001,
                d > 0,
        ;
        assert(1_000_001 * d == 1_000_000 * d + d);
    }
}

/// A merge is booked as a sale of each side, of as many shares as pairs, at prices that make a
/// dollar; it is booked once, under a name for each side, and both receipts come or none.
pub proof fn a_merge_is_booked_as_two_sales(
    l: LedgerView,
    lane: Seq<char>,
    token_a: Seq<char>,
    token_b: Seq<char>,
    n: i64,
    mark_a: Qty,
    mark_b: Qty,
    tx: Seq<char>,
    t: i64,
)
    requires
        n > 0,
        l.lanes.contains_key(lane),
        tx.len() > 0,
        !l.booked.contains(tx + ":a"@),
        !l.booked.contains(tx + ":b"@),
    ensures
        ({
            let (after, r) = ledger::merge_booked(
                l,
                lane,
                token_a,
                token_b,
                Qty::Finite(n),
                mark_a,
                mark_b,
                tx,
                t,
                Append::Done,
                Append::Done,
            );
            &&& r matches Some(b) && b.0.shares == n && b.1.shares == n && b.0.price + b.1.price
                == 1_000_000 && b.0.price == ledger::merge_price(mark_a, mark_b) && {
                let sale_a = sale(lane, token_a, n, b.0.price, t);
                let sale_b = sale(lane, token_b, n, b.1.price, t);
                after.lanes[lane] == l.lanes[lane].after(
                    rows::RowView { order_hash: tx + ":a"@, ..sale_a },
                    t as int,
                ).after(rows::RowView { order_hash: tx + ":b"@, ..sale_b }, t as int)
            }
            &&& after.booked.contains(tx + ":a"@) && after.booked.contains(tx + ":b"@)
        }),
{
    reveal_strlit(":a");
    reveal_strlit(":b");
    ledger::merge_prices_make_one(mark_a, mark_b);
    let ha = tx + ":a"@;
    let hb = tx + ":b"@;
    assert(ha[tx.len() as int + 1] == 'a');
    assert(hb[tx.len() as int + 1] == 'b');
    assert(ha != hb);
}

/// A sale at a price, as a row says it.
pub open spec fn sale(
    lane: Seq<char>,
    token: Seq<char>,
    shares: i64,
    price: i64,
    t: i64,
) -> rows::RowView {
    rows::RowView {
        ev: "fill"@,
        lane,
        token,
        order_hash: Seq::empty(),
        shares,
        price,
        fee: 0,
        his_price: None,
        side: 1,
        recon: false,
        t,
        payout: 0,
        pnl: 0,
        yes: Seq::empty(),
        no: Seq::empty(),
    }
}

/// Nothing is booked of a merge of no pairs, and where the first side cannot be booked the
/// second is not tried.
pub proof fn half_a_merge_is_not_begun_twice(
    l: LedgerView,
    lane: Seq<char>,
    token_a: Seq<char>,
    token_b: Seq<char>,
    pairs: Qty,
    mark_a: Qty,
    mark_b: Qty,
    tx: Seq<char>,
    t: i64,
    e: String,
    write_b: Append,
)
    requires
        tx.len() > 0,
        !l.booked.contains(tx + ":a"@),
    ensures
        ({
            let (after, r) = ledger::merge_booked(
                l,
                lane,
                token_a,
                token_b,
                pairs,
                mark_a,
                mark_b,
                tx,
                t,
                Append::Failed(e),
                write_b,
            );
            r is None && after.lanes == l.lanes && after.booked == l.booked
        }),
{
}

/// A fill says what was filled: its lane, token, side, shares, price, fee, time and the
/// leader's price, and that it is no reconciliation.
pub proof fn a_fill_says_what_was_filled(
    lane: Seq<char>,
    token: Seq<char>,
    side: u8,
    shares: i64,
    price: i64,
    fee: i64,
    his_price: Option<i64>,
    t: i64,
)
    requires
        shares > i64::MIN,
        price > i64::MIN,
        fee > i64::MIN,
        his_price matches Some(h) ==> h > i64::MIN,
    ensures
        ({
            let r = ledger::fill_view(lane, token, side, shares, price, fee, his_price, t);
            &&& r.ev == "fill"@ && r.lane == lane && r.token == token && r.side == side
            &&& r.shares == shares && r.price == price && r.fee == fee
            &&& r.his_price == his_price && r.t == t && !r.recon && r.order_hash.len() == 0
        }),
{
}

/// A correction realises what came in less what the shares cost on average.
pub proof fn a_correction_realises_the_difference(
    lane: Seq<char>,
    token: Seq<char>,
    shares: i64,
    proceeds: i64,
    avg_cost: i64,
    t: i64,
)
    ensures
        ({
            let r = ledger::adjust_view(lane, token, shares, proceeds, avg_cost, t);
            &&& r.ev == "realised_adjust"@ && r.lane == lane && r.token == token && r.t == t
            &&& r.pnl + shares * avg_cost == proceeds * 1_000_000
        }),
{
    let x = shares * avg_cost;
    assert(-0x4000_0000_0000_0000_0000_0000_0000_0000 <= x
        <= 0x4000_0000_0000_0000_0000_0000_0000_0000) by (nonlinear_arith)
        requires
            x == shares * avg_cost,
            -0x8000_0000_0000_0000 <= shares <= 0x7fff_ffff_ffff_ffff,
            -0x8000_0000_0000_0000 <= avg_cost <= 0x7fff_ffff_ffff_ffff,
    ;
}

/// An order is booked once: its receipt comes again, and the books stay as they are.
pub proof fn an_order_is_booked_once(
    l: LedgerView,
    row: rows::RowView,
    fill: Booked,
    now: int,
    write: Append,
)
    ensures
        row.order_hash.len() > 0 && l.booked.contains(row.order_hash) ==> ledger::booked_into(
            l,
            row,
            now,
            write,
        ) == l && ledger::receipt_for(l, row, fill, write) == Some(fill),
        row.order_hash.len() == 0 || !l.booked.contains(row.order_hash) ==> ledger::booked_into(
            l,
            row,
            now,
            write,
        ) == l.committed(row, now, write) && (ledger::receipt_for(l, row, fill, write) is Some
            <==> l.lanes.contains_key(row.lane) && write is Done),
{
}

/// A ledger starts with its lanes, each with its limits and nothing else; a lane that is named
/// again has the limits that it was named with last.
pub proof fn a_ledger_starts_with_its_lanes(
    path: Seq<char>,
    cfgs: Seq<(String, RiskConfig)>,
    now: int,
    i: int,
)
    requires
        0 <= i < cfgs.len(),
        forall|j: int| i < j < cfgs.len() ==> (#[trigger] cfgs[j]).0@ != cfgs[i].0@,
    ensures
        ({
            let l = ledger::starting(path, cfgs, now);
            &&& l.lanes.contains_key(cfgs[i].0@)
            &&& l.lanes[cfgs[i].0@].risk.cfg == cfgs[i].1
            &&& l.lanes[cfgs[i].0@].risk.realised_pnl == 0
            &&& l.lanes[cfgs[i].0@].positions == Map::<Seq<char>, Position>::empty()
            &&& l.booked == Set::<Seq<char>>::empty()
            &&& l.events == 0 && l.corrupt_lines == 0 && l.last_write_error is None
        }),
    decreases cfgs.len(),
{
    let before = cfgs.drop_last();
    assert(cfgs.last() == cfgs[cfgs.len() - 1]);
    if i < cfgs.len() - 1 {
        assert forall|j: int| i < j < before.len() implies (#[trigger] before[j]).0@
            != before[i].0@ by {
            assert(before[j] == cfgs[j]);
        }
        a_ledger_starts_with_its_lanes(path, before, now, i);
    } else {
        starts_empty(path, before, now);
    }
}

proof fn starts_empty(path: Seq<char>, cfgs: Seq<(String, RiskConfig)>, now: int)
    ensures
        ({
            let l = ledger::starting(path, cfgs, now);
            &&& l.booked == Set::<Seq<char>>::empty()
            &&& l.events == 0 && l.corrupt_lines == 0 && l.last_write_error is None
        }),
    decreases cfgs.len(),
{
    if cfgs.len() > 0 {
        starts_empty(path, cfgs.drop_last(), now);
    }
}

/// A file that is not there opens an empty ledger, one that cannot be read tells so, and one
/// that can is replayed whole.
pub proof fn a_file_is_replayed(
    path: Seq<char>,
    cfgs: Seq<(String, RiskConfig)>,
    raw: String,
    why: String,
    now: int,
)
    ensures
        ledger::opened(path, cfgs, LedgerFile::Text(raw), now) == ledger::starting(
            path,
            cfgs,
            now,
        ).replayed(text::lines_of(raw@), now),
        ledger::opened(path, cfgs, LedgerFile::Missing, now) == ledger::starting(path, cfgs, now),
        ledger::opened(path, cfgs, LedgerFile::Unreadable(why), now).last_write_error is Some,
        ledger::opened(path, cfgs, LedgerFile::Unreadable(why), now).lanes == ledger::starting(
            path,
            cfgs,
            now,
        ).lanes,
{
}

/// A lane that is there is left as it is; one that is not is there afterwards, with its limits,
/// and no other lane changes.
pub proof fn a_lane_is_added_once(
    l: LedgerView,
    name: Seq<char>,
    cfg: RiskConfig,
    now: int,
    other: Seq<char>,
)
    requires
        other != name,
    ensures
        l.lanes.contains_key(name) ==> l.with_lane(name, cfg, None, now) == l,
        !l.lanes.contains_key(name) ==> ({
            let a = l.with_lane(name, cfg, None, now);
            &&& a.lanes.contains_key(name) && a.lanes[name].risk.cfg == cfg
            &&& a.lanes[name].positions == Map::<Seq<char>, Position>::empty()
            &&& a.lanes.contains_key(other) == l.lanes.contains_key(other)
            &&& l.lanes.contains_key(other) ==> a.lanes[other] == l.lanes[other]
        }),
        l.with_lane(name, cfg, None, now).with_lane(name, cfg, None, now) == l.with_lane(
            name,
            cfg,
            None,
            now,
        ),
{
    reveal(LedgerView::with_lane);
}

} // verus!
