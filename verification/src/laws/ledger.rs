//! What the books say of money: what is paid, what is held, and what is realised.

use vstd::prelude::*;
use crate::calendar;
use crate::json;
use crate::ledger;
use crate::ledger::{Append, LaneView, LedgerView, Position};
use crate::rows;
use crate::rows::RowView;
use crate::text;
use crate::units;

verus! {

/// Whether an amount of money is within the range.
pub open spec fn fits(x: int) -> bool {
    -0x7fff_ffff_ffff_ffff_ffff_ffff_ffff_ffff <= x <= 0x7fff_ffff_ffff_ffff_ffff_ffff_ffff_ffff
}

/// Whether a number of shares is within the range.
pub open spec fn fits64(x: int) -> bool {
    -0x8000_0000_0000_0000 <= x <= 0x7fff_ffff_ffff_ffff
}

/// What a lane holds of a token: nothing at no cost where it never traded it.
pub open spec fn held(l: LaneView, token: Seq<char>) -> Position {
    if l.positions.contains_key(token) {
        l.positions[token]
    } else {
        Position {
            shares: 0,
            cost: 0,
            proceeds: 0,
            opened_t: 0,
            last_fill_t: 0,
            his_cost: 0,
            his_shares_known: 0,
        }
    }
}

/// Whether a row is a fill of this side: zero buys, any other sells.
pub open spec fn is_fill(r: RowView, buys: bool) -> bool {
    r.ev == "fill"@ && (r.side == 0) == buys
}

proof fn names_apart()
    ensures
        "fill"@.len() == 4,
        "merge"@.len() == 5,
        "settle"@.len() == 6,
        "risk_cleared"@.len() == 12,
        "realised_reset"@.len() == 14,
        "realised_adjust"@.len() == 15,
{
    reveal_strlit("fill");
    reveal_strlit("merge");
    reveal_strlit("settle");
    reveal_strlit("risk_cleared");
    reveal_strlit("realised_reset");
    reveal_strlit("realised_adjust");
}

/// A buy adds to what was paid and to what is held, whatever was held before: the shares by
/// those that were bought, the cost by the shares at their price and the fee. It realises
/// nothing and touches no other token. It opens a position only where none was held.
pub proof fn a_buy_adds(l: LaneView, r: RowView, now: int, other: Seq<char>)
    requires
        is_fill(r, true),
        fits(r.shares * r.price + r.fee * 1_000_000),
        fits(held(l, r.token).cost + r.shares * r.price + r.fee * 1_000_000),
        fits64(held(l, r.token).shares + r.shares),
        other != r.token,
        l.risk.open_positions < usize::MAX,
        l.filled < u64::MAX,
    ensures
        ({
            let p = held(l, r.token);
            let after = l.after(r, now);
            let q = after.positions[r.token];
            &&& after.positions.contains_key(r.token)
            &&& q.cost - p.cost == r.shares * r.price + r.fee * 1_000_000
            &&& q.shares - p.shares == r.shares
            &&& q.proceeds == p.proceeds
            &&& held(after, other) == held(l, other)
            &&& after.risk.realised_pnl == l.risk.realised_pnl
            &&& after.risk.high_water == l.risk.high_water
            &&& after.risk.closed == l.risk.closed
            &&& after.risk.consecutive_losses == l.risk.consecutive_losses
            &&& after.risk.tripped == l.risk.tripped
            &&& after.risk.open_positions == l.risk.open_positions + (if p.shares <= 0 {
                1int
            } else {
                0
            })
            &&& q.opened_t == (if p.shares <= 0 {
                r.t
            } else {
                p.opened_t
            })
            &&& q.last_fill_t >= r.t && q.last_fill_t >= p.last_fill_t
            &&& q.last_fill_t == r.t || q.last_fill_t == p.last_fill_t
            &&& after.filled == l.filled + 1
        }),
{
    names_apart();
}

/// A buy that comes with the leader's price adds to what the leader paid as it adds to what
/// we did; one that comes without leaves that as it was.
pub proof fn a_buy_remembers_the_leaders_price(l: LaneView, r: RowView, now: int)
    requires
        is_fill(r, true),
        r.his_price matches Some(h) ==> fits(held(l, r.token).his_cost + r.shares * h),
        r.his_price is Some ==> fits64(held(l, r.token).his_shares_known + r.shares),
    ensures
        ({
            let p = held(l, r.token);
            let q = l.after(r, now).positions[r.token];
            &&& r.his_price matches Some(h) ==> q.his_cost - p.his_cost == r.shares * h
                && q.his_shares_known - p.his_shares_known == r.shares
            &&& r.his_price is None ==> q.his_cost == p.his_cost && q.his_shares_known
                == p.his_shares_known
        }),
{
    names_apart();
}

/// A buy of today adds its cost to what was spent today, which begins at nothing on a new
/// day; one of another day, one without a time, and one that only follows the chain do not.
pub proof fn a_buy_of_today_is_spent(l: LaneView, r: RowView, now: int)
    requires
        is_fill(r, true),
        fits(r.shares * r.price + r.fee * 1_000_000),
        fits(l.spent_today),
        fits(l.spent_today + r.shares * r.price + r.fee * 1_000_000),
        fits64(calendar::day_of(now)),
    ensures
        ({
            let after = l.after(r, now);
            let had = if l.spent_day == calendar::day_of(now) {
                l.spent_today
            } else {
                0
            };
            &&& after.spent_day == calendar::day_of(now)
            &&& !r.recon && r.t > 0 && calendar::day_of(r.t as int) == calendar::day_of(now)
                ==> after.spent_today - had == r.shares * r.price + r.fee * 1_000_000
            &&& r.recon || r.t <= 0 || calendar::day_of(r.t as int) != calendar::day_of(now)
                ==> after.spent_today == had
        }),
{
    names_apart();
}

/// The books after these rows, one after the other.
pub open spec fn after_rows(l: LaneView, rows: Seq<RowView>, now: int) -> LaneView
    decreases rows.len(),
{
    if rows.len() == 0 {
        l
    } else {
        after_rows(l, rows.drop_last(), now).after(rows.last(), now)
    }
}

/// What these buys cost together.
pub open spec fn paid(rows: Seq<RowView>) -> int
    decreases rows.len(),
{
    if rows.len() == 0 {
        0
    } else {
        paid(rows.drop_last()) + rows.last().shares * rows.last().price + rows.last().fee
            * 1_000_000
    }
}

/// How many shares these buys bring together.
pub open spec fn bought(rows: Seq<RowView>) -> int
    decreases rows.len(),
{
    if rows.len() == 0 {
        0
    } else {
        bought(rows.drop_last()) + rows.last().shares
    }
}

/// After a run of buys of one token, what it cost is what was paid in all of them, and what is
/// held is what was bought in all of them.
pub proof fn a_run_of_buys_sums(l: LaneView, rows: Seq<RowView>, token: Seq<char>, now: int)
    requires
        rows.len() > 0,
        forall|i: int|
            0 <= i < rows.len() ==> is_fill(#[trigger] rows[i], true) && rows[i].token == token,
        forall|i: int|
            0 <= i <= rows.len() ==> fits(held(l, token).cost + paid(#[trigger] rows.take(i)))
                && fits64(held(l, token).shares + bought(rows.take(i))),
        forall|i: int|
            0 <= i < rows.len() ==> fits(
                (#[trigger] rows[i]).shares * rows[i].price + rows[i].fee * 1_000_000,
            ),
    ensures
        held(after_rows(l, rows, now), token).cost == held(l, token).cost + paid(rows),
        held(after_rows(l, rows, now), token).shares == held(l, token).shares + bought(rows),
    decreases rows.len(),
{
    names_apart();
    let before = rows.drop_last();
    let r = rows.last();
    assert(r == rows[rows.len() - 1]);
    assert(rows.take(rows.len() as int) =~= rows);
    assert(rows.take(rows.len() - 1) =~= before);
    assert forall|i: int| 0 <= i < before.len() implies is_fill(#[trigger] before[i], true)
        && before[i].token == token by {
        assert(before[i] == rows[i]);
    }
    assert forall|i: int| 0 <= i <= before.len() implies fits(
        held(l, token).cost + paid(#[trigger] before.take(i)),
    ) && fits64(held(l, token).shares + bought(before.take(i))) by {
        assert(before.take(i) =~= rows.take(i));
    }
    assert forall|i: int| 0 <= i < before.len() implies fits(
        (#[trigger] before[i]).shares * before[i].price + before[i].fee * 1_000_000,
    ) by {
        assert(before[i] == rows[i]);
    }
    if before.len() > 0 {
        a_run_of_buys_sums(l, before, token, now);
    }
    let m = after_rows(l, before, now);
    assert(held(m, token).cost == held(l, token).cost + paid(before));
    assert(held(m.after(r, now), token).cost == held(m, token).cost + r.shares * r.price + r.fee
        * 1_000_000);
}

proof fn a_part_of_a_cost(cost: int, n: int, total: int)
    requires
        0 <= n <= total,
        total > 0,
        0 <= cost,
        fits(cost),
    ensures
        ({
            let x = units::portion(cost, n, total);
            &&& 0 <= x <= cost
            &&& x * total <= cost * n < (x + 1) * total
            &&& n == total ==> x == cost
            &&& n == 0 ==> x == 0
        }),
{
    let y = cost * n;
    assert(0 <= y <= cost * total) by (nonlinear_arith)
        requires
            y == cost * n,
            0 <= cost,
            0 <= n <= total,
    ;
    let q = y / total;
    assert(q * total <= y < (q + 1) * total && 0 <= q <= cost) by (nonlinear_arith)
        requires
            q == y / total,
            0 <= y <= cost * total,
            total > 0,
    ;
    if n == total {
        assert(q == cost) by (nonlinear_arith)
            requires
                q == y / total,
                y == cost * total,
                total > 0,
        ;
    }
    if n == 0 {
        assert(y == 0) by (nonlinear_arith)
            requires
                y == cost * n,
                n == 0,
        ;
    }
}

/// A sell takes no more than is held. It gives up the part of the cost that falls on what it
/// takes, rounded down; all of it where everything goes. What it realises is what it brings,
/// less its fee and less the cost that was given up, and is booked as one closed trade. The
/// position closes where nothing is left. No other token is touched.
pub proof fn a_sell_realises(l: LaneView, r: RowView, now: int, other: Seq<char>)
    requires
        is_fill(r, false),
        !r.recon,
        held(l, r.token).shares > 0,
        held(l, r.token).cost >= 0,
        r.shares >= 0,
        other != r.token,
        ({
            let p = held(l, r.token);
            let n = if r.shares <= p.shares {
                r.shares
            } else {
                p.shares
            };
            let brings = n * r.price - r.fee * 1_000_000;
            &&& fits(brings)
            &&& fits(brings - p.cost)
            &&& fits(p.proceeds + brings)
            &&& fits(l.risk.realised_pnl + brings)
            &&& fits(l.risk.realised_pnl + brings - p.cost)
            &&& fits(l.risk.high_water)
        }),
    ensures
        ({
            let p = held(l, r.token);
            let after = l.after(r, now);
            let q = after.positions[r.token];
            let n = if r.shares <= p.shares {
                r.shares
            } else {
                p.shares
            };
            let given_up = p.cost - q.cost;
            let realised = after.risk.realised_pnl - l.risk.realised_pnl;
            &&& after.positions.contains_key(r.token)
            &&& q.shares == p.shares - n
            &&& 0 <= given_up <= p.cost
            &&& given_up * p.shares <= p.cost * n < (given_up + 1) * p.shares
            &&& n == p.shares ==> q.cost == 0
            &&& q.proceeds - p.proceeds == n * r.price - r.fee * 1_000_000
            &&& realised == n * r.price - r.fee * 1_000_000 - given_up
            &&& after.risk.high_water >= l.risk.high_water && after.risk.high_water
                >= after.risk.realised_pnl
            &&& after.risk.high_water == l.risk.high_water || after.risk.high_water
                == after.risk.realised_pnl
            &&& l.risk.closed.len() < 5000 ==> after.risk.closed == l.risk.closed.push(
                realised as i128,
            )
            &&& realised >= 0 ==> after.risk.consecutive_losses == 0
            &&& realised < 0 && l.risk.consecutive_losses < u32::MAX
                ==> after.risk.consecutive_losses == l.risk.consecutive_losses + 1
            &&& q.shares > 0 ==> after.risk.open_positions == l.risk.open_positions
            &&& q.shares == 0 && l.risk.open_positions > 0 ==> after.risk.open_positions
                == l.risk.open_positions - 1
            &&& after.risk.tripped == l.risk.tripped
            &&& held(after, other) == held(l, other)
            &&& after.spent_today == l.spent_today
            &&& q.opened_t == p.opened_t
        }),
{
    names_apart();
    let p = held(l, r.token);
    let n = if r.shares <= p.shares {
        r.shares as int
    } else {
        p.shares as int
    };
    a_part_of_a_cost(p.cost as int, n, p.shares as int);
}

/// A sell gives up what is known of the leader's cost in the same way: the part that falls on
/// what it takes, of the shares for which it is known.
pub proof fn a_sell_gives_up_the_leaders_cost(l: LaneView, r: RowView, now: int)
    requires
        is_fill(r, false),
        held(l, r.token).shares > 0,
        held(l, r.token).his_cost >= 0,
        held(l, r.token).his_shares_known >= 0,
        r.shares >= 0,
    ensures
        ({
            let p = held(l, r.token);
            let q = l.after(r, now).positions[r.token];
            let n = if r.shares <= p.shares {
                r.shares
            } else {
                p.shares
            };
            let h = if n <= p.his_shares_known {
                n
            } else {
                p.his_shares_known
            };
            let given_up = p.his_cost - q.his_cost;
            &&& q.his_shares_known == p.his_shares_known - h
            &&& p.his_shares_known > 0 ==> given_up * p.his_shares_known <= p.his_cost * h < (
            given_up + 1) * p.his_shares_known
            &&& p.his_shares_known == 0 ==> given_up == 0
        }),
{
    names_apart();
    let p = held(l, r.token);
    let n = if r.shares <= p.shares {
        r.shares as int
    } else {
        p.shares as int
    };
    let h = if n <= p.his_shares_known {
        n
    } else {
        p.his_shares_known as int
    };
    if p.his_shares_known > 0 {
        a_part_of_a_cost(p.his_cost as int, h, p.his_shares_known as int);
    }
}

/// A sell that only follows the chain takes shares and their cost, and realises nothing.
pub proof fn a_sell_on_the_chain_only_takes(l: LaneView, r: RowView, now: int)
    requires
        is_fill(r, false),
        r.recon,
        held(l, r.token).shares > 0,
        held(l, r.token).cost >= 0,
        r.shares >= 0,
    ensures
        ({
            let p = held(l, r.token);
            let after = l.after(r, now);
            let q = after.positions[r.token];
            let n = if r.shares <= p.shares {
                r.shares
            } else {
                p.shares
            };
            &&& q.shares == p.shares - n
            &&& (p.cost - q.cost) * p.shares <= p.cost * n < (p.cost - q.cost + 1) * p.shares
            &&& after.risk.realised_pnl == l.risk.realised_pnl
            &&& after.risk.closed == l.risk.closed
            &&& after.risk.consecutive_losses == l.risk.consecutive_losses
        }),
{
    names_apart();
    let p = held(l, r.token);
    let n = if r.shares <= p.shares {
        r.shares as int
    } else {
        p.shares as int
    };
    a_part_of_a_cost(p.cost as int, n, p.shares as int);
}

/// A settlement pays every share that is held and leaves nothing: what it realises is the
/// payout of all shares less all that they cost. Where nothing is held it changes nothing.
pub proof fn a_settlement_pays_out(l: LaneView, r: RowView, now: int, other: Seq<char>)
    requires
        r.ev == "settle"@,
        other != r.token,
        fits(held(l, r.token).shares * r.payout - held(l, r.token).cost),
        fits(
            l.risk.realised_pnl + held(l, r.token).shares * r.payout - held(l, r.token).cost,
        ),
    ensures
        ({
            let p = held(l, r.token);
            let after = l.after(r, now);
            &&& p.shares > 0 ==> {
                &&& after.positions[r.token].shares == 0 && after.positions[r.token].cost == 0
                &&& after.positions[r.token].his_cost == 0
                &&& after.positions[r.token].his_shares_known == 0
                &&& after.risk.realised_pnl - l.risk.realised_pnl == p.shares * r.payout - p.cost
                &&& l.risk.closed.len() < 5000 ==> after.risk.closed == l.risk.closed.push(
                    (p.shares * r.payout - p.cost) as i128,
                )
                &&& l.risk.open_positions > 0 ==> after.risk.open_positions == l.risk.open_positions
                    - 1
            }
            &&& p.shares <= 0 ==> after == l
            &&& held(after, other) == held(l, other)
            &&& after.spent_today == l.spent_today
        }),
{
    names_apart();
}

/// A merge takes as many pairs as the row says and both sides hold, the same number of either
/// side, and pays one whole for each: what it realises is that less what either side gave up of
/// its cost. Where there is no pair it changes nothing.
pub proof fn a_merge_pays_one_a_pair(l: LaneView, r: RowView, now: int, other: Seq<char>)
    requires
        r.ev == "merge"@,
        r.yes != r.no,
        other != r.yes,
        other != r.no,
        held(l, r.yes).cost >= 0,
        held(l, r.no).cost >= 0,
        fits(l.risk.realised_pnl - held(l, r.yes).cost - held(l, r.no).cost),
        fits(l.risk.realised_pnl + 0x7fff_ffff_ffff_ffff * 1_000_000),
        fits(held(l, r.yes).cost + held(l, r.no).cost),
        fits(held(l, r.yes).proceeds + held(l, r.yes).cost),
        fits(held(l, r.no).proceeds + held(l, r.no).cost),
        fits(held(l, r.yes).proceeds as int),
        fits(held(l, r.no).proceeds as int),
    ensures
        ({
            let y = held(l, r.yes);
            let n = held(l, r.no);
            let after = l.after(r, now);
            let y2 = held(after, r.yes);
            let n2 = held(after, r.no);
            let m = y.shares - y2.shares;
            let cy = y.cost - y2.cost;
            let cn = n.cost - n2.cost;
            &&& m == n.shares - n2.shares
            &&& m >= 0
            &&& y.shares >= 0 && n.shares >= 0 && r.shares >= 0 ==> m <= r.shares && m <= y.shares
                && m <= n.shares && (m == r.shares || m == y.shares || m == n.shares)
            &&& after.risk.realised_pnl - l.risk.realised_pnl == m * 1_000_000 - cy - cn
            &&& m > 0 ==> cy * y.shares <= y.cost * m < (cy + 1) * y.shares && cn * n.shares
                <= n.cost * m < (cn + 1) * n.shares
            &&& m > 0 ==> y2.proceeds - y.proceeds == cy && n2.proceeds - n.proceeds == cn
            &&& m > 0 && l.risk.open_positions >= 2 ==> l.risk.open_positions
                - after.risk.open_positions == (if y2.shares == 0 {
                1int
            } else {
                0
            }) + (if n2.shares == 0 {
                1int
            } else {
                0
            })
            &&& m == 0 ==> after == l
            &&& held(after, other) == held(l, other)
        }),
{
    names_apart();
    let y = held(l, r.yes);
    let n = held(l, r.no);
    let m = l.pairs(r) as int;
    if m > 0 {
        a_part_of_a_cost(y.cost as int, m, y.shares as int);
        a_part_of_a_cost(n.cost as int, m, n.shares as int);
    }
}

/// A reset sets what was realised to nothing, a clear puts the breaker back, an adjustment adds
/// to what was realised; none of them touches what is held, nor does a row of another kind.
pub proof fn notes_touch_no_position(l: LaneView, r: RowView, now: int)
    requires
        r.ev != "fill"@ && r.ev != "settle"@ && r.ev != "merge"@,
        fits(l.risk.realised_pnl + r.pnl),
        fits(l.risk.high_water),
    ensures
        ({
            let after = l.after(r, now);
            &&& after.positions == l.positions
            &&& after.spent_today == l.spent_today
            &&& after.risk.closed == l.risk.closed
            &&& after.risk.open_positions == l.risk.open_positions
            &&& r.ev == "realised_reset"@ ==> after.risk.realised_pnl == 0 && after.risk.tripped
                == l.risk.tripped && after.risk.high_water == l.risk.high_water
            &&& r.ev == "risk_cleared"@ ==> after.risk.tripped is None && after.risk.realised_pnl
                == l.risk.realised_pnl && after.risk.high_water == l.risk.realised_pnl
                && after.risk.consecutive_losses == 0
            &&& r.ev == "realised_adjust"@ ==> after.risk.realised_pnl - l.risk.realised_pnl
                == r.pnl && after.risk.high_water >= l.risk.high_water && after.risk.high_water
                >= after.risk.realised_pnl && (after.risk.high_water == l.risk.high_water
                || after.risk.high_water == after.risk.realised_pnl)
                && after.risk.consecutive_losses == l.risk.consecutive_losses
            &&& r.ev != "realised_reset"@ && r.ev != "risk_cleared"@ && r.ev != "realised_adjust"@
                ==> after == l
        }),
{
    names_apart();
}

/// What a share cost on average is what all of them cost, divided; nothing for no shares. It is
/// what the position says, to the part of a millionth that is cut off.
pub proof fn the_average_is_the_cost_divided(p: Position)
    ensures
        p.shares <= 0 ==> p.average() == 0,
        p.shares > 0 && p.cost >= 0 ==> p.average() * p.shares <= p.cost < (p.average() + 1)
            * p.shares,
        p.shares > 0 && p.cost < 0 ==> (p.average() - 1) * p.shares < p.cost <= p.average()
            * p.shares,
        p.his_shares_known <= 0 ==> ledger::per_share(
            p.his_cost as int,
            p.his_shares_known as int,
        ) is None,
        p.his_shares_known > 0 && p.his_cost >= 0 ==> (ledger::per_share(
            p.his_cost as int,
            p.his_shares_known as int,
        ) matches Some(a) && a * p.his_shares_known <= p.his_cost < (a + 1) * p.his_shares_known),
{
    let c = p.cost as int;
    let n = p.shares as int;
    if n > 0 {
        if c >= 0 {
            assert((c / n) * n <= c < (c / n + 1) * n) by (nonlinear_arith)
                requires
                    n > 0,
            ;
        } else {
            let q = (-c) / n;
            assert(q * n <= -c < (q + 1) * n) by (nonlinear_arith)
                requires
                    n > 0,
                    q == (-c) / n,
            ;
            assert((-q - 1) * n == -((q + 1) * n) && (-q) * n == -(q * n)) by (nonlinear_arith);
        }
    }
    let d = p.his_cost as int;
    let m = p.his_shares_known as int;
    if m > 0 && d >= 0 {
        assert((d / m) * m <= d < (d / m + 1) * m) by (nonlinear_arith)
            requires
                m > 0,
        ;
    }
}

/// A row reaches the books of its own lane and no other; one whose write failed, or whose lane
/// is not there, reaches none, and only the failed write is counted.
pub proof fn a_row_reaches_its_lane(l: LedgerView, r: RowView, now: int, write: Append)
    requires
        l.write_failures < u64::MAX,
    ensures
        ({
            let after = l.committed(r, now, write);
            &&& write is Done && l.lanes.contains_key(r.lane) ==> after.lanes[r.lane]
                == l.lanes[r.lane].after(r, now) && l.accepts(r, write)
            &&& write is Done && l.lanes.contains_key(r.lane) && r.order_hash.len() > 0
                ==> after.booked.contains(r.order_hash)
            &&& forall|h: Seq<char>| #[trigger]
                after.booked.contains(h) ==> l.booked.contains(h) || h == r.order_hash
            &&& forall|h: Seq<char>| #[trigger] l.booked.contains(h) ==> after.booked.contains(h)
            &&& forall|k: Seq<char>| #[trigger]
                l.lanes.contains_key(k) == after.lanes.contains_key(k)
            &&& forall|k: Seq<char>|
                k != r.lane && #[trigger] l.lanes.contains_key(k) ==> after.lanes[k] == l.lanes[k]
            &&& write is Failed || !l.lanes.contains_key(r.lane) ==> after.lanes == l.lanes
                && after.booked == l.booked && !l.accepts(r, write)
            &&& write is Failed && l.lanes.contains_key(r.lane) ==> after.write_failures
                == l.write_failures + 1 && after.last_write_error is Some
            &&& write is Done ==> after.write_failures == l.write_failures
                && after.last_write_error == l.last_write_error
        }),
{
    assert(l.committed(r, now, write).lanes.dom() =~= l.lanes.dom());
    assert forall|k: Seq<char>| #[trigger]
        l.lanes.contains_key(k) == l.committed(r, now, write).lanes.contains_key(k) by {
        assert(l.lanes.dom().contains(k) == l.committed(r, now, write).lanes.dom().contains(k));
    }
}

/// Lines are taken in one after the other: reading a file in two parts is reading it whole.
pub proof fn replay_is_in_order(l: LedgerView, a: Seq<Seq<char>>, b: Seq<Seq<char>>, now: int)
    ensures
        l.replayed(a + b, now) == l.replayed(a, now).replayed(b, now),
    decreases b.len(),
{
    if b.len() == 0 {
        assert(a + b =~= a);
    } else {
        replay_is_in_order(l, a, b.drop_last(), now);
        assert((a + b).drop_last() =~= a + b.drop_last());
        assert((a + b).last() == b.last());
    }
}

/// Every line that says something counts, as an event or as a corrupt line; an empty one does
/// not.
pub proof fn every_line_counts(l: LedgerView, line: Seq<char>, now: int)
    requires
        l.events < u64::MAX,
        l.corrupt_lines < u64::MAX,
    ensures
        ({
            let after = l.after_line(line, now);
            let t = text::trimmed(line);
            &&& t.len() == 0 ==> after == l
            &&& t.len() > 0 && json::document(t) is None ==> after.corrupt_lines
                == l.corrupt_lines + 1 && after.events == l.events && after.lanes == l.lanes
                && after.booked == l.booked
            &&& t.len() > 0 && json::document(t) is Some ==> after.events == l.events + 1
                && after.corrupt_lines == l.corrupt_lines
        }),
{
}

/// A lane that is added later knows what it would know had it been there from the start: to
/// catch up with a file is to replay it, as far as that lane goes. An empty text is taken to
/// be no document.
pub proof fn catching_up_is_replaying(
    l: LedgerView,
    lines: Seq<Seq<char>>,
    lane: Seq<char>,
    now: int,
)
    requires
        l.lanes.contains_key(lane),
        lane.len() > 0,
    ensures
        json::document(Seq::empty()) is None ==> ({
            let a = l.caught_up(ledger::documents(lines), lane, now);
            let b = l.replayed(lines, now);
            a.lanes.contains_key(lane) && b.lanes.contains_key(lane) && a.lanes[lane]
                == b.lanes[lane]
        }),
    decreases lines.len(),
{
    if lines.len() > 0 {
        let rest = lines.drop_last();
        catching_up_is_replaying(l, rest, lane, now);
        let docs = ledger::documents(rest);
        let t = text::trimmed(lines.last());
        match json::document(t) {
            Some(j) => {
                assert(docs.push(j).drop_last() =~= docs);
                let r = rows::read_row(j);
                let named = json::text_in(json::field(j, "lane"@)) == Some(lane);
                assert(named == (r.lane == lane));
                if t.len() == 0 {
                    assert(t =~= Seq::<char>::empty());
                }
            },
            None => {},
        }
    }
}

} // verus!
