//! When the breaker of a lane stops it, and what it counts.

use vstd::prelude::*;
use crate::risk;
use crate::risk::{LaneRisk, RiskConfig, RiskView};

verus! {

/// A sum.
pub open spec fn added(s: Seq<i128>) -> int
    decreases s.len(),
{
    if s.len() == 0 {
        0
    } else {
        s[0] + added(s.skip(1))
    }
}

/// Whether an amount can be kept as it is.
pub open spec fn fits(x: int) -> bool {
    -1_000_000_000_000_000_000_000_000_000_000_000_000 <= x
        <= 1_000_000_000_000_000_000_000_000_000_000_000_000
}

/// Whether every sum from the start can be kept as it is.
pub open spec fn sums_fit(s: Seq<i128>) -> bool {
    forall|i: int| 0 <= i <= s.len() ==> fits(added(#[trigger] s.take(i)))
}

proof fn added_at_the_end(s: Seq<i128>)
    requires
        s.len() > 0,
    ensures
        added(s) == added(s.drop_last()) + s.last(),
    decreases s.len(),
{
    if s.len() > 1 {
        added_at_the_end(s.skip(1));
        assert(s.skip(1).drop_last() =~= s.drop_last().skip(1));
        assert(s.skip(1).last() == s.last());
    } else {
        assert(s.skip(1) =~= Seq::empty());
        assert(s.drop_last() =~= Seq::empty());
    }
}

proof fn sum_is_the_sum(s: Seq<i128>)
    requires
        sums_fit(s),
    ensures
        risk::sum(s) == added(s),
    decreases s.len(),
{
    if s.len() > 0 {
        assert forall|i: int| 0 <= i <= s.drop_last().len() implies fits(
            added(#[trigger] s.drop_last().take(i)),
        ) by {
            assert(s.drop_last().take(i) =~= s.take(i));
        }
        sum_is_the_sum(s.drop_last());
        added_at_the_end(s);
        assert(s.take(s.len() as int) =~= s);
    }
}

/// The window is judged on the newest trades that were closed, and on those alone: the limit
/// is reached exactly when they sum to no more than the threshold, whatever was closed before
/// them.
pub proof fn the_window_holds_the_newest_trades(
    l: LaneRisk,
    older: Seq<i128>,
    newest: Seq<i128>,
)
    requires
        l.closed@ == older + newest,
        newest.len() == l.cfg.pnl_skew_window,
        l.cfg.pnl_skew_window > 0,
        l.cfg.pnl_skew_threshold_usd < 0,
        sums_fit(newest),
    ensures
        l.recent() == added(newest),
        l.over_skew() <==> added(newest) <= l.cfg.pnl_skew_threshold_usd * 1_000_000,
{
    assert(l.closed@.skip(l.closed@.len() - l.cfg.pnl_skew_window) =~= newest);
    sum_is_the_sum(newest);
}

/// Two lanes with the same limits and the same newest trades are judged alike on their window.
pub proof fn older_trades_do_not_count(
    a: LaneRisk,
    b: LaneRisk,
    older_a: Seq<i128>,
    older_b: Seq<i128>,
    newest: Seq<i128>,
)
    requires
        a.cfg == b.cfg,
        a.closed@ == older_a + newest,
        b.closed@ == older_b + newest,
        newest.len() == a.cfg.pnl_skew_window,
    ensures
        a.over_skew() == b.over_skew(),
{
    assert(a.closed@.skip(a.closed@.len() - a.cfg.pnl_skew_window) =~= newest);
    assert(b.closed@.skip(b.closed@.len() - b.cfg.pnl_skew_window) =~= newest);
}

/// Whether a lane has lost as much from its highest mark as its limit in dollars.
pub open spec fn fell_by_dollars(l: LaneRisk) -> bool {
    &&& l.cfg.max_drawdown_usd > 0
    &&& l.high_water - l.realised_pnl >= l.cfg.max_drawdown_usd * 1_000_000
}

/// Whether a lane has lost as large a part of its highest mark as its limit, in millionths.
pub open spec fn fell_by_part(l: LaneRisk) -> bool {
    &&& l.cfg.max_drawdown_pct > 0
    &&& l.high_water > 0
    &&& (l.high_water - l.realised_pnl) * 1_000_000 >= l.cfg.max_drawdown_pct * l.high_water
}

/// A lane is stopped where, and only where, one of its limits is reached: what it lost from its
/// highest mark, in dollars or as a part of the mark; how many losses it made in a row; how
/// little its newest trades brought; or how many positions are open. A limit of zero is none.
pub proof fn a_lane_stops_at_its_limits(l: LaneRisk, older: Seq<i128>, newest: Seq<i128>)
    requires
        fits(l.high_water - l.realised_pnl),
        l.closed@ == older + newest,
        newest.len() == l.cfg.pnl_skew_window || (older.len() == 0 && newest.len()
            < l.cfg.pnl_skew_window),
        sums_fit(newest),
    ensures
        l.breach() is Some <==> {
            ||| fell_by_dollars(l)
            ||| fell_by_part(l)
            ||| l.cfg.max_consecutive_losses > 0 && l.consecutive_losses
                >= l.cfg.max_consecutive_losses
            ||| l.cfg.pnl_skew_window > 0 && l.cfg.pnl_skew_threshold_usd < 0 && newest.len()
                == l.cfg.pnl_skew_window && added(newest) <= l.cfg.pnl_skew_threshold_usd
                * 1_000_000
            ||| l.cfg.max_open_positions > 0 && l.open_positions > l.cfg.max_open_positions
        },
{
    if l.cfg.pnl_skew_window > 0 && l.cfg.pnl_skew_threshold_usd < 0 && newest.len()
        == l.cfg.pnl_skew_window {
        the_window_holds_the_newest_trades(l, older, newest);
    }
    let d = l.high_water - l.realised_pnl;
    if l.cfg.max_drawdown_pct > 0 && l.high_water > 0 {
        let (p, h) = (l.cfg.max_drawdown_pct, l.high_water);
        assert(p * h > 0) by (nonlinear_arith)
            requires
                p > 0,
                h > 0,
        ;
    }
}

/// Where several limits are reached, the first of them gives the reason: a lane that lost too
/// much is told so however many positions it holds.
pub proof fn the_reason_is_the_first_limit(l: LaneRisk)
    requires
        fits(l.high_water - l.realised_pnl),
        fell_by_dollars(l),
    ensures
        l.breach() matches Some(t) && t.take("drawdown $"@.len() as int) == "drawdown $"@,
{
    reveal_strlit("drawdown $");
    let t = l.breach()->0;
    assert(t.take("drawdown $"@.len() as int) =~= "drawdown $"@);
}

/// The highest of zero and the sums from the start, over a start.
pub open spec fn highest(start: int, from: int, s: Seq<i128>) -> int
    decreases s.len(),
{
    if s.len() == 0 {
        from
    } else {
        let h = highest(start, from, s.drop_last());
        let now = start + added(s);
        if now > h {
            now
        } else {
            h
        }
    }
}

/// How many trades at the end were losses.
pub open spec fn losses_at_the_end(s: Seq<i128>) -> int
    decreases s.len(),
{
    if s.len() == 0 || s.last() >= 0 {
        0
    } else {
        losses_at_the_end(s.drop_last()) + 1
    }
}

/// A lane after some trades were closed, one after another.
pub open spec fn after_trades(v: RiskView, pnls: Seq<i128>) -> RiskView
    decreases pnls.len(),
{
    if pnls.len() == 0 {
        v
    } else {
        after_trades(v, pnls.drop_last()).closed_with(pnls.last() as int)
    }
}

/// After any trades, what was realised is what it was plus their sum, the mark is the highest
/// that it stood at, and the losses in a row are those that no gain or even trade has followed.
/// No trade opens or closes a position, trips the breaker or clears it.
pub proof fn trades_are_counted(v: RiskView, pnls: Seq<i128>)
    requires
        fits(v.high_water),
        pnls.len() < u32::MAX,
        v.consecutive_losses == 0,
        forall|i: int|
            0 <= i <= pnls.len() ==> fits(v.realised_pnl + added(#[trigger] pnls.take(i))),
    ensures
        ({
            let a = after_trades(v, pnls);
            &&& a.realised_pnl == v.realised_pnl + added(pnls)
            &&& a.high_water == highest(v.realised_pnl, v.high_water, pnls)
            &&& a.consecutive_losses == losses_at_the_end(pnls)
            &&& a.open_positions == v.open_positions
            &&& a.tripped == v.tripped
            &&& a.cfg == v.cfg
            &&& fits(a.high_water)
            &&& 0 <= losses_at_the_end(pnls) <= pnls.len()
        }),
    decreases pnls.len(),
{
    if pnls.len() > 0 {
        assert forall|i: int| 0 <= i <= pnls.drop_last().len() implies fits(
            v.realised_pnl + added(#[trigger] pnls.drop_last().take(i)),
        ) by {
            assert(pnls.drop_last().take(i) =~= pnls.take(i));
        }
        trades_are_counted(v, pnls.drop_last());
        added_at_the_end(pnls);
        assert(pnls.take(pnls.len() as int) =~= pnls);
    } else {
        assert(pnls.take(0) =~= pnls);
    }
}

/// A trade joins the closed ones at the end, and of those before it the newest stay, in their
/// order: all of them, while there are fewer than five thousand, and never less than the
/// newest two and a half thousand.
pub proof fn the_newest_trades_stay(v: RiskView, pnl: i128)
    ensures
        ({
            let after = v.closed_with(pnl as int).closed;
            &&& after.len() > 0 && after.last() == pnl
            &&& after.len() <= v.closed.len() + 1
            &&& after == v.closed.push(pnl).skip(v.closed.len() + 1 - after.len())
            &&& v.closed.len() < 5000 ==> after.len() == v.closed.len() + 1
            &&& v.closed.len() >= 5000 ==> after.len() == v.closed.len() + 1 - 2500
        }),
{
    let all = v.closed.push(pnl);
    assert(all.skip(0) =~= all);
}

/// A correction moves what was realised, and the mark with it, and nothing else: it is no
/// trade.
pub proof fn a_correction_is_no_trade(v: RiskView, pnl: int)
    requires
        fits(v.realised_pnl + pnl),
        fits(v.high_water),
    ensures
        ({
            let a = v.adjusted(pnl);
            &&& a.realised_pnl - v.realised_pnl == pnl
            &&& a.high_water >= v.high_water && a.high_water >= a.realised_pnl
            &&& a.high_water == v.high_water || a.high_water == a.realised_pnl
            &&& a.closed == v.closed
            &&& a.consecutive_losses == v.consecutive_losses
            &&& a.open_positions == v.open_positions
            &&& a.tripped == v.tripped
        }),
{
}

/// Opening a position and giving it up again leaves a lane as it was, and no more are given up
/// than are open.
pub proof fn what_opens_and_closes(v: RiskView, n: int)
    requires
        0 <= v.open_positions < usize::MAX,
        n >= 0,
    ensures
        v.opened().open_positions == v.open_positions + 1,
        v.opened().flattened(1) == v,
        v.flattened(n).open_positions >= 0,
        v.flattened(n).open_positions == v.open_positions - n || (v.flattened(n).open_positions
            == 0 && n > v.open_positions),
{
}

/// Once the breaker is out it stays out with its reason, however often it is asked; while it
/// is in, it goes out when a limit is reached, with the reason that it answers, and asking
/// changes nothing else.
pub proof fn the_breaker_stays_out(
    a: LaneRisk,
    b: LaneRisk,
    c: LaneRisk,
    first: Option<String>,
    second: Option<String>,
)
    requires
        risk::asking(a, b, first),
        risk::asking(b, c, second),
    ensures
        first is Some <==> a.tripped is Some || a.breach() is Some,
        first is Some <==> b.tripped is Some,
        first matches Some(t) ==> (b.tripped matches Some(u) && u@ == t@),
        first matches Some(t) ==> (second matches Some(u) && u@ == t@),
        first is None <==> second is None,
        c == b,
        a.tripped matches Some(t) ==> (first matches Some(u) && u@ == t@),
        b.closed == a.closed && b.realised_pnl == a.realised_pnl && b.high_water == a.high_water
            && b.consecutive_losses == a.consecutive_losses && b.open_positions
            == a.open_positions && b.cfg == a.cfg && b.name == a.name,
{
}

/// A lane that is cleared is in again and starts from where it stands: it has lost nothing
/// from its mark and no trades in a row, and keeps what it realised, its trades and its
/// positions.
pub proof fn clearing_starts_anew(v: RiskView)
    ensures
        v.cleared().tripped is None,
        v.cleared().high_water == v.cleared().realised_pnl,
        v.cleared().realised_pnl == v.realised_pnl,
        v.cleared().consecutive_losses == 0,
        v.cleared().closed == v.closed,
        v.cleared().open_positions == v.open_positions,
        v.cleared().cfg == v.cfg,
{
}

/// A lane starts with nothing realised, nothing open and no limit reached.
pub proof fn a_lane_starts_with_nothing(name: Seq<char>, cfg: RiskConfig)
    ensures
        ({
            let v = risk::at_the_start(name, cfg);
            &&& v.realised_pnl == 0 && v.high_water == 0 && v.consecutive_losses == 0
            &&& v.open_positions == 0 && v.closed.len() == 0 && v.tripped is None
            &&& v.cfg == cfg && v.name == name
        }),
{
}

/// Closing a trade on a lane is what its view says.
pub proof fn closing_is_the_view(before: LaneRisk, after: LaneRisk, pnl: i128)
    requires
        risk::closing(before, after, pnl),
    ensures
        after@ == before@.closed_with(pnl as int),
{
}

/// A part is told in percent to the nearest tenth, and half a tenth up.
pub proof fn a_part_is_told_to_the_tenth(a: int, b: int, tenths: nat)
    requires
        b > 0,
        tenths <= u128::MAX,
        2 * tenths * b <= 2_000 * a + b < 2 * tenths * b + 2 * b,
    ensures
        risk::percent(a, b) == crate::text::dec(tenths / 10) + seq!['.'] + crate::text::pad(
            tenths % 10,
            1,
        ),
{
    let (x, y) = (2 * (a * 1000) + b, 2 * b);
    assert(2 * tenths * b == tenths * y) by (nonlinear_arith)
        requires
            y == 2 * b,
    ;
    vstd::arithmetic::div_mod::lemma_fundamental_div_mod_converse(
        x,
        y,
        tenths as int,
        x - tenths * y,
    );
}

} // verus!
