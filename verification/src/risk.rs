//! The circuit breaker of one lane: what it has realised, and when it stops.
//!
//! Money here counts units of twelve decimal places, so that a number of shares
//! times a price is exact; the limits are in millionths.

use vstd::prelude::*;
use crate::json::Json;
use crate::text;
use crate::text::{dec_u128, owned, show};
use crate::units;
use crate::units::{clip_of, diff_of, max_of, sum_of};
use crate::words;

verus! {

/// The limits of a lane; zero turns a limit off.
#[derive(Debug, Clone, Copy, PartialEq, Eq, Structural)]
pub struct RiskConfig {
    pub max_drawdown_usd: i64,
    pub max_drawdown_pct: i64,
    pub max_consecutive_losses: u32,
    pub pnl_skew_window: usize,
    pub pnl_skew_threshold_usd: i64,
    pub max_open_positions: usize,
}

impl Default for RiskConfig {
    fn default() -> (r: Self)
        ensures
            r == no_limits(),
    {
        RiskConfig {
            max_drawdown_usd: 0,
            max_drawdown_pct: 0,
            max_consecutive_losses: 0,
            pnl_skew_window: 0,
            pnl_skew_threshold_usd: 0,
            max_open_positions: 0,
        }
    }
}

/// Every limit off.
pub open spec fn no_limits() -> RiskConfig {
    RiskConfig {
        max_drawdown_usd: 0,
        max_drawdown_pct: 0,
        max_consecutive_losses: 0,
        pnl_skew_window: 0,
        pnl_skew_threshold_usd: 0,
        max_open_positions: 0,
    }
}

/// What a lane has won and lost, and whether its breaker is out.
#[derive(Debug)]
pub struct LaneRisk {
    pub name: String,
    pub cfg: RiskConfig,
    pub realised_pnl: i128,
    pub high_water: i128,
    pub consecutive_losses: u32,
    pub open_positions: usize,
    pub closed: Vec<i128>,
    pub tripped: Option<String>,
}

/// What a lane's breaker holds.
#[verifier::ext_equal]
pub struct RiskView {
    pub name: Seq<char>,
    pub cfg: RiskConfig,
    pub realised_pnl: int,
    pub high_water: int,
    pub consecutive_losses: int,
    pub open_positions: int,
    pub closed: Seq<i128>,
    pub tripped: Option<Seq<char>>,
}

impl View for LaneRisk {
    type V = RiskView;

    open spec fn view(&self) -> RiskView {
        RiskView {
            name: self.name@,
            cfg: self.cfg,
            realised_pnl: self.realised_pnl as int,
            high_water: self.high_water as int,
            consecutive_losses: self.consecutive_losses as int,
            open_positions: self.open_positions as int,
            closed: self.closed@,
            tripped: match self.tripped {
                Some(t) => Some(t@),
                None => None,
            },
        }
    }
}

impl RiskView {
    /// The state after a correction.
    pub open spec fn adjusted(self, pnl: int) -> RiskView {
        let now = units::clip(self.realised_pnl + pnl);
        RiskView {
            realised_pnl: now,
            high_water: units::clip(units::larger(self.high_water, now)),
            ..self
        }
    }

    /// The state after a closed trade.
    pub open spec fn closed_with(self, pnl: int) -> RiskView {
        RiskView {
            closed: closed_after(self.closed, pnl as i128),
            consecutive_losses: if pnl < 0 {
                units::smaller(self.consecutive_losses + 1, u32::MAX as int)
            } else {
                0
            },
            ..self.adjusted(pnl)
        }
    }

    /// The state after a position was opened.
    pub open spec fn opened(self) -> RiskView {
        RiskView {
            open_positions: units::smaller(self.open_positions + 1, usize::MAX as int),
            ..self
        }
    }

    /// The state after `n` positions have gone flat.
    pub open spec fn flattened(self, n: int) -> RiskView {
        RiskView { open_positions: units::larger(self.open_positions - n, 0), ..self }
    }

    /// The state after the breaker was put back.
    pub open spec fn cleared(self) -> RiskView {
        RiskView {
            tripped: None,
            high_water: self.realised_pnl,
            consecutive_losses: 0,
            ..self
        }
    }
}

/// How many closed trades are remembered before the older half is dropped.
pub const CLOSED_CAP: usize = 5000;

/// How many of the oldest closed trades are dropped then.
pub const CLOSED_DROP: usize = 2500;

/// The closed trades after one more of them.
pub open spec fn closed_after(closed: Seq<i128>, pnl: i128) -> Seq<i128> {
    let all = closed.push(pnl);
    if all.len() > CLOSED_CAP {
        all.skip(CLOSED_DROP as int)
    } else {
        all
    }
}

/// The sum of amounts from the left, held within the range at each step.
pub open spec fn sum(s: Seq<i128>) -> int
    decreases s.len(),
{
    if s.len() == 0 {
        0
    } else {
        units::clip(sum(s.drop_last()) + s.last())
    }
}

/// One hundred times `a / b` with one decimal place, rounded half up.
pub open spec fn percent(a: int, b: int) -> Seq<char> {
    let q = units::smaller(words::nearest(a * 1000, b), u128::MAX as int) as nat;
    text::dec(q / 10) + seq!['.'] + text::pad(q % 10, 1)
}

/// How a closed trade with the result `pnl` changes a lane.
pub open spec fn closing(before: LaneRisk, after: LaneRisk, pnl: i128) -> bool {
    &&& after.realised_pnl == units::clip(before.realised_pnl + pnl)
    &&& after.high_water == units::clip(
        units::larger(before.high_water as int, units::clip(before.realised_pnl + pnl)),
    )
    &&& after.closed@ == closed_after(before.closed@, pnl)
    &&& after.consecutive_losses == (if pnl < 0 {
        units::smaller(before.consecutive_losses + 1, u32::MAX as int)
    } else {
        0
    })
    &&& after.name == before.name
    &&& after.cfg == before.cfg
    &&& after.open_positions == before.open_positions
    &&& after.tripped == before.tripped
}

/// How the breaker answers, and what that changes.
pub open spec fn asking(before: LaneRisk, after: LaneRisk, answer: Option<String>) -> bool {
    match before.tripped {
        Some(t) => (answer matches Some(s) && s@ == t@) && after == before,
        None => match before.breach() {
            Some(t) => (answer matches Some(s) && s@ == t) && (after.tripped matches Some(s) && s@
                == t) && after == (LaneRisk { tripped: after.tripped, ..before }),
            None => answer is None && after == before,
        },
    }
}

impl LaneRisk {
    /// How far the realised result lies under its peak.
    pub open spec fn depth(self) -> int {
        units::larger(units::clip(self.high_water - self.realised_pnl), 0)
    }

    /// The sum of the last `pnl_skew_window` closed trades.
    pub open spec fn recent(self) -> int {
        sum(self.closed@.skip(self.closed@.len() - self.cfg.pnl_skew_window))
    }

    /// The drawdown limit in dollars is reached.
    pub open spec fn over_usd(self) -> bool {
        self.cfg.max_drawdown_usd > 0 && self.depth() >= self.cfg.max_drawdown_usd * units::ONE
    }

    /// The drawdown limit as a fraction of the peak is reached.
    pub open spec fn over_pct(self) -> bool {
        self.cfg.max_drawdown_pct > 0 && self.high_water > 0 && self.depth() * units::ONE
            >= self.cfg.max_drawdown_pct * self.high_water
    }

    /// The limit on losses in a row is reached.
    pub open spec fn over_losses(self) -> bool {
        self.cfg.max_consecutive_losses > 0 && self.consecutive_losses
            >= self.cfg.max_consecutive_losses
    }

    /// A full window of closed trades sums to the threshold or less.
    pub open spec fn over_skew(self) -> bool {
        self.cfg.pnl_skew_window > 0 && self.cfg.pnl_skew_threshold_usd < 0 && self.closed@.len()
            >= self.cfg.pnl_skew_window && self.recent() <= self.cfg.pnl_skew_threshold_usd
            * units::ONE
    }

    /// More positions are open than allowed.
    pub open spec fn over_open(self) -> bool {
        self.cfg.max_open_positions > 0 && self.open_positions > self.cfg.max_open_positions
    }

    /// Whether any limit is reached.
    pub open spec fn over_any(self) -> bool {
        self.over_usd() || self.over_pct() || self.over_losses() || self.over_skew()
            || self.over_open()
    }

    /// Why the breaker goes out, by the first limit that is reached; nothing where
    /// none is.
    pub open spec fn breach(self) -> Option<Seq<char>> {
        if self.over_usd() {
            Some(
                "drawdown $"@ + text::fixed(self.depth(), 12, 2) + " >= $"@ + text::fixed(
                    self.cfg.max_drawdown_usd as int,
                    6,
                    2,
                ),
            )
        } else if self.over_pct() {
            Some(
                "drawdown "@ + percent(self.depth(), self.high_water as int)
                    + "% of high-water $"@ + text::fixed(self.high_water as int, 12, 2) + " >= "@
                    + text::fixed(self.cfg.max_drawdown_pct * 100, 6, 1) + "%"@,
            )
        } else if self.over_losses() {
            Some(
                text::dec(self.consecutive_losses as nat) + " consecutive losses >= "@ + text::dec(
                    self.cfg.max_consecutive_losses as nat,
                ),
            )
        } else if self.over_skew() {
            Some(
                "rolling "@ + text::dec(self.cfg.pnl_skew_window as nat) + "-trade PnL $"@
                    + text::fixed(self.recent(), 12, 2) + " <= $"@ + text::fixed(
                    self.cfg.pnl_skew_threshold_usd as int,
                    6,
                    2,
                ),
            )
        } else if self.over_open() {
            Some(
                text::dec(self.open_positions as nat) + " open positions > "@ + text::dec(
                    self.cfg.max_open_positions as nat,
                ),
            )
        } else {
            None
        }
    }

    /// A lane that has traded nothing.
    pub fn new(name: &str, cfg: RiskConfig) -> (r: Self)
        ensures
            r.name@ == name@,
            r.cfg == cfg,
            r.realised_pnl == 0,
            r.high_water == 0,
            r.consecutive_losses == 0,
            r.open_positions == 0,
            r.closed@ == Seq::<i128>::empty(),
            r.tripped is None,
            r@ == at_the_start(name@, cfg),
    {
        LaneRisk {
            name: owned(name),
            cfg,
            realised_pnl: 0,
            high_water: 0,
            consecutive_losses: 0,
            open_positions: 0,
            closed: Vec::new(),
            tripped: None,
        }
    }

    /// Books the result of a closed trade.
    pub fn on_close(&mut self, pnl: i128)
        ensures
            closing(*old(self), *final(self), pnl),
            final(self)@ == old(self)@.closed_with(pnl as int),
    {
        self.realised_pnl = sum_of(self.realised_pnl, pnl);
        self.high_water = clip_of(max_of(self.high_water, self.realised_pnl));
        self.closed.push(pnl);
        if self.closed.len() > CLOSED_CAP {
            let ghost all = self.closed@;
            let rest = self.closed.split_off(CLOSED_DROP);
            assert(rest@ =~= all.skip(CLOSED_DROP as int));
            self.closed = rest;
        }
        if pnl < 0 {
            if self.consecutive_losses < u32::MAX {
                self.consecutive_losses = self.consecutive_losses + 1;
            }
        } else {
            self.consecutive_losses = 0;
        }
    }

    /// Books a correction that is no trade of its own.
    pub fn on_adjust(&mut self, pnl: i128)
        ensures
            final(self).realised_pnl == units::clip(old(self).realised_pnl + pnl),
            final(self).high_water == units::clip(
                units::larger(
                    old(self).high_water as int,
                    units::clip(old(self).realised_pnl + pnl),
                ),
            ),
            final(self).closed == old(self).closed,
            final(self).consecutive_losses == old(self).consecutive_losses,
            final(self).name == old(self).name,
            final(self).cfg == old(self).cfg,
            final(self).open_positions == old(self).open_positions,
            final(self).tripped == old(self).tripped,
            final(self)@ == old(self)@.adjusted(pnl as int),
    {
        self.realised_pnl = sum_of(self.realised_pnl, pnl);
        self.high_water = clip_of(max_of(self.high_water, self.realised_pnl));
    }

    /// Counts a position that was opened.
    pub fn on_open(&mut self)
        ensures
            *final(self) == (LaneRisk {
                open_positions: units::smaller(
                    old(self).open_positions + 1,
                    usize::MAX as int,
                ) as usize,
                ..*old(self)
            }),
            final(self)@ == old(self)@.opened(),
    {
        if self.open_positions < usize::MAX {
            self.open_positions = self.open_positions + 1;
        }
    }

    /// Counts a position that has gone flat.
    pub fn on_flat(&mut self)
        ensures
            *final(self) == (LaneRisk {
                open_positions: units::larger(old(self).open_positions - 1, 0) as usize,
                ..*old(self)
            }),
            final(self)@ == old(self)@.flattened(1),
    {
        if self.open_positions > 0 {
            self.open_positions = self.open_positions - 1;
        }
    }

    /// How far the realised result lies under its peak.
    pub fn drawdown(&self) -> (r: i128)
        ensures
            r == self.depth(),
    {
        max_of(diff_of(self.high_water, self.realised_pnl), 0)
    }

    fn recent_sum(&self) -> (r: i128)
        requires
            self.cfg.pnl_skew_window <= self.closed@.len(),
        ensures
            r == self.recent(),
            units::in_range(r as int),
    {
        let from = self.closed.len() - self.cfg.pnl_skew_window;
        let ghost tail = self.closed@.skip(from as int);
        let mut acc: i128 = 0;
        for i in from..self.closed.len()
            invariant
                from <= self.closed@.len(),
                tail == self.closed@.skip(from as int),
                acc == sum(tail.take(i - from)),
                units::in_range(acc as int),
        {
            assert(tail.take(i - from + 1).drop_last() =~= tail.take(i - from));
            acc = sum_of(acc, self.closed[i]);
        }
        assert(tail.take(tail.len() as int) =~= tail);
        acc
    }

    fn breach_text(&self) -> (r: Option<String>)
        ensures
            match self.breach() {
                Some(t) => r matches Some(s) && s@ == t,
                None => r is None,
            },
    {
        let c = self.cfg;
        let dd = self.drawdown();
        if c.max_drawdown_usd > 0 && dd >= c.max_drawdown_usd as i128 * 1_000_000 {
            let mut s = owned("drawdown $");
            s.append(show(dd, 12, 2).as_str());
            s.append(" >= $");
            s.append(show(c.max_drawdown_usd as i128, 6, 2).as_str());
            return Some(s);
        }
        if c.max_drawdown_pct > 0 && self.high_water > 0 {
            if exceeds(dd, self.high_water, c.max_drawdown_pct) {
                let s = self.pct_text(dd);
                return Some(s);
            }
        }
        if c.max_consecutive_losses > 0 && self.consecutive_losses >= c.max_consecutive_losses {
            let mut s = dec_u128(self.consecutive_losses as u128);
            s.append(" consecutive losses >= ");
            s.append(dec_u128(c.max_consecutive_losses as u128).as_str());
            return Some(s);
        }
        if c.pnl_skew_window > 0 && c.pnl_skew_threshold_usd < 0 && self.closed.len()
            >= c.pnl_skew_window {
            let w = self.recent_sum();
            if w <= c.pnl_skew_threshold_usd as i128 * 1_000_000 {
                let mut s = owned("rolling ");
                s.append(dec_u128(c.pnl_skew_window as u128).as_str());
                s.append("-trade PnL $");
                s.append(show(w, 12, 2).as_str());
                s.append(" <= $");
                s.append(show(c.pnl_skew_threshold_usd as i128, 6, 2).as_str());
                return Some(s);
            }
        }
        if c.max_open_positions > 0 && self.open_positions > c.max_open_positions {
            let mut s = dec_u128(self.open_positions as u128);
            s.append(" open positions > ");
            s.append(dec_u128(c.max_open_positions as u128).as_str());
            return Some(s);
        }
        None
    }

    fn pct_text(&self, dd: i128) -> (r: String)
        requires
            dd == self.depth(),
            self.high_water > 0,
        ensures
            r@ == "drawdown "@ + percent(self.depth(), self.high_water as int)
                + "% of high-water $"@ + text::fixed(self.high_water as int, 12, 2) + " >= "@
                + text::fixed(self.cfg.max_drawdown_pct * 100, 6, 1) + "%"@,
    {
        let p = percent_text(dd, self.high_water);
        let mut s = owned("drawdown ");
        s.append(p.as_str());
        s.append("% of high-water $");
        s.append(show(self.high_water, 12, 2).as_str());
        s.append(" >= ");
        s.append(show(self.cfg.max_drawdown_pct as i128 * 100, 6, 1).as_str());
        s.append("%");
        s
    }

    /// Asks the breaker. Once it is out it stays out, with the reason it went out
    /// for; until then the first limit that is reached puts it out.
    pub fn evaluate(&mut self) -> (r: Option<String>)
        ensures
            asking(*old(self), *final(self), r),
    {
        if let Some(r) = &self.tripped {
            return Some(r.clone());
        }
        match self.breach_text() {
            Some(s) => self.trip(s),
            None => None,
        }
    }

    fn trip(&mut self, reason: String) -> (r: Option<String>)
        ensures
            r matches Some(s) && s@ == reason@,
            final(self).tripped == Some(reason),
            *final(self) == (LaneRisk { tripped: final(self).tripped, ..*old(self) }),
    {
        let copy = reason.clone();
        self.tripped = Some(reason);
        Some(copy)
    }

    /// Puts the breaker back and measures from where the lane stands now.
    pub fn clear(&mut self)
        ensures
            *final(self) == (LaneRisk {
                tripped: None,
                high_water: old(self).realised_pnl,
                consecutive_losses: 0,
                ..*old(self)
            }),
            final(self)@ == old(self)@.cleared(),
    {
        self.tripped = None;
        self.high_water = self.realised_pnl;
        self.consecutive_losses = 0;
    }

    /// The lane's state for a status page, money to four places.
    pub fn snapshot(&self) -> (r: Json)
        ensures
            r matches Json::Fields(f) && f@.len() == 8 && names_of(f@) == seq![
                "lane"@,
                "realised_pnl"@,
                "high_water"@,
                "drawdown"@,
                "consecutive_losses"@,
                "open_positions"@,
                "closed_trades"@,
                "tripped"@,
            ] && (f@[0].1 matches Json::Text(s) && s@ == self.name@) && (
            f@[1].1 matches Json::Number(s) && s@ == text::fixed(self.realised_pnl as int, 12, 4))
                && (f@[2].1 matches Json::Number(s) && s@ == text::fixed(
                self.high_water as int,
                12,
                4,
            )) && (f@[3].1 matches Json::Number(s) && s@ == text::fixed(self.depth(), 12, 4)) && (
            f@[4].1 matches Json::Number(s) && s@ == text::dec(self.consecutive_losses as nat)) && (
            f@[5].1 matches Json::Number(s) && s@ == text::dec(self.open_positions as nat)) && (
            f@[6].1 matches Json::Number(s) && s@ == text::dec(self.closed@.len())) && (
            match self.tripped {
                Some(t) => f@[7].1 matches Json::Text(s) && s@ == t@,
                None => f@[7].1 == Json::Null,
            }),
    {
        let mut f: Vec<(String, Json)> = Vec::new();
        f.push((owned("lane"), Json::Text(self.name.clone())));
        f.push((owned("realised_pnl"), Json::Number(show(self.realised_pnl, 12, 4))));
        f.push((owned("high_water"), Json::Number(show(self.high_water, 12, 4))));
        f.push((owned("drawdown"), Json::Number(show(self.drawdown(), 12, 4))));
        f.push(
            (
                owned("consecutive_losses"),
                Json::Number(dec_u128(self.consecutive_losses as u128)),
            ),
        );
        f.push((owned("open_positions"), Json::Number(dec_u128(self.open_positions as u128))));
        f.push((owned("closed_trades"), Json::Number(dec_u128(self.closed.len() as u128))));
        let why = match &self.tripped {
            Some(t) => Json::Text(t.clone()),
            None => Json::Null,
        };
        f.push((owned("tripped"), why));
        assert(names_of(f@) =~= seq![
            "lane"@,
            "realised_pnl"@,
            "high_water"@,
            "drawdown"@,
            "consecutive_losses"@,
            "open_positions"@,
            "closed_trades"@,
            "tripped"@,
        ]);
        Json::Fields(f)
    }
}

/// A lane that has not traded.
pub open spec fn at_the_start(name: Seq<char>, cfg: RiskConfig) -> RiskView {
    RiskView {
        name,
        cfg,
        realised_pnl: 0,
        high_water: 0,
        consecutive_losses: 0,
        open_positions: 0,
        closed: Seq::empty(),
        tripped: None,
    }
}

/// The names of an object's fields.
pub open spec fn names_of(f: Seq<(String, Json)>) -> Seq<Seq<char>> {
    f.map_values(|e: (String, Json)| e.0@)
}

proof fn floor_reaches(a: int, b: int, k: int)
    requires
        a >= 0,
        b > 0,
    ensures
        (a / b >= k) == (a >= k * b),
{
    assert((a / b >= k) == (a >= k * b)) by (nonlinear_arith)
        requires
            a >= 0,
            b > 0,
    ;
}

/// Whether `a` is at least `part` millionths of `b`.
fn exceeds(a: i128, b: i128, part: i64) -> (r: bool)
    requires
        0 <= a,
        0 < b,
        0 < part,
    ensures
        r == (a * 1_000_000 >= part * b),
{
    let (q, m) = words::mul_div(a as u128, 1_000_000, b as u128);
    match q {
        Some(v) => {
            proof {
                vstd::arithmetic::div_mod::lemma_fundamental_div_mod_converse(
                    a * 1_000_000,
                    b as int,
                    v as int,
                    m as int,
                );
                floor_reaches(a * 1_000_000, b as int, part as int);
            }
            v >= part as u128
        },
        None => {
            assert(part * b <= 0x1_0000_0000_0000_0000 * b) by (nonlinear_arith)
                requires
                    part <= 0x1_0000_0000_0000_0000,
                    0 < b,
            ;
            true
        },
    }
}

fn percent_text(a: i128, b: i128) -> (r: String)
    requires
        0 <= a,
        0 < b,
    ensures
        r@ == percent(a as int, b as int),
{
    let q = words::scaled(a as u128, 1000, b as u128);
    assert(words::nearest(a * 1000, b as int) >= 0) by (nonlinear_arith)
        requires
            words::nearest(a * 1000, b as int) == (2 * (a * 1000) + b) / (2 * b as int),
            a >= 0,
            b > 0,
    ;
    let mut s = dec_u128(q / 10);
    s.push('.');
    s.append(text::pad_u128(q % 10, 1).as_str());
    assert(s@ =~= percent(a as int, b as int));
    s
}

/// Whether some closed trade leads from one state to the other.
pub open spec fn trades_to(before: LaneRisk, after: LaneRisk) -> bool {
    exists|pnl: i128| closing(before, after, pnl)
}

/// A breaker that is out stays out with its reason, whatever closes afterwards: no
/// run of closed trades, however good, changes what it answers.
pub proof fn tripped_stays_tripped(trace: Seq<LaneRisk>, asked: LaneRisk, answer: Option<String>)
    requires
        trace.len() > 0,
        trace[0].tripped is Some,
        forall|i: int| 0 <= i < trace.len() - 1 ==> trades_to(#[trigger] trace[i], trace[i + 1]),
        asking(trace.last(), asked, answer),
    ensures
        asked.tripped == trace[0].tripped,
        answer matches Some(s) && s@ == trace[0].tripped->0@,
    decreases trace.len(),
{
    if trace.len() > 1 {
        let rest = trace.skip(1);
        assert(trades_to(trace[0], trace[1]));
        assert forall|i: int| 0 <= i < rest.len() - 1 implies trades_to(
            #[trigger] rest[i],
            rest[i + 1],
        ) by {
            assert(trades_to(trace[i + 1], trace[i + 1 + 1]));
        }
        tripped_stays_tripped(rest, asked, answer);
    }
}

/// A lane whose limits are all off never goes out.
pub proof fn disabled_limits_hold(l: LaneRisk)
    requires
        l.cfg == no_limits(),
    ensures
        l.breach() is None,
{
}

/// The breaker goes out exactly when some limit is reached.
pub proof fn breach_needs_a_limit(l: LaneRisk)
    ensures
        l.breach() is Some == l.over_any(),
{
}

/// After a clear neither drawdown limit nor the streak of losses is reached, so a
/// cleared breaker goes out again only on the window of trades or on open positions.
pub proof fn clear_rebases(l: LaneRisk)
    ensures
        ({
            let c = LaneRisk {
                tripped: None,
                high_water: l.realised_pnl,
                consecutive_losses: 0,
                ..l
            };
            &&& c.depth() == 0
            &&& !c.over_usd()
            &&& !c.over_pct()
            &&& !c.over_losses()
            &&& c.breach() is Some ==> c.over_skew() || c.over_open()
        }),
{
    let c = LaneRisk { tripped: None, high_water: l.realised_pnl, consecutive_losses: 0, ..l };
    assert(c.over_pct() ==> false) by {
        if c.cfg.max_drawdown_pct > 0 && c.high_water > 0 {
            assert(c.cfg.max_drawdown_pct * c.high_water > 0) by (nonlinear_arith)
                requires
                    c.cfg.max_drawdown_pct > 0,
                    c.high_water > 0,
            ;
        }
    }
}

/// The window of closed trades is never judged before it is full.
pub proof fn skew_needs_a_full_window(l: LaneRisk)
    requires
        l.closed@.len() < l.cfg.pnl_skew_window,
    ensures
        !l.over_skew(),
{
}

} // verus!
