//! The ledger: what each lane holds, what it paid, and what it has realised. Its
//! state is what its rows say, one after the other.

use vstd::prelude::*;
use crate::calendar;
use crate::json;
use crate::json::{read_json, Json};
use crate::risk;
use crate::risk::{LaneRisk, RiskConfig, RiskView};
use crate::rows;
use crate::rows::{Row, RowView};
use crate::settlement::cross_writer_key;
use crate::table::Table;
use crate::text;
use crate::text::owned;
use crate::units;
use crate::units::{
    Qty, clip_of, diff64, diff_of, max64, min64, portion_of, product, sum64, sum_of,
};

pub use crate::calendar::{utc_day, year_start_secs};
pub use crate::history::{
    equity_series_at, scan_for_settlement, Continuity, ContinuityVerdict, RealisedWindows,
    LEDGER_GROWTH_ALARM_LINES,
};

verus! {

/// What a lane holds of one token. Money counts units of twelve places.
#[derive(Debug, Clone, Copy, PartialEq, Eq, Structural)]
pub struct Position {
    pub shares: i64,
    pub cost: i128,
    pub proceeds: i128,
    pub opened_t: i64,
    pub last_fill_t: i64,
    pub his_cost: i128,
    pub his_shares_known: i64,
}

/// Nothing held, nothing paid.
pub open spec fn nothing() -> Position {
    Position {
        shares: 0,
        cost: 0,
        proceeds: 0,
        opened_t: 0,
        last_fill_t: 0,
        his_cost: 0,
        his_shares_known: 0,
    }
}

impl Default for Position {
    fn default() -> (r: Self)
        ensures
            r == nothing(),
    {
        Position {
            shares: 0,
            cost: 0,
            proceeds: 0,
            opened_t: 0,
            last_fill_t: 0,
            his_cost: 0,
            his_shares_known: 0,
        }
    }
}

/// `cost` per share in millionths, rounded toward zero; nothing for no shares.
pub open spec fn per_share(cost: int, shares: int) -> Option<int> {
    if shares > 0 {
        Some(units::toward_zero(cost, shares))
    } else {
        None
    }
}

fn divide(cost: i128, shares: i64) -> (r: i128)
    requires
        shares > 0,
    ensures
        r == units::toward_zero(cost as int, shares as int),
{
    let m: u128 = text::magnitude(cost) / (shares as u128);
    proof {
        let a = text_size(cost as int);
        assert(0 <= a / (shares as int) <= a) by (nonlinear_arith)
            requires
                a >= 0,
                shares > 0,
        ;
    }
    if cost < 0 {
        if m == 0x8000_0000_0000_0000_0000_0000_0000_0000 {
            i128::MIN
        } else {
            -(m as i128)
        }
    } else {
        m as i128
    }
}

spec fn text_size(c: int) -> int {
    if c < 0 {
        -c
    } else {
        c
    }
}

impl Position {
    /// What a share cost on average.
    pub open spec fn average(self) -> int {
        match per_share(self.cost as int, self.shares as int) {
            Some(v) => v,
            None => 0,
        }
    }

    /// What the leader paid for a share on average, where that is known.
    pub fn avg_his_price(&self) -> (r: Option<i128>)
        ensures
            match per_share(self.his_cost as int, self.his_shares_known as int) {
                Some(v) => r matches Some(w) && w == v,
                None => r is None,
            },
    {
        if self.his_shares_known > 0 {
            Some(divide(self.his_cost, self.his_shares_known))
        } else {
            None
        }
    }

    /// What a share cost on average; zero for no shares.
    pub fn avg_cost(&self) -> (r: i128)
        ensures
            r == self.average(),
    {
        if self.shares > 0 {
            divide(self.cost, self.shares)
        } else {
            0
        }
    }
}

/// What a buy costs: the shares at the price, and the fee.
pub open spec fn outlay(r: RowView) -> int {
    units::clip(r.shares * r.price + r.fee * units::ONE)
}

/// A position after a buy.
pub open spec fn after_buy(p: Position, r: RowView) -> Position {
    Position {
        shares: units::clip64(p.shares + r.shares) as i64,
        cost: units::clip(p.cost + outlay(r)) as i128,
        his_cost: (match r.his_price {
            Some(h) => units::clip(p.his_cost + r.shares * h),
            None => p.his_cost as int,
        }) as i128,
        his_shares_known: (match r.his_price {
            Some(_) => units::clip64(p.his_shares_known + r.shares),
            None => p.his_shares_known as int,
        }) as i64,
        opened_t: if p.shares <= 0 {
            r.t
        } else {
            p.opened_t
        },
        last_fill_t: units::larger(p.last_fill_t as int, r.t as int) as i64,
        ..p
    }
}

/// How many shares a sell takes: no more than are held.
pub open spec fn sold(p: Position, r: RowView) -> i64 {
    units::smaller(r.shares as int, p.shares as int) as i64
}

/// The part of a cost that falls on `part` shares out of `held`.
pub open spec fn basis(cost: int, part: int, held: int) -> int {
    if held > 0 {
        units::portion(cost, part, held)
    } else {
        0
    }
}

/// What a sell realises. One that only follows the chain realises nothing.
pub open spec fn sell_result(p: Position, r: RowView) -> int {
    if r.recon {
        0
    } else {
        units::clip(
            units::clip(sold(p, r) * r.price - r.fee * units::ONE) - basis(
                p.cost as int,
                sold(p, r) as int,
                p.shares as int,
            ),
        )
    }
}

/// A position after a sell.
pub open spec fn after_sell(p: Position, r: RowView) -> Position {
    let n = sold(p, r);
    let his = units::smaller(n as int, p.his_shares_known as int);
    Position {
        shares: units::clip64(p.shares - n) as i64,
        cost: units::clip(p.cost - basis(p.cost as int, n as int, p.shares as int)) as i128,
        proceeds: units::clip(p.proceeds + units::clip(n * r.price - r.fee * units::ONE)) as i128,
        his_cost: (if p.his_shares_known > 0 {
            units::clip(p.his_cost - units::portion(p.his_cost as int, his, p.his_shares_known as int))
        } else {
            p.his_cost as int
        }) as i128,
        his_shares_known: (if p.his_shares_known > 0 {
            units::clip64(p.his_shares_known - his)
        } else {
            p.his_shares_known as int
        }) as i64,
        last_fill_t: units::larger(p.last_fill_t as int, r.t as int) as i64,
        ..p
    }
}

fn outlay_of(r: &Row) -> (v: i128)
    ensures
        v == outlay(r@),
{
    let gross = product(r.shares, r.price);
    clip_of(gross + r.fee as i128 * 1_000_000)
}

fn income_of(n: i64, r: &Row) -> (v: i128)
    ensures
        v == units::clip(n * r.price - r.fee * units::ONE),
        units::in_range(v as int),
{
    let gross = product(n, r.price);
    clip_of(gross - r.fee as i128 * 1_000_000)
}

fn basis_of(cost: i128, part: i64, held: i64) -> (r: i128)
    ensures
        r == basis(cost as int, part as int, held as int),
        units::in_range(r as int),
{
    if held > 0 {
        portion_of(cost, part, held)
    } else {
        0
    }
}

fn bought(p: Position, r: &Row) -> (q: Position)
    ensures
        q == after_buy(p, r@),
{
    let mut q = p;
    q.shares = sum64(p.shares, r.shares);
    q.cost = sum_of(p.cost, outlay_of(r));
    if let Some(h) = r.his_price {
        q.his_cost = sum_of(p.his_cost, product(r.shares, h));
        q.his_shares_known = sum64(p.his_shares_known, r.shares);
    }
    if p.shares <= 0 {
        q.opened_t = r.t;
    }
    q.last_fill_t = max64(p.last_fill_t, r.t);
    q
}

fn unloaded(p: Position, r: &Row) -> (q: Position)
    ensures
        q == after_sell(p, r@),
{
    let mut q = p;
    let n = min64(r.shares, p.shares);
    q.shares = diff64(p.shares, n);
    q.cost = diff_of(p.cost, basis_of(p.cost, n, p.shares));
    q.proceeds = sum_of(p.proceeds, income_of(n, r));
    if p.his_shares_known > 0 {
        let his = min64(n, p.his_shares_known);
        q.his_cost = diff_of(p.his_cost, portion_of(p.his_cost, his, p.his_shares_known));
        q.his_shares_known = diff64(p.his_shares_known, his);
    }
    q.last_fill_t = max64(p.last_fill_t, r.t);
    q
}

/// The book of one lane.
pub struct LaneBook {
    pub name: String,
    pub risk: LaneRisk,
    pub positions: Table<String, Position>,
    pub spent_today: i128,
    pub spent_day: i64,
    pub fired: u64,
    pub filled: u64,
    pub rejected: u64,
}

/// What the book of a lane says.
#[verifier::ext_equal]
pub struct LaneView {
    pub name: Seq<char>,
    pub risk: RiskView,
    pub positions: Map<Seq<char>, Position>,
    pub spent_today: int,
    pub spent_day: i64,
    pub fired: u64,
    pub filled: u64,
    pub rejected: u64,
}

impl View for LaneBook {
    type V = LaneView;

    open spec fn view(&self) -> LaneView {
        LaneView {
            name: self.name@,
            risk: self.risk@,
            positions: self.positions@,
            spent_today: self.spent_today as int,
            spent_day: self.spent_day,
            fired: self.fired,
            filled: self.filled,
            rejected: self.rejected,
        }
    }
}

/// A lane that has traded nothing.
pub open spec fn fresh_lane(name: Seq<char>, cfg: RiskConfig, now: int) -> LaneView {
    LaneView {
        name,
        risk: RiskView {
            name,
            cfg,
            realised_pnl: 0,
            high_water: 0,
            consecutive_losses: 0,
            open_positions: 0,
            closed: Seq::empty(),
            tripped: None,
        },
        positions: Map::empty(),
        spent_today: 0,
        spent_day: calendar::day_of(now) as i64,
        fired: 0,
        filled: 0,
        rejected: 0,
    }
}

impl LaneView {
    /// What is held of a token.
    pub open spec fn position(self, token: Seq<char>) -> Position {
        if self.positions.contains_key(token) {
            self.positions[token]
        } else {
            nothing()
        }
    }

    /// On a new day nothing has been spent yet.
    pub open spec fn rolled(self, now: int) -> LaneView {
        if self.spent_day == calendar::day_of(now) {
            self
        } else {
            LaneView { spent_day: calendar::day_of(now) as i64, spent_today: 0, ..self }
        }
    }

    /// After a buy. It counts as spent today if it is a trade of today.
    pub open spec fn buy(self, r: RowView, now: int) -> LaneView {
        let p = self.position(r.token);
        let day = self.rolled(now);
        let counts = !r.recon && r.t > 0 && calendar::day_of(r.t as int) == calendar::day_of(now);
        LaneView {
            positions: self.positions.insert(r.token, after_buy(p, r)),
            spent_today: if counts {
                units::clip(day.spent_today + outlay(r))
            } else {
                day.spent_today
            },
            risk: if p.shares <= 0 {
                self.risk.opened()
            } else {
                self.risk
            },
            filled: units::plus_capped(self.filled, 1),
            ..day
        }
    }

    /// After a sell.
    pub open spec fn sell(self, r: RowView) -> LaneView {
        let p = self.position(r.token);
        let q = after_sell(p, r);
        let risk = if r.recon {
            self.risk
        } else {
            self.risk.closed_with(sell_result(p, r))
        };
        LaneView {
            positions: self.positions.insert(r.token, q),
            risk: if q.shares <= 0 {
                risk.flattened(1)
            } else {
                risk
            },
            filled: units::plus_capped(self.filled, 1),
            ..self
        }
    }

    /// After a settlement: what is held is paid out and gone.
    pub open spec fn settle(self, r: RowView) -> LaneView {
        let p = self.position(r.token);
        if p.shares > 0 {
            LaneView {
                risk: self.risk.closed_with(units::clip(p.shares * r.payout - p.cost)).flattened(1),
                positions: self.positions.insert(
                    r.token,
                    Position { shares: 0, cost: 0, his_cost: 0, his_shares_known: 0, ..p },
                ),
                ..self
            }
        } else {
            self
        }
    }

    /// How many pairs a merge takes.
    pub open spec fn pairs(self, r: RowView) -> i64 {
        units::smaller(
            r.shares as int,
            units::smaller(
                self.position(r.yes).shares as int,
                self.position(r.no).shares as int,
            ),
        ) as i64
    }

    /// After a merge: each pair pays one whole, and each side gives up its cost.
    pub open spec fn merge(self, r: RowView) -> LaneView {
        let y = self.position(r.yes);
        let n = self.position(r.no);
        let m = self.pairs(r);
        if m > 0 {
            let cy = basis(y.cost as int, m as int, y.shares as int);
            let cn = basis(n.cost as int, m as int, n.shares as int);
            let y2 = merged(y, m, cy);
            let mid = self.positions.insert(r.yes, y2);
            let n2 = merged(mid[r.no], m, cn);
            let flats = (if y2.shares <= 0 { 1int } else { 0 }) + (if n2.shares <= 0 {
                1int
            } else {
                0
            });
            LaneView {
                risk: self.risk.closed_with(
                    units::clip(units::clip(m * units::ONE - cy) - cn),
                ).flattened(flats),
                positions: mid.insert(r.no, n2),
                filled: units::plus_capped(self.filled, 1),
                ..self
            }
        } else {
            self
        }
    }

    /// After one row, whatever it says.
    pub open spec fn after(self, r: RowView, now: int) -> LaneView {
        if r.ev == "fill"@ {
            if r.side == 0 {
                self.buy(r, now)
            } else {
                self.sell(r)
            }
        } else if r.ev == "realised_reset"@ {
            LaneView { risk: RiskView { realised_pnl: 0, ..self.risk }, ..self }
        } else if r.ev == "risk_cleared"@ {
            LaneView { risk: self.risk.cleared(), ..self }
        } else if r.ev == "realised_adjust"@ {
            LaneView { risk: self.risk.adjusted(r.pnl), ..self }
        } else if r.ev == "settle"@ {
            self.settle(r)
        } else if r.ev == "merge"@ {
            self.merge(r)
        } else {
            self
        }
    }
}

/// One side after `m` pairs at the cost `c` are merged away.
pub open spec fn merged(p: Position, m: i64, c: int) -> Position {
    Position {
        cost: units::clip(p.cost - c) as i128,
        shares: units::clip64(p.shares - m) as i64,
        proceeds: units::clip(p.proceeds + c) as i128,
        ..p
    }
}

fn merged_of(p: Position, m: i64, c: i128) -> (q: Position)
    ensures
        q == merged(p, m, c as int),
{
    let mut q = p;
    q.cost = diff_of(p.cost, c);
    q.shares = diff64(p.shares, m);
    q.proceeds = sum_of(p.proceeds, c);
    q
}

fn close_trade(risk: &mut LaneRisk, pnl: i128)
    ensures
        final(risk)@ == old(risk)@.closed_with(pnl as int),
{
    risk.on_close(pnl);
    assert(risk@ =~= old(risk)@.closed_with(pnl as int));
}

impl LaneBook {
    /// A lane that has traded nothing.
    pub fn fresh(name: &str, cfg: RiskConfig, now: i64) -> (r: LaneBook)
        ensures
            r@ == fresh_lane(name@, cfg, now as int),
            r.positions.keys() == Seq::<Seq<char>>::empty(),
    {
        let r = LaneBook {
            name: owned(name),
            risk: LaneRisk::new(name, cfg),
            positions: Table::new(),
            spent_today: 0,
            spent_day: utc_day(now),
            fired: 0,
            filled: 0,
            rejected: 0,
        };
        assert(r@ =~= fresh_lane(name@, cfg, now as int));
        r
    }

    /// On a new day nothing has been spent yet.
    pub fn roll_day(&mut self, now: i64)
        ensures
            final(self)@ == old(self)@.rolled(now as int),
            final(self).positions == old(self).positions,
            final(self).risk == old(self).risk,
    {
        let d = utc_day(now);
        if self.spent_day != d {
            self.spent_day = d;
            self.spent_today = 0;
        }
    }

    fn held(&self, token: &String) -> (r: Position)
        ensures
            r == self@.position(token@),
    {
        match self.positions.get(token) {
            Some(p) => *p,
            None => Position::default(),
        }
    }

    fn buy(&mut self, r: &Row, now: i64)
        ensures
            final(self)@ == old(self)@.buy(r@, now as int),
    {
        let p = self.held(&r.token);
        let q = bought(p, r);
        self.positions.insert(r.token.clone(), q);
        self.roll_day(now);
        if !r.recon && r.t > 0 && utc_day(r.t) == utc_day(now) {
            self.spent_today = sum_of(self.spent_today, outlay_of(r));
        }
        if p.shares <= 0 {
            self.risk.on_open();
        }
        self.filled = units::plus(self.filled, 1);
        assert(self@ =~= old(self)@.buy(r@, now as int));
    }

    fn sell(&mut self, r: &Row)
        ensures
            final(self)@ == old(self)@.sell(r@),
    {
        let p = self.held(&r.token);
        let n = min64(r.shares, p.shares);
        let q = unloaded(p, r);
        let cost = basis_of(p.cost, n, p.shares);
        self.positions.insert(r.token.clone(), q);
        if !r.recon {
            let realised = diff_of(income_of(n, r), cost);
            close_trade(&mut self.risk, realised);
        }
        if q.shares <= 0 {
            self.risk.on_flat();
        }
        self.filled = units::plus(self.filled, 1);
        assert(self@ =~= old(self)@.sell(r@));
    }

    fn settle(&mut self, r: &Row)
        ensures
            final(self)@ == old(self)@.settle(r@),
    {
        let p = self.held(&r.token);
        if p.shares > 0 {
            let realised = diff_of(product(p.shares, r.payout), p.cost);
            close_trade(&mut self.risk, realised);
            self.risk.on_flat();
            let mut q = p;
            q.shares = 0;
            q.cost = 0;
            q.his_cost = 0;
            q.his_shares_known = 0;
            self.positions.insert(r.token.clone(), q);
        }
        assert(self@ =~= old(self)@.settle(r@));
    }

    fn merge(&mut self, r: &Row)
        ensures
            final(self)@ == old(self)@.merge(r@),
    {
        let y = self.held(&r.yes);
        let n = self.held(&r.no);
        let m = min64(r.shares, min64(y.shares, n.shares));
        if m > 0 {
            let cy = basis_of(y.cost, m, y.shares);
            let cn = basis_of(n.cost, m, n.shares);
            let realised = diff_of(diff_of(m as i128 * 1_000_000, cy), cn);
            close_trade(&mut self.risk, realised);
            let y2 = merged_of(y, m, cy);
            self.positions.insert(r.yes.clone(), y2);
            let mid = self.held(&r.no);
            let n2 = merged_of(mid, m, cn);
            self.positions.insert(r.no.clone(), n2);
            if y2.shares <= 0 {
                self.risk.on_flat();
            }
            if n2.shares <= 0 {
                self.risk.on_flat();
            }
            self.filled = units::plus(self.filled, 1);
        }
        assert(self@ =~= old(self)@.merge(r@));
    }

    /// Takes one row in.
    pub fn take(&mut self, r: &Row, now: i64)
        ensures
            final(self)@ == old(self)@.after(r@, now as int),
    {
        let ev = r.ev.as_str();
        if text::same(ev, "fill") {
            if r.side == 0 {
                self.buy(r, now);
            } else {
                self.sell(r);
            }
        } else if text::same(ev, "realised_reset") {
            self.risk.realised_pnl = 0;
            assert(self@ =~= old(self)@.after(r@, now as int));
        } else if text::same(ev, "risk_cleared") {
            self.risk.clear();
            assert(self@ =~= old(self)@.after(r@, now as int));
        } else if text::same(ev, "realised_adjust") {
            self.risk.on_adjust(r.pnl);
            assert(self@ =~= old(self)@.after(r@, now as int));
        } else if text::same(ev, "settle") {
            self.settle(r);
        } else if text::same(ev, "merge") {
            self.merge(r);
        }
    }
}

/// What happened when a row was to be written to the file.
#[derive(Debug)]
pub enum Append {
    Done,
    Failed(String),
}

/// What reading the file gave.
#[derive(Debug)]
pub enum LedgerFile {
    Missing,
    Unreadable(String),
    Text(String),
}

/// The receipt of a fill that is in the book.
#[derive(Debug, Clone, Copy, PartialEq, Eq, Structural)]
pub struct Booked {
    pub shares: i64,
    pub price: i64,
}

/// All lanes, and which orders are booked already.
pub struct Ledger {
    pub path: String,
    pub lane_ids: Table<String, String>,
    pub lanes: Table<String, LaneBook>,
    pub corrupt_lines: u64,
    pub events: u64,
    pub write_failures: u64,
    pub last_write_error: Option<String>,
    pub booked_orders: Table<String, ()>,
}

/// What the ledger says.
#[verifier::ext_equal]
pub struct LedgerView {
    pub path: Seq<char>,
    pub lane_ids: Map<Seq<char>, Seq<char>>,
    pub lanes: Map<Seq<char>, LaneView>,
    pub corrupt_lines: u64,
    pub events: u64,
    pub write_failures: u64,
    pub last_write_error: Option<Seq<char>>,
    pub booked: Set<Seq<char>>,
}

/// The books of a table of lanes.
pub open spec fn books(m: Map<Seq<char>, LaneBook>) -> Map<Seq<char>, LaneView> {
    m.map_values(|b: LaneBook| b@)
}

impl View for Ledger {
    type V = LedgerView;

    open spec fn view(&self) -> LedgerView {
        LedgerView {
            path: self.path@,
            lane_ids: self.lane_ids@.map_values(|s: String| s@),
            lanes: books(self.lanes@),
            corrupt_lines: self.corrupt_lines,
            events: self.events,
            write_failures: self.write_failures,
            last_write_error: match self.last_write_error {
                Some(e) => Some(e@),
                None => None,
            },
            booked: self.booked_orders@.dom(),
        }
    }
}

impl LedgerView {
    /// After one row. A row of a lane that is not there changes nothing.
    pub open spec fn applied(self, r: RowView, now: int) -> LedgerView {
        if self.lanes.contains_key(r.lane) {
            LedgerView {
                lanes: self.lanes.insert(r.lane, self.lanes[r.lane].after(r, now)),
                booked: if r.order_hash.len() > 0 {
                    self.booked.insert(r.order_hash)
                } else {
                    self.booked
                },
                ..self
            }
        } else {
            self
        }
    }

    /// After a row that had to be written first.
    pub open spec fn committed(self, r: RowView, now: int, write: Append) -> LedgerView {
        match write {
            Append::Done => self.applied(r, now),
            Append::Failed(e) => if self.lanes.contains_key(r.lane) {
                LedgerView {
                    write_failures: units::plus_capped(self.write_failures, 1),
                    last_write_error: Some("ledger append "@ + self.path + ": "@ + e@),
                    ..self
                }
            } else {
                self
            },
        }
    }

    /// Whether a row that had to be written first is in the book.
    pub open spec fn accepts(self, r: RowView, write: Append) -> bool {
        self.lanes.contains_key(r.lane) && write is Done
    }

    /// After one line of the file. An empty line says nothing; one that is no JSON is
    /// counted as corrupt.
    pub open spec fn after_line(self, line: Seq<char>, now: int) -> LedgerView {
        let t = text::trimmed(line);
        if t.len() == 0 {
            self
        } else {
            match json::document(t) {
                Some(j) => LedgerView {
                    events: units::plus_capped(self.events, 1),
                    ..self.applied(rows::read_row(j), now)
                },
                None => LedgerView {
                    corrupt_lines: units::plus_capped(self.corrupt_lines, 1),
                    ..self
                },
            }
        }
    }

    /// After all lines of the file.
    pub open spec fn replayed(self, lines: Seq<Seq<char>>, now: int) -> LedgerView
        decreases lines.len(),
    {
        if lines.len() == 0 {
            self
        } else {
            self.replayed(lines.drop_last(), now).after_line(lines.last(), now)
        }
    }

    /// After the rows of one lane.
    pub open spec fn caught_up(self, docs: Seq<Json>, lane: Seq<char>, now: int) -> LedgerView
        decreases docs.len(),
    {
        if docs.len() == 0 {
            self
        } else {
            let before = self.caught_up(docs.drop_last(), lane, now);
            if json::text_in(json::field(docs.last(), "lane"@)) == Some(lane) {
                before.applied(rows::read_row(docs.last()), now)
            } else {
                before
            }
        }
    }
}

/// What the lines of a file say as JSON, one after the other; a line that says
/// nothing is left out.
pub open spec fn documents(lines: Seq<Seq<char>>) -> Seq<Json>
    decreases lines.len(),
{
    if lines.len() == 0 {
        Seq::empty()
    } else {
        let before = documents(lines.drop_last());
        match json::document(text::trimmed(lines.last())) {
            Some(j) => before.push(j),
            None => before,
        }
    }
}

/// What a file says as JSON; see [`documents`].
pub fn read_rows(raw: &str) -> (r: Vec<Json>)
    ensures
        r@ == documents(text::lines_of(raw@)),
{
    let lines = text::lines(raw);
    let ghost all = text::texts(lines@);
    let mut out: Vec<Json> = Vec::new();
    for i in 0..lines.len()
        invariant
            all == text::texts(lines@),
            out@ == documents(all.take(i as int)),
    {
        let t = text::trim_text(lines[i].as_str());
        assert(all.take(i + 1).drop_last() =~= all.take(i as int));
        assert(all.take(i + 1).last() == lines@[i as int]@);
        match read_json(t.as_str()) {
            Some(j) => out.push(j),
            None => {},
        }
    }
    assert(all.take(all.len() as int) =~= all);
    out
}

impl Ledger {
    /// An empty ledger at a path.
    pub fn empty(path: &str) -> (r: Ledger)
        ensures
            r@ == nowhere(path@),
            r.lanes.keys() == Seq::<Seq<char>>::empty(),
    {
        let r = Ledger {
            path: owned(path),
            lane_ids: Table::new(),
            lanes: Table::new(),
            corrupt_lines: 0,
            events: 0,
            write_failures: 0,
            last_write_error: None,
            booked_orders: Table::new(),
        };
        assert(r@ =~= nowhere(path@));
        r
    }

    /// The ledger of these lanes, with what the file says taken in. A file that is
    /// there and cannot be read leaves an error behind.
    pub fn new(path: &str, cfgs: &[(String, RiskConfig)], file: LedgerFile, now: i64) -> (r: Self)
        ensures
            r@ == (match file {
                LedgerFile::Missing => starting(path@, cfgs@, now as int),
                LedgerFile::Unreadable(e) => LedgerView {
                    last_write_error: Some("ledger read "@ + path@ + ": "@ + e@),
                    ..starting(path@, cfgs@, now as int)
                },
                LedgerFile::Text(raw) => starting(path@, cfgs@, now as int).replayed(
                    text::lines_of(raw@),
                    now as int,
                ),
            }),
            r@ == opened(path@, cfgs@, file, now as int),
    {
        let mut l = Ledger::empty(path);
        for i in 0..cfgs.len()
            invariant
                l@ == starting(path@, cfgs@.take(i as int), now as int),
        {
            let ghost before = l@;
            let ghost m = l.lanes@;
            let book = LaneBook::fresh(cfgs[i].0.as_str(), cfgs[i].1, now);
            let ghost b = book@;
            l.lanes.insert(cfgs[i].0.clone(), book);
            assert(cfgs@.take(i + 1).drop_last() =~= cfgs@.take(i as int));
            assert(l@.lanes =~= before.lanes.insert(cfgs@[i as int].0@, b));
            assert(l@ =~= starting(path@, cfgs@.take(i + 1), now as int));
        }
        assert(cfgs@.take(cfgs@.len() as int) =~= cfgs@);
        match file {
            LedgerFile::Missing => {},
            LedgerFile::Unreadable(e) => {
                let mut m = owned("ledger read ");
                m.append(path);
                m.append(": ");
                m.append(e.as_str());
                let ghost before = l@;
                l.last_write_error = Some(m);
                assert(l@ =~= LedgerView {
                    last_write_error: Some("ledger read "@ + path@ + ": "@ + e@),
                    ..before
                });
            },
            LedgerFile::Text(raw) => {
                l.replay(raw.as_str(), now);
            },
        }
        l
    }

    /// Adds a lane if it is not there, with what the file says of it.
    pub fn ensure_lane(&mut self, name: &str, cfg: RiskConfig, raw: Option<&str>, now: i64)
        ensures
            final(self)@ == (if old(self)@.lanes.contains_key(name@) {
                old(self)@
            } else {
                let with = LedgerView {
                    lanes: old(self)@.lanes.insert(name@, fresh_lane(name@, cfg, now as int)),
                    ..old(self)@
                };
                match raw {
                    Some(s) => with.caught_up(
                        documents(text::lines_of(s@)),
                        name@,
                        now as int,
                    ),
                    None => with,
                }
            }),
            final(self)@ == old(self)@.with_lane(
                name@,
                cfg,
                match raw {
                    Some(s) => Some(s@),
                    None => None,
                },
                now as int,
            ),
    {
        reveal(LedgerView::with_lane);
        let key = owned(name);
        if self.lanes.has(&key) {
            return ;
        }
        let book = LaneBook::fresh(name, cfg, now);
        let ghost b = book@;
        let ghost before = self@;
        self.lanes.insert(key, book);
        assert(self@.lanes =~= before.lanes.insert(name@, b));
        assert(self@ =~= LedgerView { lanes: before.lanes.insert(name@, b), ..before });
        if let Some(s) = raw {
            self.replay_lane(s, name, now);
        }
    }

    fn replay_lane(&mut self, raw: &str, name: &str, now: i64)
        ensures
            final(self)@ == old(self)@.caught_up(
                documents(text::lines_of(raw@)),
                name@,
                now as int,
            ),
    {
        let docs = read_rows(raw);
        let ghost start = self@;
        for i in 0..docs.len()
            invariant
                self@ == start.caught_up(docs@.take(i as int), name@, now as int),
        {
            assert(docs@.take(i + 1).drop_last() =~= docs@.take(i as int));
            let ours = match docs[i].text_at("lane") {
                Some(l) => text::same(l.as_str(), name),
                None => false,
            };
            if ours {
                let row = Row::read(&docs[i]);
                self.apply(&row, now);
            }
        }
        assert(docs@.take(docs@.len() as int) =~= docs@);
    }

    fn replay(&mut self, raw: &str, now: i64)
        ensures
            final(self)@ == old(self)@.replayed(text::lines_of(raw@), now as int),
    {
        let lines = text::lines(raw);
        let ghost all = text::texts(lines@);
        let ghost start = self@;
        for i in 0..lines.len()
            invariant
                all == text::texts(lines@),
                self@ == start.replayed(all.take(i as int), now as int),
        {
            assert(all.take(i + 1).drop_last() =~= all.take(i as int));
            assert(all.take(i + 1).last() == lines@[i as int]@);
            let t = text::trim_text(lines[i].as_str());
            let ghost before = self@;
            let v = text::chars_of(t.as_str());
            if v.len() > 0 {
                match read_json(t.as_str()) {
                    Some(j) => {
                        let row = Row::read(&j);
                        self.apply(&row, now);
                        self.events = units::plus(self.events, 1);
                        assert(self@ =~= before.after_line(all[i as int], now as int));
                    },
                    None => {
                        self.corrupt_lines = units::plus(self.corrupt_lines, 1);
                        assert(self@ =~= before.after_line(all[i as int], now as int));
                    },
                }
            }
        }
        assert(all.take(all.len() as int) =~= all);
    }

    /// Takes one row in; whether its lane is there.
    pub fn apply(&mut self, row: &Row, now: i64) -> (r: bool)
        ensures
            r == old(self)@.lanes.contains_key(row@.lane),
            final(self)@ == old(self)@.applied(row@, now as int),
            final(self).lanes.keys() == old(self).lanes.keys(),
    {
        let ghost before = self@;
        let ghost m = self.lanes@;
        match self.lanes.find(&row.lane) {
            None => false,
            Some(i) => {
                let v = text::chars_of(row.order_hash.as_str());
                if v.len() > 0 {
                    self.booked_orders.insert(row.order_hash.clone(), ());
                    assert(self.booked_orders@.dom() =~= before.booked.insert(row@.order_hash));
                }
                let book = self.lanes.at_mut(i);
                book.take(row, now);
                assert(books(self.lanes@) =~= before.lanes.insert(
                    row@.lane,
                    before.lanes[row@.lane].after(row@, now as int),
                ));
                assert(self@ =~= before.applied(row@, now as int));
                true
            },
        }
    }

    /// Takes a row in that had to be written first; whether it is in the book.
    pub fn commit(&mut self, row: &Json, now: i64, write: Append) -> (r: bool)
        ensures
            r == old(self)@.accepts(rows::read_row(*row), write),
            final(self)@ == old(self)@.committed(rows::read_row(*row), now as int, write),
    {
        let row = Row::read(row);
        match write {
            Append::Done => self.apply(&row, now),
            Append::Failed(e) => {
                let ghost before = self@;
                if self.lanes.has(&row.lane) {
                    self.write_failures = units::plus(self.write_failures, 1);
                    let mut m = owned("ledger append ");
                    m.append(self.path.as_str());
                    m.append(": ");
                    m.append(e.as_str());
                    self.last_write_error = Some(m);
                }
                assert(self@ =~= before.committed(row@, now as int, write));
                false
            },
        }
    }
}

/// A ledger with nothing in it.
pub open spec fn nowhere(path: Seq<char>) -> LedgerView {
    LedgerView {
        path,
        lane_ids: Map::empty(),
        lanes: Map::empty(),
        corrupt_lines: 0,
        events: 0,
        write_failures: 0,
        last_write_error: None,
        booked: Set::empty(),
    }
}

/// The ledger that a file opens.
pub open spec fn opened(
    path: Seq<char>,
    cfgs: Seq<(String, RiskConfig)>,
    file: LedgerFile,
    now: int,
) -> LedgerView {
    match file {
        LedgerFile::Missing => starting(path, cfgs, now),
        LedgerFile::Unreadable(e) => LedgerView {
            last_write_error: Some("ledger read "@ + path + ": "@ + e@),
            ..starting(path, cfgs, now)
        },
        LedgerFile::Text(raw) => starting(path, cfgs, now).replayed(text::lines_of(raw@), now),
    }
}

impl LedgerView {
    /// A ledger with a lane that it may not have had, caught up with what the file says of it.
    #[verifier::opaque]
    pub open spec fn with_lane(
        self,
        name: Seq<char>,
        cfg: RiskConfig,
        raw: Option<Seq<char>>,
        now: int,
    ) -> LedgerView {
        if self.lanes.contains_key(name) {
            self
        } else {
            let with = LedgerView {
                lanes: self.lanes.insert(name, fresh_lane(name, cfg, now)),
                ..self
            };
            match raw {
                Some(s) => with.caught_up(documents(text::lines_of(s)), name, now),
                None => with,
            }
        }
    }
}

/// A ledger whose lanes have traded nothing.
pub open spec fn starting(path: Seq<char>, cfgs: Seq<(String, RiskConfig)>, now: int) -> LedgerView
    decreases cfgs.len(),
{
    if cfgs.len() == 0 {
        nowhere(path)
    } else {
        let before = starting(path, cfgs.drop_last(), now);
        let (name, cfg) = cfgs.last();
        LedgerView { lanes: before.lanes.insert(name@, fresh_lane(name@, cfg, now)), ..before }
    }
}

/// The row of a fill, as the book takes it.
pub open spec fn fill_view(
    lane: Seq<char>,
    token: Seq<char>,
    side: u8,
    shares: i64,
    price: i64,
    fee: i64,
    his_price: Option<i64>,
    t: i64,
) -> RowView {
    RowView {
        token,
        side,
        shares: rows::writable(shares),
        price: rows::writable(price),
        fee: rows::writable(fee),
        his_price: match his_price {
            Some(h) => Some(rows::writable(h)),
            None => None,
        },
        ..rows::plain_row("fill"@, lane, t)
    }
}

/// Whether an order is booked already.
pub open spec fn already_booked(l: LedgerView, order_hash: Seq<char>) -> bool {
    order_hash.len() > 0 && l.booked.contains(order_hash)
}

impl Ledger {
    /// Books a fill at time `t`. `write` is what came of writing [`rows::fill_row`].
    pub fn record_fill(
        &mut self,
        lane: &str,
        token: &str,
        side: u8,
        shares: i64,
        price: i64,
        fee: i64,
        t: i64,
        write: Append,
    ) -> (r: bool)
        ensures
            r == old(self)@.accepts(
                fill_view(lane@, token@, side, shares, price, fee, None, t),
                write,
            ),
            final(self)@ == old(self)@.committed(
                fill_view(lane@, token@, side, shares, price, fee, None, t),
                t as int,
                write,
            ),
    {
        self.record_fill_with_his_price(lane, token, side, shares, price, fee, None, t, write)
    }

    /// Books a fill together with the price that the leader paid, where it is known.
    pub fn record_fill_with_his_price(
        &mut self,
        lane: &str,
        token: &str,
        side: u8,
        shares: i64,
        price: i64,
        fee: i64,
        his_price: Option<i64>,
        t: i64,
        write: Append,
    ) -> (r: bool)
        ensures
            r == old(self)@.accepts(
                fill_view(lane@, token@, side, shares, price, fee, his_price, t),
                write,
            ),
            final(self)@ == old(self)@.committed(
                fill_view(lane@, token@, side, shares, price, fee, his_price, t),
                t as int,
                write,
            ),
    {
        let row = rows::fill_row(lane, token, side, shares, price, fee, his_price, t);
        self.commit(&row, t, write)
    }

    /// Brings the book in line with the chain: the position moves, nothing is
    /// realised and nothing counts as spent.
    pub fn record_recon_fill(
        &mut self,
        lane: &str,
        token: &str,
        side: u8,
        shares: i64,
        price: i64,
        fee: i64,
        t: i64,
        write: Append,
    )
        ensures
            final(self)@ == old(self)@.committed(
                RowView {
                    recon: true,
                    ..fill_view(lane@, token@, side, shares, price, fee, None, t)
                },
                t as int,
                write,
            ),
    {
        let row = rows::recon_row(lane, token, side, shares, price, fee, t);
        self.commit(&row, t, write);
    }

    /// Sets what a lane has realised back to nothing.
    pub fn realised_reset(&mut self, lane: &str, why: &str, t: i64, write: Append)
        ensures
            final(self)@ == old(self)@.committed(
                rows::plain_row("realised_reset"@, lane@, t),
                t as int,
                write,
            ),
    {
        let row = rows::note_row("realised_reset", lane, why, t);
        self.commit(&row, t, write);
    }

    /// Puts a lane's breaker back; whether it was out.
    pub fn clear_risk(&mut self, lane: &str, why: &str, t: i64, write: Append) -> (r: bool)
        ensures
            r == (old(self)@.lanes.contains_key(lane@)
                && old(self)@.lanes[lane@].risk.tripped is Some),
            final(self)@ == old(self)@.committed(
                rows::plain_row("risk_cleared"@, lane@, t),
                t as int,
                write,
            ),
    {
        let key = owned(lane);
        let was = match self.lanes.get(&key) {
            Some(b) => b.risk.tripped.is_some(),
            None => false,
        };
        let row = rows::note_row("risk_cleared", lane, why, t);
        self.commit(&row, t, write);
        was
    }

    /// Books the payout of a market that has resolved.
    pub fn record_settlement(&mut self, lane: &str, token: &str, payout: i64, t: i64, write: Append)
        ensures
            final(self)@ == old(self)@.committed(
                RowView {
                    token: token@,
                    payout: rows::writable(payout),
                    ..rows::plain_row("settle"@, lane@, t)
                },
                t as int,
                write,
            ),
    {
        let row = rows::settle_row(lane, token, payout, t);
        self.commit(&row, t, write);
    }

    /// Books a merge of two complementary tokens.
    pub fn record_merge(
        &mut self,
        lane: &str,
        yes_token: &str,
        no_token: &str,
        shares: i64,
        t: i64,
        write: Append,
    )
        ensures
            final(self)@ == old(self)@.committed(
                RowView {
                    yes: yes_token@,
                    no: no_token@,
                    shares: rows::writable(shares),
                    ..rows::plain_row("merge"@, lane@, t)
                },
                t as int,
                write,
            ),
    {
        let row = rows::merge_row(lane, yes_token, no_token, shares, t);
        self.commit(&row, t, write);
    }

    fn shares_held(&self, lane: &str, token: &str) -> (r: i64)
        ensures
            r == shares_in(self@, lane@, token@),
    {
        let l = owned(lane);
        let t = owned(token);
        match self.lanes.get(&l) {
            Some(b) => match b.positions.get(&t) {
                Some(p) => p.shares,
                None => 0,
            },
            None => 0,
        }
    }

    /// How many pairs of two tokens a lane could merge.
    pub fn mergeable(&self, lane: &str, yes_token: &str, no_token: &str) -> (r: i64)
        ensures
            r == units::smaller(
                shares_in(self@, lane@, yes_token@) as int,
                shares_in(self@, lane@, no_token@) as int,
            ),
            r == pairs_held(self@, lane@, yes_token@, no_token@),
    {
        min64(self.shares_held(lane, yes_token), self.shares_held(lane, no_token))
    }

    /// Corrects what a lane has realised.
    pub fn record_realised_adjustment(
        &mut self,
        lane: &str,
        token: &str,
        shares: i64,
        proceeds: i64,
        avg_cost: i64,
        why: &str,
        t: i64,
        write: Append,
    )
        ensures
            final(self)@ == old(self)@.committed(
                adjust_view(lane@, token@, shares, proceeds, avg_cost, t),
                t as int,
                write,
            ),
    {
        let row = rows::adjust_row(lane, token, shares, proceeds, avg_cost, why, None, t);
        self.commit(&row, t, write);
    }

    /// Corrects what a lane has realised, under a key that tells the correction apart.
    pub fn record_realised_adjustment_tx(
        &mut self,
        lane: &str,
        token: &str,
        shares: i64,
        proceeds: i64,
        avg_cost: i64,
        why: &str,
        key: &str,
        t: i64,
        write: Append,
    )
        ensures
            final(self)@ == old(self)@.committed(
                adjust_view(lane@, token@, shares, proceeds, avg_cost, t),
                t as int,
                write,
            ),
    {
        let alt = cross_writer_key(lane, token);
        let row = rows::adjust_row(
            lane,
            token,
            shares,
            proceeds,
            avg_cost,
            why,
            Some((key, alt.as_str())),
            t,
        );
        self.commit(&row, t, write);
    }

    /// Books a taker's fill once per order.
    pub fn book_fill(
        &mut self,
        lane: &str,
        token: &str,
        side: u8,
        shares: i64,
        price: i64,
        fee: i64,
        his_price: Option<i64>,
        order_hash: &str,
        t: i64,
        write: Append,
    ) -> (r: Option<Booked>)
        ensures
            booking(
                old(self)@,
                final(self)@,
                r,
                RowView {
                    order_hash: order_hash@,
                    ..fill_view(lane@, token@, side, shares, price, fee, his_price, t)
                },
                Booked { shares, price },
                t as int,
                write,
            ),
    {
        self.book_fill_ex(
            lane,
            token,
            side,
            shares,
            price,
            fee,
            his_price,
            order_hash,
            false,
            t,
            write,
        )
    }

    /// Books a fill once per order.
    pub fn book_fill_ex(
        &mut self,
        lane: &str,
        token: &str,
        side: u8,
        shares: i64,
        price: i64,
        fee: i64,
        his_price: Option<i64>,
        order_hash: &str,
        resting: bool,
        t: i64,
        write: Append,
    ) -> (r: Option<Booked>)
        ensures
            booking(
                old(self)@,
                final(self)@,
                r,
                RowView {
                    order_hash: order_hash@,
                    ..fill_view(lane@, token@, side, shares, price, fee, his_price, t)
                },
                Booked { shares, price },
                t as int,
                write,
            ),
    {
        self.book_fill_ex_px(
            lane,
            token,
            side,
            shares,
            price,
            fee,
            his_price,
            order_hash,
            resting,
            false,
            t,
            write,
        )
    }

    /// The row that [`Ledger::book_fill_ex_px`] needs written.
    pub fn booking_row(
        &self,
        lane: &str,
        token: &str,
        side: u8,
        shares: i64,
        price: i64,
        fee: i64,
        his_price: Option<i64>,
        order_hash: &str,
        resting: bool,
        px_provisional: bool,
        t: i64,
    ) -> (r: Json)
        ensures
            rows::read_row(r) == (RowView {
                order_hash: order_hash@,
                ..fill_view(lane@, token@, side, shares, price, fee, his_price, t)
            }),
            json::text_in(json::field(r, "exec"@)) == Some(rows::exec_name(resting)),
            json::text_in(json::field(r, "lane_id"@)) == (if self@.lane_ids.contains_key(lane@) {
                Some(self@.lane_ids[lane@])
            } else {
                None
            }),
            json::bool_in(json::field(r, "px_provisional"@)) == (if px_provisional {
                Some(true)
            } else {
                None
            }),
    {
        let key = owned(lane);
        let id = self.lane_ids.get(&key);
        rows::booked_row(
            lane,
            token,
            side,
            shares,
            price,
            fee,
            his_price,
            order_hash,
            resting,
            id,
            px_provisional,
            t,
        )
    }

    /// Books a fill once per order; the receipt says that it is in the book. An
    /// order that is booked already is not booked again, and nothing is written.
    pub fn book_fill_ex_px(
        &mut self,
        lane: &str,
        token: &str,
        side: u8,
        shares: i64,
        price: i64,
        fee: i64,
        his_price: Option<i64>,
        order_hash: &str,
        resting: bool,
        px_provisional: bool,
        t: i64,
        write: Append,
    ) -> (r: Option<Booked>)
        ensures
            booking(
                old(self)@,
                final(self)@,
                r,
                RowView {
                    order_hash: order_hash@,
                    ..fill_view(lane@, token@, side, shares, price, fee, his_price, t)
                },
                Booked { shares, price },
                t as int,
                write,
            ),
    {
        if self.is_booked(order_hash) {
            return Some(Booked { shares, price });
        }
        let row = self.booking_row(
            lane,
            token,
            side,
            shares,
            price,
            fee,
            his_price,
            order_hash,
            resting,
            px_provisional,
            t,
        );
        if self.commit(&row, t, write) {
            Some(Booked { shares, price })
        } else {
            None
        }
    }

    /// Whether an order is booked already.
    pub fn is_booked(&self, order_hash: &str) -> (r: bool)
        ensures
            r == already_booked(self@, order_hash@),
    {
        let key = owned(order_hash);
        let v = text::chars_of(order_hash);
        v.len() > 0 && self.booked_orders.has(&key)
    }

    /// Whether a lane is there.
    pub fn has_lane(&self, lane: &str) -> (r: bool)
        ensures
            r == self@.lanes.contains_key(lane@),
    {
        let key = owned(lane);
        self.lanes.has(&key)
    }

    /// Whether a row of a lane goes to the file: there is one, and the lane is there.
    pub fn writes(&self, lane: &str) -> (r: bool)
        ensures
            r == (self@.path.len() > 0 && self@.lanes.contains_key(lane@)),
    {
        let p = text::chars_of(self.path.as_str());
        p.len() > 0 && self.has_lane(lane)
    }

    /// The row that [`Ledger::book_fill_ex_px`] needs written; nothing where the order is
    /// booked already.
    pub fn booking_row_due(
        &self,
        lane: &str,
        token: &str,
        side: u8,
        shares: i64,
        price: i64,
        fee: i64,
        his_price: Option<i64>,
        order_hash: &str,
        resting: bool,
        px_provisional: bool,
        t: i64,
    ) -> (r: Option<Json>)
        ensures
            r is None == already_booked(self@, order_hash@),
            r matches Some(j) ==> rows::read_row(j) == (RowView {
                order_hash: order_hash@,
                ..fill_view(lane@, token@, side, shares, price, fee, his_price, t)
            }) && json::text_in(json::field(j, "exec"@)) == Some(rows::exec_name(resting))
                && json::text_in(json::field(j, "lane_id"@)) == (if self@.lane_ids.contains_key(
                lane@,
            ) {
                Some(self@.lane_ids[lane@])
            } else {
                None
            }) && json::bool_in(json::field(j, "px_provisional"@)) == (if px_provisional {
                Some(true)
            } else {
                None
            }),
    {
        if self.is_booked(order_hash) {
            return None;
        }
        Some(
            self.booking_row(
                lane,
                token,
                side,
                shares,
                price,
                fee,
                his_price,
                order_hash,
                resting,
                px_provisional,
                t,
            ),
        )
    }

    /// What the open positions of a lane have cost.
    pub fn open_usd(&self, lane: &str) -> (r: i128)
        ensures
            r == (if self.lanes@.contains_key(lane@) {
                open_cost(self.lanes@[lane@].positions.vals())
            } else {
                0
            }),
    {
        let key = owned(lane);
        match self.lanes.get(&key) {
            None => 0,
            Some(b) => {
                let n = b.positions.len();
                let ghost vals = b.positions.vals();
                let mut acc: i128 = 0;
                for i in 0..n
                    invariant
                        n == b.positions.keys().len(),
                        b.positions.aligned(),
                        vals == b.positions.vals(),
                        acc == open_cost(vals.take(i as int)),
                {
                    let p = b.positions.val_at(i);
                    assert(vals.take(i + 1).drop_last() =~= vals.take(i as int));
                    if p.shares > 0 {
                        acc = sum_of(acc, p.cost);
                    }
                }
                assert(vals.take(vals.len() as int) =~= vals);
                acc
            },
        }
    }

    /// What a share of a token has cost a lane on average.
    pub fn avg_cost(&self, lane: &str, token: &str) -> (r: i128)
        ensures
            r == (if self@.lanes.contains_key(lane@) {
                self@.lanes[lane@].position(token@).average()
            } else {
                0
            }),
    {
        let key = owned(lane);
        let t = owned(token);
        match self.lanes.get(&key) {
            Some(b) => match b.positions.get(&t) {
                Some(p) => p.avg_cost(),
                None => 0,
            },
            None => 0,
        }
    }

    /// The shares of every open position of a lane.
    pub fn holdings(&self, lane: &str) -> (r: Table<String, i64>)
        ensures
            self@.lanes.contains_key(lane@) ==> r@ == open_shares(self@.lanes[lane@].positions),
            !self@.lanes.contains_key(lane@) ==> r@ == Map::<Seq<char>, i64>::empty(),
    {
        let key = owned(lane);
        let mut out: Table<String, i64> = Table::new();
        match self.lanes.get(&key) {
            None => {},
            Some(b) => {
                let n = b.positions.len();
                let ghost keys = b.positions.keys();
                for i in 0..n
                    invariant
                        n == keys.len(),
                        keys == b.positions.keys(),
                        b.positions.aligned(),
                        forall|k: Seq<char>| #[trigger]
                            out@.contains_key(k) == (keys.take(i as int).contains(k)
                                && b.positions@[k].shares > 0),
                        forall|k: Seq<char>| #[trigger]
                            out@.contains_key(k) ==> out@[k] == b.positions@[k].shares,
                {
                    let p = b.positions.val_at(i);
                    let k = b.positions.key_at(i);
                    let ghost before = out@;
                    assert(keys.take(i + 1) =~= keys.take(i as int).push(keys[i as int]));
                    assert forall|x: Seq<char>|
                        keys.take(i + 1).contains(x) == (keys.take(i as int).contains(x) || x
                            == keys[i as int]) by {
                        if keys.take(i as int).contains(x) {
                            let j = keys.take(i as int).index_of(x);
                            assert(keys.take(i + 1)[j] == x);
                        }
                        if x == keys[i as int] {
                            assert(keys.take(i + 1)[i as int] == x);
                        }
                    }
                    if p.shares > 0 {
                        out.insert(k.clone(), p.shares);
                    }
                }
                assert(keys.take(keys.len() as int) =~= keys);
                assert(out@ =~= open_shares(b.positions@)) by {
                    assert forall|k: Seq<char>|
                        out@.contains_key(k) == open_shares(b.positions@).contains_key(k) by {
                        if b.positions@.contains_key(k) {
                            assert(keys.contains(k));
                        }
                        if keys.contains(k) {
                            let j = keys.index_of(k);
                            assert(b.positions@.contains_key(keys[j]));
                        }
                    }
                }
            },
        }
        out
    }

    /// Whether the file can be trusted: nothing failed to be written, and every line
    /// could be read.
    pub fn persistence_ok(&self) -> (r: bool)
        ensures
            r == (self@.last_write_error is None && self@.corrupt_lines == 0),
    {
        self.last_write_error.is_none() && self.corrupt_lines == 0
    }

    /// The shares of a token that all lanes hold together.
    pub fn pool_claim(&self, tok: &str) -> (r: i128)
        ensures
            r == claimed(self.lanes.vals(), tok@),
    {
        let key = owned(tok);
        let n = self.lanes.len();
        let ghost vals = self.lanes.vals();
        let mut acc: i128 = 0;
        for i in 0..n
            invariant
                n == self.lanes.keys().len(),
                self.lanes.aligned(),
                vals == self.lanes.vals(),
                key@ == tok@,
                acc == claimed(vals.take(i as int), tok@),
                -0x8000_0000_0000_0000 * i <= acc <= 0x8000_0000_0000_0000 * i,
        {
            let b = self.lanes.val_at(i);
            assert(vals.take(i + 1).drop_last() =~= vals.take(i as int));
            assert(i < usize::MAX);
            if let Some(p) = b.positions.get(&key) {
                acc = acc + p.shares as i128;
            }
        }
        assert(vals.take(vals.len() as int) =~= vals);
        acc
    }
}

/// The shares of a token that these lanes hold together.
pub open spec fn claimed(lanes: Seq<LaneBook>, tok: Seq<char>) -> int
    decreases lanes.len(),
{
    if lanes.len() == 0 {
        0
    } else {
        claimed(lanes.drop_last(), tok) + lanes.last()@.position(tok).shares
    }
}

/// What a correction says, as the book takes it.
pub open spec fn adjust_view(
    lane: Seq<char>,
    token: Seq<char>,
    shares: i64,
    proceeds: i64,
    avg_cost: i64,
    t: i64,
) -> RowView {
    RowView {
        token,
        shares: rows::writable(shares),
        pnl: rows::adjustment(shares, proceeds, avg_cost),
        ..rows::plain_row("realised_adjust"@, lane, t)
    }
}

/// The ledger after a fill was booked under its order: an order that is booked
/// already is not booked again.
pub open spec fn booked_into(l: LedgerView, row: RowView, now: int, write: Append) -> LedgerView {
    if already_booked(l, row.order_hash) {
        l
    } else {
        l.committed(row, now, write)
    }
}

/// The receipt of a fill: given where it is in the book.
pub open spec fn receipt_for(
    l: LedgerView,
    row: RowView,
    fill: Booked,
    write: Append,
) -> Option<Booked> {
    if already_booked(l, row.order_hash) || l.accepts(row, write) {
        Some(fill)
    } else {
        None
    }
}

/// How a fill is booked under its order, and with which receipt.
pub open spec fn booking(
    before: LedgerView,
    after: LedgerView,
    receipt: Option<Booked>,
    row: RowView,
    fill: Booked,
    now: int,
    write: Append,
) -> bool {
    &&& after == booked_into(before, row, now, write)
    &&& receipt == receipt_for(before, row, fill, write)
}

/// The pairs that a lane holds of two tokens.
pub open spec fn pairs_held(
    l: LedgerView,
    lane: Seq<char>,
    yes: Seq<char>,
    no: Seq<char>,
) -> int {
    units::smaller(shares_in(l, lane, yes) as int, shares_in(l, lane, no) as int)
}

/// The shares that a lane holds of a token.
pub open spec fn shares_in(l: LedgerView, lane: Seq<char>, token: Seq<char>) -> i64 {
    if l.lanes.contains_key(lane) {
        l.lanes[lane].position(token).shares
    } else {
        0
    }
}

/// What the open ones among these positions have cost, summed in their order.
pub open spec fn open_cost(vals: Seq<Position>) -> int
    decreases vals.len(),
{
    if vals.len() == 0 {
        0
    } else if vals.last().shares > 0 {
        units::clip(open_cost(vals.drop_last()) + vals.last().cost)
    } else {
        open_cost(vals.drop_last())
    }
}

/// The shares of the open ones among these positions.
pub open spec fn open_shares(m: Map<Seq<char>, Position>) -> Map<Seq<char>, i64> {
    Map::new(
        |k: Seq<char>| m.contains_key(k) && m[k].shares > 0,
        |k: Seq<char>| m[k].shares,
    )
}

/// Whether a position is open, was filled at a known time, and has been quiet for
/// `quiet_secs`.
pub open spec fn is_quiet(p: Position, quiet_secs: i64, now: i64) -> bool {
    p.shares > 0 && p.last_fill_t > 0 && now - p.last_fill_t >= quiet_secs
}

/// What the chain holds of a token.
pub open spec fn chain_shares(chain: Map<Seq<char>, i64>, tok: Seq<char>) -> int {
    if chain.contains_key(tok) {
        chain[tok] as int
    } else {
        0
    }
}

/// How many shares on the chain a lane may adopt for a position: those over what it
/// tracks that no lane claims. Nothing while the position is not quiet, for a
/// thousandth of a share or less, or from `max_shares` on.
pub open spec fn adoption(
    p: Position,
    on_chain: int,
    claimed: int,
    quiet_secs: i64,
    now: i64,
    max_shares: i64,
) -> Option<int> {
    let extra = on_chain - p.shares;
    let take = units::smaller(extra, on_chain - claimed);
    if is_quiet(p, quiet_secs, now) && 1_000 < extra < max_shares && take > 1_000 {
        Some(take)
    } else {
        None
    }
}

/// How many shares of a position are gone from the chain. Nothing while the position
/// is not quiet, or for a hundredth of a share or less while some are left.
pub open spec fn release(p: Position, on_chain: int, quiet_secs: i64, now: i64) -> Option<int> {
    let gone = p.shares - on_chain;
    if is_quiet(p, quiet_secs, now) && gone > 0 && !(gone <= 10_000 && on_chain > 0) {
        Some(gone)
    } else {
        None
    }
}

/// A list of tokens, shares and average costs.
pub open spec fn listed(v: Seq<(String, i128, i128)>) -> Seq<(Seq<char>, int, int)> {
    v.map_values(|e: (String, i128, i128)| (e.0@, e.1 as int, e.2 as int))
}

/// The adoptions of a lane, position by position.
pub open spec fn adoptions(
    keys: Seq<Seq<char>>,
    vals: Seq<Position>,
    lanes: Seq<LaneBook>,
    chain: Map<Seq<char>, i64>,
    quiet_secs: i64,
    now: i64,
    max_shares: i64,
) -> Seq<(Seq<char>, int, int)>
    decreases keys.len(),
{
    if keys.len() == 0 {
        Seq::empty()
    } else {
        let before = adoptions(
            keys.drop_last(),
            vals.drop_last(),
            lanes,
            chain,
            quiet_secs,
            now,
            max_shares,
        );
        match adoption(
            vals.last(),
            chain_shares(chain, keys.last()),
            claimed(lanes, keys.last()),
            quiet_secs,
            now,
            max_shares,
        ) {
            Some(n) => before.push((keys.last(), n, vals.last().average())),
            None => before,
        }
    }
}

/// The releases of a lane, position by position.
pub open spec fn releases(
    keys: Seq<Seq<char>>,
    vals: Seq<Position>,
    chain: Map<Seq<char>, i64>,
    quiet_secs: i64,
    now: i64,
) -> Seq<(Seq<char>, int, int)>
    decreases keys.len(),
{
    if keys.len() == 0 {
        Seq::empty()
    } else {
        let before = releases(keys.drop_last(), vals.drop_last(), chain, quiet_secs, now);
        match release(vals.last(), chain_shares(chain, keys.last()), quiet_secs, now) {
            Some(n) => before.push((keys.last(), n, vals.last().average())),
            None => before,
        }
    }
}

fn quiet(p: &Position, quiet_secs: i64, now: i64) -> (r: bool)
    ensures
        r == is_quiet(*p, quiet_secs, now),
{
    p.shares > 0 && p.last_fill_t > 0 && now as i128 - p.last_fill_t as i128 >= quiet_secs as i128
}

fn on_chain_of(chain: &Table<String, i64>, tok: &String) -> (r: i64)
    ensures
        r == chain_shares(chain@, tok@),
{
    match chain.get(tok) {
        Some(v) => *v,
        None => 0,
    }
}

/// One open position: token, shares, average cost, when it was opened, the leader's
/// average price and for how many shares that is known.
pub open spec fn open_rows(keys: Seq<Seq<char>>, vals: Seq<Position>) -> Seq<
    (Seq<char>, Position),
>
    decreases keys.len(),
{
    if keys.len() == 0 {
        Seq::empty()
    } else {
        let before = open_rows(keys.drop_last(), vals.drop_last());
        if vals.last().shares > 0 {
            before.push((keys.last(), vals.last()))
        } else {
            before
        }
    }
}

/// Whether one listed position says what the book says of it.
pub open spec fn states(
    e: (String, i64, i128, i64, Option<i128>, i64),
    tok: Seq<char>,
    p: Position,
) -> bool {
    &&& e.0@ == tok
    &&& e.1 == p.shares
    &&& e.2 == p.average()
    &&& e.3 == p.opened_t
    &&& match per_share(p.his_cost as int, p.his_shares_known as int) {
        Some(v) => e.4 matches Some(w) && w == v,
        None => e.4 is None,
    }
    &&& e.5 == p.his_shares_known
}

impl Ledger {
    /// The shares on the chain that a lane may adopt; see [`adoption`].
    pub fn adoptable(
        &self,
        lane: &str,
        chain: &Table<String, i64>,
        quiet_secs: i64,
        now: i64,
        max_shares: i64,
    ) -> (r: Vec<(String, i128, i128)>)
        ensures
            listed(r@) == (if self.lanes@.contains_key(lane@) {
                adoptions(
                    self.lanes@[lane@].positions.keys(),
                    self.lanes@[lane@].positions.vals(),
                    self.lanes.vals(),
                    chain@,
                    quiet_secs,
                    now,
                    max_shares,
                )
            } else {
                Seq::empty()
            }),
    {
        let key = owned(lane);
        let mut out: Vec<(String, i128, i128)> = Vec::new();
        match self.lanes.get(&key) {
            None => {
                assert(listed(out@) =~= Seq::<(Seq<char>, int, int)>::empty());
            },
            Some(b) => {
                let n = b.positions.len();
                let ghost keys = b.positions.keys();
                let ghost vals = b.positions.vals();
                let ghost lanes = self.lanes.vals();
                assert(listed(out@) =~= Seq::<(Seq<char>, int, int)>::empty());
                for i in 0..n
                    invariant
                        n == keys.len(),
                        keys == b.positions.keys(),
                        vals == b.positions.vals(),
                        lanes == self.lanes.vals(),
                        b.positions.aligned(),
                        listed(out@) == adoptions(
                            keys.take(i as int),
                            vals.take(i as int),
                            lanes,
                            chain@,
                            quiet_secs,
                            now,
                            max_shares,
                        ),
                {
                    let p = b.positions.val_at(i);
                    let tok = b.positions.key_at(i);
                    assert(keys.take(i + 1).drop_last() =~= keys.take(i as int));
                    assert(vals.take(i + 1).drop_last() =~= vals.take(i as int));
                    let on_chain = on_chain_of(chain, tok);
                    let claim = self.pool_claim(tok.as_str());
                    let extra: i128 = on_chain as i128 - p.shares as i128;
                    let ghost before = listed(out@);
                    if quiet(p, quiet_secs, now) && extra > 1_000 && extra < max_shares as i128 {
                        if claim < on_chain as i128 - 1_000 {
                            let free: Option<i128> = (on_chain as i128).checked_sub(claim);
                            let take = match free {
                                Some(f) => units::min_of(extra, f),
                                None => extra,
                            };
                            out.push((tok.clone(), take, p.avg_cost()));
                            assert(listed(out@) =~= before.push(
                                (keys[i as int], take as int, p.average()),
                            ));
                        }
                    }
                }
                assert(keys.take(keys.len() as int) =~= keys);
                assert(vals.take(vals.len() as int) =~= vals);
            },
        }
        out
    }

    /// The shares of a lane that are gone from the chain; see [`release`].
    pub fn releasable(
        &self,
        lane: &str,
        chain: &Table<String, i64>,
        quiet_secs: i64,
        now: i64,
    ) -> (r: Vec<(String, i128, i128)>)
        ensures
            listed(r@) == (if self.lanes@.contains_key(lane@) {
                releases(
                    self.lanes@[lane@].positions.keys(),
                    self.lanes@[lane@].positions.vals(),
                    chain@,
                    quiet_secs,
                    now,
                )
            } else {
                Seq::empty()
            }),
    {
        let key = owned(lane);
        let mut out: Vec<(String, i128, i128)> = Vec::new();
        match self.lanes.get(&key) {
            None => {
                assert(listed(out@) =~= Seq::<(Seq<char>, int, int)>::empty());
            },
            Some(b) => {
                let n = b.positions.len();
                let ghost keys = b.positions.keys();
                let ghost vals = b.positions.vals();
                assert(listed(out@) =~= Seq::<(Seq<char>, int, int)>::empty());
                for i in 0..n
                    invariant
                        n == keys.len(),
                        keys == b.positions.keys(),
                        vals == b.positions.vals(),
                        b.positions.aligned(),
                        listed(out@) == releases(
                            keys.take(i as int),
                            vals.take(i as int),
                            chain@,
                            quiet_secs,
                            now,
                        ),
                {
                    let p = b.positions.val_at(i);
                    let tok = b.positions.key_at(i);
                    assert(keys.take(i + 1).drop_last() =~= keys.take(i as int));
                    assert(vals.take(i + 1).drop_last() =~= vals.take(i as int));
                    let on_chain = on_chain_of(chain, tok);
                    let gone: i128 = p.shares as i128 - on_chain as i128;
                    let ghost before = listed(out@);
                    if quiet(p, quiet_secs, now) && gone > 0 && !(gone <= 10_000 && on_chain > 0) {
                        out.push((tok.clone(), gone, p.avg_cost()));
                        assert(listed(out@) =~= before.push(
                            (keys[i as int], gone as int, p.average()),
                        ));
                    }
                }
                assert(keys.take(keys.len() as int) =~= keys);
                assert(vals.take(vals.len() as int) =~= vals);
            },
        }
        out
    }

    /// Every open position of a lane.
    pub fn open_positions(&self, lane: &str) -> (r: Vec<
        (String, i64, i128, i64, Option<i128>, i64),
    >)
        ensures
            ({
                let want = if self.lanes@.contains_key(lane@) {
                    open_rows(
                        self.lanes@[lane@].positions.keys(),
                        self.lanes@[lane@].positions.vals(),
                    )
                } else {
                    Seq::empty()
                };
                r@.len() == want.len() && forall|i: int|
                    0 <= i < want.len() ==> states(#[trigger] r@[i], want[i].0, want[i].1)
            }),
    {
        let key = owned(lane);
        let mut out: Vec<(String, i64, i128, i64, Option<i128>, i64)> = Vec::new();
        match self.lanes.get(&key) {
            None => {},
            Some(b) => {
                let n = b.positions.len();
                let ghost keys = b.positions.keys();
                let ghost vals = b.positions.vals();
                for i in 0..n
                    invariant
                        n == keys.len(),
                        keys == b.positions.keys(),
                        vals == b.positions.vals(),
                        b.positions.aligned(),
                        ({
                            let want = open_rows(keys.take(i as int), vals.take(i as int));
                            out@.len() == want.len() && forall|k: int|
                                0 <= k < want.len() ==> states(
                                    #[trigger] out@[k],
                                    want[k].0,
                                    want[k].1,
                                )
                        }),
                {
                    let p = b.positions.val_at(i);
                    let tok = b.positions.key_at(i);
                    assert(keys.take(i + 1).drop_last() =~= keys.take(i as int));
                    assert(vals.take(i + 1).drop_last() =~= vals.take(i as int));
                    if p.shares > 0 {
                        out.push(
                            (
                                tok.clone(),
                                p.shares,
                                p.avg_cost(),
                                p.opened_t,
                                p.avg_his_price(),
                                p.his_shares_known,
                            ),
                        );
                    }
                }
                assert(keys.take(keys.len() as int) =~= keys);
                assert(vals.take(vals.len() as int) =~= vals);
            },
        }
        out
    }
}

/// The prices at which the two sides of a merge are booked: the first by its share of
/// the two marks, half each where the marks say nothing, and the second so that both
/// make one whole.
pub open spec fn merge_price(mark_a: Qty, mark_b: Qty) -> int {
    match (mark_a, mark_b) {
        (Qty::Finite(a), Qty::Finite(b)) => if a + b > 0 && a >= 0 {
            units::smaller((a * 2 * units::ONE + (a + b)) / (2 * (a + b)), units::ONE as int)
        } else {
            500_000
        },
        _ => 500_000,
    }
}

/// The price of the first side of a merge; see [`merge_price`].
pub fn merge_price_of(mark_a: Qty, mark_b: Qty) -> (r: i64)
    ensures
        r == merge_price(mark_a, mark_b),
        0 <= r <= 1_000_000,
{
    match (mark_a, mark_b) {
        (Qty::Finite(a), Qty::Finite(b)) => {
            let total: i128 = a as i128 + b as i128;
            if total > 0 && a >= 0 {
                let q: i128 = (a as i128 * 2_000_000 + total) / (2 * total);
                assert(q >= 0) by (nonlinear_arith)
                    requires
                        q == (a as int * 2_000_000 + total) / (2 * total as int),
                        a >= 0,
                        total > 0,
                ;
                units::min_of(q, 1_000_000) as i64
            } else {
                500_000
            }
        },
        _ => 500_000,
    }
}

/// The hash under which one side of a merge is booked.
pub open spec fn side_hash(tx: Seq<char>, first: bool) -> Seq<char> {
    if first {
        tx + ":a"@
    } else {
        tx + ":b"@
    }
}

/// The hash under which one side of a merge is booked.
pub fn side_hash_of(tx: &str, first: bool) -> (r: String)
    ensures
        r@ == side_hash(tx@, first),
{
    let mut s = owned(tx);
    s.append(
        if first {
            ":a"
        } else {
            ":b"
        },
    );
    s
}

/// The sell that books one side of a merge.
pub open spec fn side_row(
    lane: Seq<char>,
    token: Seq<char>,
    pairs: i64,
    price: i64,
    tx: Seq<char>,
    first: bool,
    t: i64,
) -> RowView {
    RowView {
        order_hash: side_hash(tx, first),
        ..fill_view(lane, token, 1, pairs, price, 0, None, t)
    }
}

/// The price of one side of a merge.
pub open spec fn side_price(mark_a: Qty, mark_b: Qty, first: bool) -> int {
    if first {
        merge_price(mark_a, mark_b)
    } else {
        units::ONE - merge_price(mark_a, mark_b)
    }
}

impl Ledger {
    /// The row of one side of a merge that [`Ledger::book_merge`] needs written; nothing
    /// for no pairs, and for a side that is booked already.
    pub fn merge_side_row(
        &self,
        lane: &str,
        token: &str,
        pairs: Qty,
        mark_a: Qty,
        mark_b: Qty,
        tx_hash: &str,
        first: bool,
        t: i64,
    ) -> (r: Option<Json>)
        ensures
            match pairs {
                Qty::Finite(n) => if n > 0 && !already_booked(self@, side_hash(tx_hash@, first)) {
                    r matches Some(j) && rows::read_row(j) == side_row(
                        lane@,
                        token@,
                        n,
                        side_price(mark_a, mark_b, first) as i64,
                        tx_hash@,
                        first,
                        t,
                    ) && json::text_in(json::field(j, "exec"@)) == Some(rows::exec_name(false))
                        && json::text_in(json::field(j, "lane_id"@)) == (if self@.lane_ids.contains_key(
                        lane@,
                    ) {
                        Some(self@.lane_ids[lane@])
                    } else {
                        None
                    })
                } else {
                    r is None
                },
                Qty::NotFinite => r is None,
            },
    {
        let n: i64 = match pairs {
            Qty::Finite(n) => n,
            Qty::NotFinite => 0,
        };
        let h = side_hash_of(tx_hash, first);
        if n <= 0 || self.is_booked(h.as_str()) {
            return None;
        }
        let pa = merge_price_of(mark_a, mark_b);
        let price: i64 = if first {
            pa
        } else {
            1_000_000 - pa
        };
        Some(self.booking_row(lane, token, 1, n, price, 0, None, h.as_str(), false, false, t))
    }

    /// The row of the second side of a merge, once it is known how the first was written:
    /// nothing where that failed, for the second side is then not booked.
    pub fn merge_second_row(
        &self,
        lane: &str,
        token: &str,
        pairs: Qty,
        mark_a: Qty,
        mark_b: Qty,
        tx_hash: &str,
        t: i64,
        first: &Append,
    ) -> (r: Option<Json>)
        ensures
            match (pairs, *first) {
                (Qty::Finite(n), Append::Done) => if n > 0 && !already_booked(
                    self@,
                    side_hash(tx_hash@, false),
                ) {
                    r matches Some(j) && rows::read_row(j) == side_row(
                        lane@,
                        token@,
                        n,
                        side_price(mark_a, mark_b, false) as i64,
                        tx_hash@,
                        false,
                        t,
                    ) && json::text_in(json::field(j, "exec"@)) == Some(rows::exec_name(false))
                        && json::text_in(json::field(j, "lane_id"@)) == (if self@.lane_ids.contains_key(
                        lane@,
                    ) {
                        Some(self@.lane_ids[lane@])
                    } else {
                        None
                    })
                } else {
                    r is None
                },
                _ => r is None,
            },
    {
        match first {
            Append::Done => self.merge_side_row(
                lane,
                token,
                pairs,
                mark_a,
                mark_b,
                tx_hash,
                false,
                t,
            ),
            Append::Failed(_) => None,
        }
    }

    /// Books a merge on the chain as a sell of either side; nothing for no pairs. The
    /// second side is booked only where the first is.
    pub fn book_merge(
        &mut self,
        lane: &str,
        token_a: &str,
        token_b: &str,
        pairs: Qty,
        mark_a: Qty,
        mark_b: Qty,
        tx_hash: &str,
        t: i64,
        write_a: Append,
        write_b: Append,
    ) -> (r: Option<(Booked, Booked)>)
        ensures
            match pairs {
                Qty::Finite(n) => if n > 0 {
                    let pa = merge_price(mark_a, mark_b) as i64;
                    let pb = (units::ONE - pa) as i64;
                    let row_a = side_row(lane@, token_a@, n, pa, tx_hash@, true, t);
                    let row_b = side_row(lane@, token_b@, n, pb, tx_hash@, false, t);
                    let mid = booked_into(old(self)@, row_a, t as int, write_a);
                    match receipt_for(old(self)@, row_a, Booked { shares: n, price: pa }, write_a) {
                        Some(a) => final(self)@ == booked_into(mid, row_b, t as int, write_b) && r
                            == (match receipt_for(
                            mid,
                            row_b,
                            Booked { shares: n, price: pb },
                            write_b,
                        ) {
                            Some(b) => Some((a, b)),
                            None => None,
                        }),
                        None => r is None && final(self)@ == mid,
                    }
                } else {
                    r is None && final(self)@ == old(self)@
                },
                Qty::NotFinite => r is None && final(self)@ == old(self)@,
            },
            (final(self)@, r) == merge_booked(
                old(self)@,
                lane@,
                token_a@,
                token_b@,
                pairs,
                mark_a,
                mark_b,
                tx_hash@,
                t,
                write_a,
                write_b,
            ),
    {
        let n: i64 = match pairs {
            Qty::Finite(n) => n,
            Qty::NotFinite => 0,
        };
        if n <= 0 {
            return None;
        }
        let pa = merge_price_of(mark_a, mark_b);
        let pb: i64 = 1_000_000 - pa;
        let ha = side_hash_of(tx_hash, true);
        let hb = side_hash_of(tx_hash, false);
        let first = self.book_fill_ex_px(
            lane,
            token_a,
            1,
            n,
            pa,
            0,
            None,
            ha.as_str(),
            false,
            false,
            t,
            write_a,
        );
        let a = match first {
            Some(a) => a,
            None => {
                return None;
            },
        };
        let second = self.book_fill_ex_px(
            lane,
            token_b,
            1,
            n,
            pb,
            0,
            None,
            hb.as_str(),
            false,
            false,
            t,
            write_b,
        );
        match second {
            Some(b) => Some((a, b)),
            None => None,
        }
    }
}

/// A merge booked as two sales, one after the other: the ledger after it, and the receipts
/// where both were booked.
pub open spec fn merge_booked(
    l: LedgerView,
    lane: Seq<char>,
    token_a: Seq<char>,
    token_b: Seq<char>,
    pairs: Qty,
    mark_a: Qty,
    mark_b: Qty,
    tx: Seq<char>,
    t: i64,
    write_a: Append,
    write_b: Append,
) -> (LedgerView, Option<(Booked, Booked)>) {
    match pairs {
        Qty::Finite(n) => if n > 0 {
            let pa = merge_price(mark_a, mark_b) as i64;
            let pb = (units::ONE - pa) as i64;
            let row_a = side_row(lane, token_a, n, pa, tx, true, t);
            let row_b = side_row(lane, token_b, n, pb, tx, false, t);
            let mid = booked_into(l, row_a, t as int, write_a);
            match receipt_for(l, row_a, Booked { shares: n, price: pa }, write_a) {
                Some(a) => (
                    booked_into(mid, row_b, t as int, write_b),
                    match receipt_for(mid, row_b, Booked { shares: n, price: pb }, write_b) {
                        Some(b) => Some((a, b)),
                        None => None,
                    },
                ),
                None => (mid, None),
            }
        } else {
            (l, None)
        },
        Qty::NotFinite => (l, None),
    }
}

/// The two sides of a merge are booked at prices that make one whole, neither of
/// them under nothing.
pub proof fn merge_prices_make_one(mark_a: Qty, mark_b: Qty)
    ensures
        0 <= merge_price(mark_a, mark_b) <= units::ONE,
        0 <= units::ONE - merge_price(mark_a, mark_b) <= units::ONE,
{
    if let (Qty::Finite(a), Qty::Finite(b)) = (mark_a, mark_b) {
        if a + b > 0 && a >= 0 {
            let d: int = a + b;
            assert((a * 2 * units::ONE + d) / (2 * d) >= 0) by (nonlinear_arith)
                requires
                    a >= 0,
                    d > 0,
                    units::ONE == 1_000_000,
            ;
        }
    }
}

/// An order that is booked stays booked: to book it again changes nothing, whatever
/// the second booking says of it.
pub proof fn booked_once(
    before: LedgerView,
    after: LedgerView,
    receipt: Option<Booked>,
    row: RowView,
    fill: Booked,
    now: int,
    again: LedgerView,
    receipt2: Option<Booked>,
    row2: RowView,
    fill2: Booked,
    now2: int,
    write2: Append,
)
    requires
        booking(before, after, receipt, row, fill, now, Append::Done),
        receipt is Some,
        row.order_hash.len() > 0,
        row2.order_hash == row.order_hash,
        booking(after, again, receipt2, row2, fill2, now2, write2),
    ensures
        again == after,
        receipt2 == Some(fill2),
{
}

/// A receipt is only ever given for a fill that is in the book, and never where the
/// row could not be written.
pub proof fn receipt_means_booked(
    before: LedgerView,
    after: LedgerView,
    receipt: Option<Booked>,
    row: RowView,
    fill: Booked,
    now: int,
    write: Append,
)
    requires
        booking(before, after, receipt, row, fill, now, write),
        receipt is Some,
        row.order_hash.len() > 0,
    ensures
        after.booked.contains(row.order_hash),
        write is Failed ==> already_booked(before, row.order_hash),
{
}

/// The file and the book agree: a line that says what a recorded row says leads,
/// when it is replayed, to the same lanes and the same booked orders as the recording
/// did.
pub proof fn replay_repeats_the_record(l: LedgerView, line: Seq<char>, j: Json, now: int)
    requires
        text::trimmed(line).len() > 0,
        json::document(text::trimmed(line)) == Some(j),
    ensures
        l.after_line(line, now).lanes == l.committed(rows::read_row(j), now, Append::Done).lanes,
        l.after_line(line, now).booked == l.committed(rows::read_row(j), now, Append::Done).booked,
{
}

/// A row of one lane leaves every other lane as it was.
pub proof fn lanes_are_apart(l: LedgerView, r: RowView, now: int, other: Seq<char>)
    requires
        other != r.lane,
    ensures
        l.applied(r, now).lanes.contains_key(other) == l.lanes.contains_key(other),
        l.lanes.contains_key(other) ==> l.applied(r, now).lanes[other] == l.lanes[other],
{
}

/// A sell never takes more shares than are held, and a sell of everything takes the
/// whole cost with it.
pub proof fn sell_stays_within(p: Position, r: RowView)
    requires
        p.shares > 0,
        r.shares >= 0,
        units::in_range(p.cost as int),
    ensures
        0 <= after_sell(p, r).shares <= p.shares,
        r.shares >= p.shares ==> after_sell(p, r).shares == 0 && after_sell(p, r).cost == 0,
{
    if r.shares >= p.shares {
        let c = p.cost as int;
        let n = p.shares as int;
        assert(units::toward_zero(c * n, n) == c) by {
            if c < 0 {
                assert((-(c * n)) / n == -c && c * n < 0) by (nonlinear_arith)
                    requires
                        n > 0,
                        c < 0,
                ;
            } else {
                assert((c * n) / n == c && c * n >= 0) by (nonlinear_arith)
                    requires
                        n > 0,
                        c >= 0,
                ;
            }
        }
    }
}

/// A fill that only follows the chain realises nothing and spends nothing.
pub proof fn recon_realises_nothing(l: LaneView, r: RowView, now: int)
    requires
        r.ev == "fill"@,
        r.recon,
    ensures
        l.after(r, now).risk.realised_pnl == l.risk.realised_pnl,
        l.after(r, now).risk.closed == l.risk.closed,
        l.after(r, now).spent_today == l.spent_today || l.after(r, now).spent_today == 0,
{
}

/// What is settled is settled: a second settlement of a token changes nothing.
pub proof fn settled_once(l: LaneView, r: RowView, again: RowView, now: int)
    requires
        again.token == r.token,
    ensures
        l.settle(r).settle(again) == l.settle(r),
{
}

} // verus!
