//! Holding the ledger against what the venue says we hold.

use vstd::prelude::*;
use crate::sorting;
use crate::text;
use crate::text::{dec_u128, owned, show};
use crate::units;
use crate::units::{abs_of, diff_of, max_of, sum_of, Qty};

verus! {

/// One token of one lane: what the ledger says, what the venue says, and what orders of
/// ours are under way.
#[derive(Debug)]
pub struct Holding {
    pub lane: String,
    pub token: String,
    pub ledger: Qty,
    pub venue: Qty,
    pub in_flight: i64,
    pub in_flight_buy: i64,
}

/// How ledger and venue compare.
#[derive(Debug, Clone, Copy, PartialEq, Eq, Structural)]
pub enum Verdict {
    Agreed,
    Explained { delta: i128, in_flight: i128 },
    Unattributed { delta: i128 },
    Unknown,
}

/// The name of a verdict.
pub open spec fn kind_of(v: Verdict) -> Seq<char> {
    match v {
        Verdict::Agreed => "agreed"@,
        Verdict::Explained { .. } => "explained"@,
        Verdict::Unattributed { .. } => "unattributed"@,
        Verdict::Unknown => "unknown"@,
    }
}

impl Verdict {
    /// Whether an operator has to look.
    pub fn is_alarm(&self) -> (r: bool)
        ensures
            r == (*self is Unattributed),
    {
        match self {
            Verdict::Unattributed { .. } => true,
            _ => false,
        }
    }

    /// The name of a verdict.
    pub fn kind(&self) -> (r: &'static str)
        ensures
            r@ == kind_of(*self),
    {
        match self {
            Verdict::Agreed => "agreed",
            Verdict::Explained { .. } => "explained",
            Verdict::Unattributed { .. } => "unattributed",
            Verdict::Unknown => "unknown",
        }
    }
}

/// By how many shares ledger and venue may always differ, in millionths.
pub const SHARE_TOLERANCE: i64 = 10_000;

/// By what part of the ledger they may differ, in millionths.
pub const REL_TOLERANCE: i64 = 1_000;

/// From how many shares on a difference is reported, in millionths.
pub const MIN_REPORTABLE_SHARES: i64 = 1_000_000;

/// Whether a difference lies within the tolerance: a hundredth of a share, or a
/// thousandth of the ledger.
pub open spec fn tolerated(diff: int, ledger: int) -> bool {
    diff * units::ONE <= units::larger(
        SHARE_TOLERANCE * units::ONE,
        units::size_of(ledger) * REL_TOLERANCE,
    )
}

pub(crate) fn within(diff: i128, ledger: i64) -> (r: bool)
    requires
        -0x4_0000_0000_0000_0000 <= diff <= 0x4_0000_0000_0000_0000,
    ensures
        r == tolerated(diff as int, ledger as int),
{
    diff * 1_000_000 <= max_of(10_000 * 1_000_000, abs_of(ledger as i128) * 1_000)
}

/// What of a shared balance is a lane's, given what all lanes claim together.
pub open spec fn lane_share(total: int, pool_claim: int, ours: int) -> int {
    units::larger(units::clip(total + ours - pool_claim), 0)
}

/// What of a shared balance is a lane's; see [`lane_share`].
pub fn lane_share_of(total: i64, pool_claim: i128, ours: i64) -> (r: i128)
    ensures
        r == lane_share(total as int, pool_claim as int, ours as int),
{
    max_of(diff_of(total as i128 + ours as i128, pool_claim), 0)
}

/// How ledger and venue compare: within the tolerance they agree; a difference that
/// orders under way explain is explained; one of less than a share passes; the rest
/// has no order of ours behind it. Without a complete and finite reading nothing is
/// known.
pub open spec fn verdict(h: Holding, complete: bool) -> Verdict {
    match (h.venue, h.ledger) {
        (Qty::Finite(v), Qty::Finite(l)) => {
            let delta = v - l;
            let out = units::size_of(h.in_flight as int);
            let inward = units::size_of(h.in_flight_buy as int);
            if !complete {
                Verdict::Unknown
            } else if tolerated(units::size_of(delta), l as int) {
                Verdict::Agreed
            } else if delta < 0 && tolerated(-delta - out, l as int) {
                Verdict::Explained { delta: delta as i128, in_flight: out as i128 }
            } else if delta > 0 && tolerated(delta - inward, l as int) {
                Verdict::Explained { delta: delta as i128, in_flight: inward as i128 }
            } else if units::size_of(delta) < MIN_REPORTABLE_SHARES {
                Verdict::Agreed
            } else {
                Verdict::Unattributed { delta: delta as i128 }
            }
        },
        _ => Verdict::Unknown,
    }
}

/// How ledger and venue compare; see [`verdict`].
pub fn classify(h: &Holding, complete: bool) -> (r: Verdict)
    ensures
        r == verdict(*h, complete),
        r matches Verdict::Unattributed { delta } ==> -0x1_0000_0000_0000_0000 <= delta
            <= 0x1_0000_0000_0000_0000,
{
    let (v, l) = match (h.venue, h.ledger) {
        (Qty::Finite(v), Qty::Finite(l)) => (v, l),
        _ => {
            return Verdict::Unknown;
        },
    };
    if !complete {
        return Verdict::Unknown;
    }
    let delta: i128 = v as i128 - l as i128;
    if within(abs_of(delta), l) {
        return Verdict::Agreed;
    }
    let out = abs_of(h.in_flight as i128);
    if delta < 0 && within(-delta - out, l) {
        return Verdict::Explained { delta, in_flight: out };
    }
    let inward = abs_of(h.in_flight_buy as i128);
    if delta > 0 && within(delta - inward, l) {
        return Verdict::Explained { delta, in_flight: inward };
    }
    if abs_of(delta) < MIN_REPORTABLE_SHARES as i128 {
        return Verdict::Agreed;
    }
    Verdict::Unattributed { delta }
}

/// One difference of a report.
#[derive(Debug)]
pub struct Row {
    pub lane: String,
    pub token: String,
    pub ledger: i64,
    pub venue: i64,
    pub delta: i128,
    pub verdict: String,
}

/// What one difference of a report says.
#[verifier::ext_equal]
pub struct RowView {
    pub lane: Seq<char>,
    pub token: Seq<char>,
    pub ledger: int,
    pub venue: int,
    pub delta: int,
    pub verdict: Seq<char>,
}

impl View for Row {
    type V = RowView;

    open spec fn view(&self) -> RowView {
        RowView {
            lane: self.lane@,
            token: self.token@,
            ledger: self.ledger as int,
            venue: self.venue as int,
            delta: self.delta as int,
            verdict: self.verdict@,
        }
    }
}

/// What these differences say.
pub open spec fn row_views(v: Seq<Row>) -> Seq<RowView> {
    v.map_values(|r: Row| r@)
}

/// How all holdings compare.
#[derive(Debug)]
pub struct Report {
    pub checked: usize,
    pub agreed: usize,
    pub explained: usize,
    pub unattributed: usize,
    pub unknown: usize,
    pub unattributed_shares: i128,
    pub rows: Vec<Row>,
    pub complete: bool,
}

impl Report {
    /// Whether an operator has to look.
    pub fn is_alarm(&self) -> (r: bool)
        ensures
            r == (self.unattributed > 0),
    {
        self.unattributed > 0
    }
}

/// How many differences a report lists.
pub const MAX_ROWS: usize = 12;

/// How many holdings have a verdict for which `p` holds.
pub open spec fn count(hs: Seq<Holding>, complete: bool, p: spec_fn(Verdict) -> bool) -> nat
    decreases hs.len(),
{
    if hs.len() == 0 {
        0
    } else {
        count(hs.drop_last(), complete, p) + (if p(verdict(hs.last(), complete)) {
            1nat
        } else {
            0
        })
    }
}

/// The shares that moved without an order of ours, summed in order.
pub open spec fn lost(hs: Seq<Holding>, complete: bool) -> int
    decreases hs.len(),
{
    if hs.len() == 0 {
        0
    } else {
        match verdict(hs.last(), complete) {
            Verdict::Unattributed { delta } => units::clip(
                lost(hs.drop_last(), complete) + units::size_of(delta as int),
            ),
            _ => lost(hs.drop_last(), complete),
        }
    }
}

/// Every difference without an order of ours, in the order of the holdings.
pub open spec fn differences(hs: Seq<Holding>, complete: bool) -> Seq<RowView>
    decreases hs.len(),
{
    if hs.len() == 0 {
        Seq::empty()
    } else {
        let before = differences(hs.drop_last(), complete);
        let h = hs.last();
        match verdict(h, complete) {
            Verdict::Unattributed { delta } => before.push(
                RowView {
                    lane: h.lane@,
                    token: h.token@,
                    ledger: h.ledger->Finite_0 as int,
                    venue: h.venue->Finite_0 as int,
                    delta: delta as int,
                    verdict: "unattributed"@,
                },
            ),
            _ => before,
        }
    }
}

/// The sizes of these differences.
pub open spec fn sizes(rows: Seq<RowView>) -> Seq<i128> {
    rows.map_values(|r: RowView| units::size_of(r.delta) as i128)
}

/// Whether `out` are the largest of these differences, from the largest down, and no
/// more than a report lists.
pub open spec fn worst_first(rows: Seq<RowView>, out: Seq<RowView>) -> bool {
    exists|order: Seq<usize>| #[trigger]
        sorting::ranks(order, sizes(rows)) && out == Seq::new(
            units::smaller(rows.len() as int, MAX_ROWS as int) as nat,
            |i: int| rows[order[i] as int],
        )
}

/// Compares all holdings.
pub fn audit(holdings: &[Holding], complete: bool) -> (r: Report)
    ensures
        r.checked == holdings@.len(),
        r.complete == complete,
        r.agreed == count(holdings@, complete, |v: Verdict| v is Agreed),
        r.explained == count(holdings@, complete, |v: Verdict| v is Explained),
        r.unattributed == count(holdings@, complete, |v: Verdict| v is Unattributed),
        r.unknown == count(holdings@, complete, |v: Verdict| v is Unknown),
        r.unattributed_shares == lost(holdings@, complete),
        worst_first(differences(holdings@, complete), row_views(r.rows@)),
{
    let ghost pa = |v: Verdict| v is Agreed;
    let ghost pe = |v: Verdict| v is Explained;
    let ghost pu = |v: Verdict| v is Unattributed;
    let ghost pk = |v: Verdict| v is Unknown;
    let mut agreed: usize = 0;
    let mut explained: usize = 0;
    let mut unattributed: usize = 0;
    let mut unknown: usize = 0;
    let mut shares: i128 = 0;
    let mut rows: Vec<Row> = Vec::new();
    let mut keys: Vec<i128> = Vec::new();
    assert(row_views(rows@) =~= Seq::<RowView>::empty());
    for i in 0..holdings.len()
        invariant
            pa == (|v: Verdict| v is Agreed),
            pe == (|v: Verdict| v is Explained),
            pu == (|v: Verdict| v is Unattributed),
            pk == (|v: Verdict| v is Unknown),
            agreed == count(holdings@.take(i as int), complete, pa),
            explained == count(holdings@.take(i as int), complete, pe),
            unattributed == count(holdings@.take(i as int), complete, pu),
            unknown == count(holdings@.take(i as int), complete, pk),
            agreed + explained + unattributed + unknown == i,
            shares == lost(holdings@.take(i as int), complete),
            row_views(rows@) == differences(holdings@.take(i as int), complete),
            keys@ == sizes(row_views(rows@)),
    {
        let h = &holdings[i];
        assert(holdings@.take(i + 1).drop_last() =~= holdings@.take(i as int));
        let v = classify(h, complete);
        let ghost before = row_views(rows@);
        match v {
            Verdict::Agreed => {
                agreed = agreed + 1;
            },
            Verdict::Explained { .. } => {
                explained = explained + 1;
            },
            Verdict::Unknown => {
                unknown = unknown + 1;
            },
            Verdict::Unattributed { delta } => {
                unattributed = unattributed + 1;
                shares = sum_of(shares, abs_of(delta));
                let ledger: i64 = match h.ledger {
                    Qty::Finite(l) => l,
                    Qty::NotFinite => 0,
                };
                let venue: i64 = match h.venue {
                    Qty::Finite(x) => x,
                    Qty::NotFinite => 0,
                };
                let row = Row {
                    lane: h.lane.clone(),
                    token: h.token.clone(),
                    ledger,
                    venue,
                    delta,
                    verdict: owned(v.kind()),
                };
                let ghost rv = row@;
                rows.push(row);
                keys.push(abs_of(delta));
                assert(row_views(rows@) =~= before.push(rv));
                assert(keys@ =~= sizes(row_views(rows@)));
            },
        }
    }
    assert(holdings@.take(holdings@.len() as int) =~= holdings@);
    let ghost all = row_views(rows@);
    let order = sorting::rank(&keys);
    let n: usize = if rows.len() <= MAX_ROWS {
        rows.len()
    } else {
        MAX_ROWS
    };
    let mut out: Vec<Row> = Vec::new();
    for i in 0..n
        invariant
            n <= order@.len(),
            sorting::ranks(order@, sizes(all)),
            all == row_views(rows@),
            out@.len() == i,
            row_views(out@) == Seq::new(i as nat, |k: int| all[order@[k] as int]),
    {
        assert(order@[i as int] < sizes(all).len());
        let ghost before = row_views(out@);
        out.push(rows[order[i]].copy());
        assert(row_views(out@) =~= before.push(all[order@[i as int] as int]));
        assert(row_views(out@) =~= Seq::new((i + 1) as nat, |k: int| all[order@[k] as int]));
    }
    assert(sorting::ranks(order@, sizes(all)));
    Report {
        checked: holdings.len(),
        agreed,
        explained,
        unattributed,
        unknown,
        unattributed_shares: shares,
        rows: out,
        complete,
    }
}

impl Row {
    /// A copy of a difference.
    pub fn copy(&self) -> (r: Row)
        ensures
            r@ == self@,
    {
        Row {
            lane: self.lane.clone(),
            token: self.token.clone(),
            ledger: self.ledger,
            venue: self.venue,
            delta: self.delta,
            verdict: self.verdict.clone(),
        }
    }
}

/// An amount with its sign, to four places.
pub open spec fn signed4(m: int) -> Seq<char> {
    if m < 0 {
        text::fixed(m, 6, 4)
    } else {
        "+"@ + text::fixed(m, 6, 4)
    }
}

/// What a report says in one line.
pub open spec fn sentence(r: Report) -> Seq<char> {
    if !r.complete {
        "custody: venue position read was incomplete — no comparison made"@
    } else if r.unattributed == 0 {
        "custody: "@ + text::dec(r.agreed as nat) + " holdings agree with the venue ("@ + text::dec(
            r.explained as nat,
        ) + " explained by orders in flight)"@
    } else {
        let head = "custody: "@ + text::dec(r.unattributed as nat)
            + " holding(s) moved with NO order of ours behind them — "@ + text::fixed(
            r.unattributed_shares as int,
            6,
            4,
        ) + " shares total"@;
        if r.rows@.len() == 0 {
            head
        } else {
            let w = r.rows@[0]@;
            head + "; worst "@ + w.lane + " …"@ + text::ending(w.token, 8) + " ledger "@
                + text::fixed(w.ledger, 6, 4) + " vs venue "@ + text::fixed(w.venue, 6, 4) + " ("@
                + signed4(w.delta) + ")"@
        }
    }
}

/// What a report says in one line; see [`sentence`].
pub fn describe(r: &Report) -> (s: String)
    ensures
        s@ == sentence(*r),
{
    if !r.complete {
        return owned("custody: venue position read was incomplete — no comparison made");
    }
    let mut s = owned("custody: ");
    if r.unattributed == 0 {
        s.append(dec_u128(r.agreed as u128).as_str());
        s.append(" holdings agree with the venue (");
        s.append(dec_u128(r.explained as u128).as_str());
        s.append(" explained by orders in flight)");
        return s;
    }
    s.append(dec_u128(r.unattributed as u128).as_str());
    s.append(" holding(s) moved with NO order of ours behind them — ");
    s.append(show(r.unattributed_shares, 6, 4).as_str());
    s.append(" shares total");
    if r.rows.len() > 0 {
        let w = &r.rows[0];
        s.append("; worst ");
        s.append(w.lane.as_str());
        s.append(" …");
        s.append(text::tail(w.token.as_str(), 8).as_str());
        s.append(" ledger ");
        s.append(show(w.ledger as i128, 6, 4).as_str());
        s.append(" vs venue ");
        s.append(show(w.venue as i128, 6, 4).as_str());
        s.append(" (");
        let mut d = show(w.delta, 6, 4);
        if w.delta >= 0 {
            let mut p = owned("+");
            p.append(d.as_str());
            d = p;
        }
        s.append(d.as_str());
        s.append(")");
    }
    s
}

/// An incomplete reading never raises an alarm: it compares nothing.
pub proof fn incomplete_read_alarms_nobody(hs: Seq<Holding>)
    ensures
        count(hs, false, |v: Verdict| v is Unattributed) == 0,
        count(hs, false, |v: Verdict| v is Unknown) == hs.len(),
    decreases hs.len(),
{
    if hs.len() > 0 {
        incomplete_read_alarms_nobody(hs.drop_last());
    }
}

/// Every holding is counted under exactly one verdict.
pub proof fn verdicts_add_up(hs: Seq<Holding>, complete: bool)
    ensures
        count(hs, complete, |v: Verdict| v is Agreed) + count(
            hs,
            complete,
            |v: Verdict| v is Explained,
        ) + count(hs, complete, |v: Verdict| v is Unattributed) + count(
            hs,
            complete,
            |v: Verdict| v is Unknown,
        ) == hs.len(),
    decreases hs.len(),
{
    if hs.len() > 0 {
        verdicts_add_up(hs.drop_last(), complete);
    }
}

} // verus!
