//! What was paid in and out, and what was earned on it.

use vstd::prelude::*;
use crate::journal;
use crate::json;
use crate::json::{int_json, put, text_json, Json, JsonView};
use crate::ledger::{Append, LedgerFile};
use crate::numerals;
use crate::text;
use crate::text::owned;
use crate::units;
use crate::units::{diff_of, sum_of, Reading};

verus! {

/// One payment: in where it is positive, out where it is negative.
#[derive(Debug, PartialEq, Eq)]
pub struct Movement {
    pub t: i64,
    pub usd: i64,
    pub note: String,
}

/// What a payment says.
#[verifier::ext_equal]
pub struct MovementView {
    pub t: i64,
    pub usd: i64,
    pub note: Seq<char>,
}

impl View for Movement {
    type V = MovementView;

    open spec fn view(&self) -> MovementView {
        MovementView { t: self.t, usd: self.usd, note: self.note@ }
    }
}

/// What these payments say.
pub open spec fn movement_views(v: Seq<Movement>) -> Seq<MovementView> {
    v.map_values(|m: Movement| m@)
}

/// A payment as a line of the journal.
pub open spec fn row_of(m: MovementView) -> JsonView {
    JsonView::Fields(
        seq![
            ("t"@, JsonView::Number(text::dec_int(m.t as int))),
            ("usd"@, JsonView::Number(text::fixed(m.usd as int, 6, 6))),
            ("note"@, JsonView::Text(m.note)),
        ],
    )
}

/// The payment that a line tells of, as an object or as a list of its parts in order; a note
/// may be missing.
pub open spec fn movement_in(j: Json) -> Option<MovementView> {
    if json::fits(j, 3) {
        match (json::signed_in(json::part(j, 0, "t"@)), json::micros_in(json::part(j, 1, "usd"@))) {
            (Some(t), Some(usd)) => match json::part(j, 2, "note"@) {
                None => Some(MovementView { t, usd, note: Seq::empty() }),
                Some(Json::Text(note)) => Some(MovementView { t, usd, note: note@ }),
                _ => None,
            },
            _ => None,
        }
    } else {
        None
    }
}

fn read_movement(j: &Json) -> (r: Option<Movement>)
    ensures
        match movement_in(*j) {
            Some(v) => r matches Some(m) && m@ == v,
            None => r is None,
        },
{
    if !j.fits_in(3) {
        return None;
    }
    match (j.signed_part(0, "t"), j.micros_part(1, "usd")) {
        (Some(t), Some(usd)) => match j.part_at(2, "note") {
            None => {
                let note = String::new();
                assert(note@ =~= Seq::<char>::empty());
                Some(Movement { t, usd, note })
            },
            Some(Json::Text(note)) => Some(Movement { t, usd, note: note.clone() }),
            _ => None,
        },
        _ => None,
    }
}

proof fn row_reads_back(j: Json, m: MovementView)
    requires
        j@ == row_of(m),
        m.usd > i64::MIN,
    ensures
        movement_in(j) == Some(m),
{
    reveal_strlit("t");
    reveal_strlit("usd");
    reveal_strlit("note");
    assert("t"@.len() == 1 && "usd"@.len() == 3 && "note"@.len() == 4);
    numerals::integer_reads_back(m.t as int);
    numerals::micros_read_back(m.usd as int);
    if let Json::Fields(v) = j {
        let f = v@;
        let s = json::shown_fields(f);
        assert(s == row_of(m)->Fields_0);
        assert(s.len() == f.len());
        assert forall|k: int| 0 <= k < f.len() implies (#[trigger] f[k]).0@ == s[k].0 && f[k].1@
            == s[k].1 by {}
        assert(f[0].0@ == "t"@ && f[1].0@ == "usd"@ && f[2].0@ == "note"@);
        json::lookup_at(f, "t"@, 0);
        json::lookup_at(f, "usd"@, 1);
        json::lookup_at(f, "note"@, 2);
    }
}

impl Movement {
    /// The payment as a line of the journal.
    pub fn row(&self) -> (r: Json)
        ensures
            r@ == row_of(self@),
            self.usd > i64::MIN ==> movement_in(r) == Some(self@),
    {
        let mut f = json::no_fields();
        put(&mut f, "t", int_json(self.t as i128));
        put(&mut f, "usd", json::fixed_json(self.usd as i128, 6, 6));
        put(&mut f, "note", text_json(self.note.as_str()));
        assert(json::shown_fields(f@) =~= row_of(self@)->Fields_0);
        let r = Json::Fields(f);
        proof {
            if self.usd > i64::MIN {
                row_reads_back(r, self@);
            }
        }
        r
    }
}

/// The names of the parts of a payment.
pub open spec fn part_names() -> Seq<Seq<char>> {
    seq!["t"@, "usd"@, "note"@]
}

fn parts() -> (r: Vec<&'static str>)
    ensures
        journal::names_of(r@) == part_names(),
{
    let r: Vec<&'static str> = vec!["t", "usd", "note"];
    assert(journal::names_of(r@) =~= part_names());
    r
}

/// The payments that the documents of a journal tell of.
pub open spec fn movements_in(rows: Seq<Json>) -> Seq<MovementView>
    decreases rows.len(),
{
    if rows.len() == 0 {
        Seq::empty()
    } else {
        match movement_in(rows.last()) {
            Some(m) => movements_in(rows.drop_last()).push(m),
            None => movements_in(rows.drop_last()),
        }
    }
}

/// What was paid in, less what was paid out.
pub open spec fn net(v: Seq<MovementView>) -> int
    decreases v.len(),
{
    if v.len() == 0 {
        0
    } else {
        units::clip(net(v.drop_last()) + v.last().usd)
    }
}

/// An amount of millionths to the nearest hundredth, half away from zero.
pub open spec fn to_cents(m: int) -> int {
    if m >= 0 {
        units::clip((m + 5_000) / 10_000 * 10_000)
    } else {
        units::clip(-((-m + 5_000) / 10_000 * 10_000))
    }
}

fn cents(m: i128) -> (r: i128)
    requires
        units::in_range(m as int),
    ensures
        r == to_cents(m as int),
{
    let a: i128 = if m >= 0 {
        m
    } else {
        -m
    };
    let low: i128 = a / 10_000 * 10_000;
    let near = if a % 10_000 >= 5_000 {
        sum_of(low, 10_000)
    } else {
        low
    };
    assert(near == units::clip((a + 5_000) / 10_000 * 10_000));
    if m >= 0 {
        near
    } else {
        -near
    }
}

/// All payments.
pub struct Funding {
    pub movements: Vec<Movement>,
}

impl View for Funding {
    type V = Seq<MovementView>;

    open spec fn view(&self) -> Seq<MovementView> {
        movement_views(self.movements@)
    }
}

/// What all payments come to, to the hundredth; not known where none was declared.
pub open spec fn basis_of(v: Seq<MovementView>) -> Option<int> {
    if v.len() == 0 {
        None
    } else {
        Some(to_cents(net(v)))
    }
}

impl Funding {
    /// The payments that a file tells of; none where it cannot be read.
    pub fn open(file: &LedgerFile) -> (r: Funding)
        ensures
            r@ == (match *file {
                LedgerFile::Text(raw) => movements_in(journal::records(text::lines_of(raw@), part_names())),
                _ => Seq::empty(),
            }),
    {
        let mut r = Funding { movements: Vec::new() };
        assert(r@ =~= Seq::<MovementView>::empty());
        match file {
            LedgerFile::Text(raw) => {
                let rows = journal::read_records(raw.as_str(), parts().as_slice());
                for i in 0..rows.len()
                    invariant
                        r@ == movements_in(rows@.take(i as int)),
                {
                    assert(rows@.take(i + 1).drop_last() =~= rows@.take(i as int));
                    let ghost before = r@;
                    if let Some(m) = read_movement(&rows[i]) {
                        let ghost v = m@;
                        r.movements.push(m);
                        assert(r@ =~= before.push(v));
                    }
                }
                assert(rows@.take(rows@.len() as int) =~= rows@);
            },
            _ => {},
        }
        r
    }

    /// What all payments come to; see [`basis_of`].
    pub fn basis(&self) -> (r: Option<i128>)
        ensures
            match basis_of(self@) {
                Some(b) => r matches Some(x) && x == b,
                None => r is None,
            },
    {
        if self.movements.len() == 0 {
            return None;
        }
        let mut sum: i128 = 0;
        for i in 0..self.movements.len()
            invariant
                sum == net(self@.take(i as int)),
                units::in_range(sum as int),
        {
            assert(self@.take(i + 1).drop_last() =~= self@.take(i as int));
            sum = sum_of(sum, self.movements[i].usd as i128);
        }
        assert(self@.take(self@.len() as int) =~= self@);
        Some(cents(sum))
    }

    /// The line that has to be written before a payment counts, or why it is none: it
    /// has to be a finite amount other than zero.
    pub fn draft(usd: Reading<i64>, note: &str, now: i64) -> (r: Result<Movement, String>)
        ensures
            match usd {
                Reading::Finite(n) => if n == 0 {
                    r matches Err(e) && e@ == refusal("0"@)
                } else {
                    r matches Ok(m) && m@ == (MovementView { t: now, usd: n, note: note@ })
                },
                _ => r matches Err(e) && e@ == refusal(usd.word()),
            },
    {
        match usd {
            Reading::Finite(n) => if n == 0 {
                Err(refuse("0"))
            } else {
                Ok(Movement { t: now, usd: n, note: owned(note) })
            },
            _ => Err(refuse(usd.name())),
        }
    }

    /// Counts a payment once its line is written, and tells what all come to. A line
    /// that could not be written counts for nothing.
    pub fn record(&mut self, usd: Reading<i64>, note: &str, now: i64, write: Append) -> (r: Result<
        i128,
        String,
    >)
        ensures
            match (usd, write) {
                (Reading::Finite(n), Append::Failed(why)) => r matches Err(e) && e@ == (if n == 0 {
                    refusal("0"@)
                } else {
                    why@
                }) && final(self)@ == old(self)@,
                (Reading::Finite(n), Append::Done) => if n == 0 {
                    r matches Err(e) && e@ == refusal("0"@) && final(self)@ == old(self)@
                } else {
                    final(self)@ == old(self)@.push(MovementView { t: now, usd: n, note: note@ })
                        && (r matches Ok(b) && Some(b as int) == basis_of(final(self)@))
                },
                _ => r matches Err(e) && e@ == refusal(usd.word()) && final(self)@ == old(self)@,
            },
    {
        match Funding::draft(usd, note, now) {
            Err(e) => Err(e),
            Ok(m) => match write {
                Append::Failed(why) => Err(why),
                Append::Done => {
                    let ghost before = self@;
                    let ghost v = m@;
                    self.movements.push(m);
                    assert(self@ =~= before.push(v));
                    match self.basis() {
                        Some(b) => Ok(b),
                        None => Ok(0),
                    }
                },
            },
        }
    }

    /// All payments.
    pub fn movements(&self) -> (r: &[Movement])
        ensures
            r@ == self.movements@,
    {
        self.movements.as_slice()
    }
}

/// What is said of an amount that is no payment.
pub open spec fn refusal(amount: Seq<char>) -> Seq<char> {
    "a movement must be a non-zero finite amount, got "@ + amount
}

fn refuse(amount: &str) -> (r: String)
    ensures
        r@ == refusal(amount@),
{
    let mut s = owned("a movement must be a non-zero finite amount, got ");
    s.append(amount);
    s
}

/// What was earned on what was paid in.
pub open spec fn earned(equity: int, basis: int) -> int {
    to_cents(units::clip(equity - basis))
}

/// What was earned: what there is over what was paid in, to the hundredth; not known
/// where either is not.
pub fn physical_pnl(equity: Option<i128>, basis: Option<i128>) -> (r: Option<i128>)
    ensures
        match (equity, basis) {
            (Some(e), Some(b)) => r matches Some(x) && x == to_cents(units::clip(e - b)),
            _ => r is None,
        },
        r is Some <==> equity is Some && basis is Some,
        r matches Some(x) ==> x == earned(equity->0 as int, basis->0 as int),
{
    match (equity, basis) {
        (Some(e), Some(b)) => Some(cents(diff_of(e, b))),
        _ => None,
    }
}

/// A payment is neither profit nor loss: it moves what there is and what was paid in
/// alike.
pub proof fn payment_is_no_profit(equity: int, basis: int, paid: int)
    ensures
        to_cents(units::clip((equity + paid) - (basis + paid))) == to_cents(
            units::clip(equity - basis),
        ),
{
}

/// What is counted is what reading the journal again would count.
pub proof fn replay_agrees(rows: Seq<Json>, row: Json, m: MovementView)
    requires
        movement_in(row) == Some(m),
    ensures
        movements_in(rows.push(row)) == movements_in(rows).push(m),
{
    assert(rows.push(row).drop_last() =~= rows);
}

} // verus!
