//! Bringing the model of the leader's holdings in line with what the venue shows. A
//! model that is too high makes our exits smaller; one that is too low makes them
//! larger, so a position we hold is never lowered.

use vstd::prelude::*;
use crate::sorting;
use crate::table::Table;
use crate::text;
use crate::units;
use crate::units::{abs_of, max_of, sum_of, Qty};

verus! {

/// What is to be done with the model of one token.
#[derive(Debug, Clone, Copy, PartialEq, Eq, Structural)]
pub enum Move {
    Raise { from: i64, to: i64 },
    Lower { from: i64, to: i64 },
    Agrees,
    Refused(Refusal),
}

/// Why the model is left as it is.
#[derive(Debug, Clone, Copy, PartialEq, Eq, Structural)]
pub enum Refusal {
    IncompleteRead,
    WouldZeroAHeldPosition,
    WouldShrinkAHeldPosition,
    NotANumber,
}

/// The reason in words.
pub open spec fn reason(r: Refusal) -> Seq<char> {
    match r {
        Refusal::IncompleteRead => "venue read incomplete — absence proves nothing"@,
        Refusal::WouldZeroAHeldPosition =>
            "venue shows none of a position we hold; zeroing it would arm frac=1.0 on the next trim — that decision belongs to the orphan sweep"@,
        Refusal::WouldShrinkAHeldPosition =>
            "venue shows less than we modelled on a position we hold; lowering it makes the next exit larger, which is the direction that oversells"@,
        Refusal::NotANumber => "non-finite share count"@,
    }
}

impl Refusal {
    /// The reason in words.
    pub fn why(&self) -> (r: &'static str)
        ensures
            r@ == reason(*self),
    {
        match self {
            Refusal::IncompleteRead => "venue read incomplete — absence proves nothing",
            Refusal::WouldZeroAHeldPosition =>
                "venue shows none of a position we hold; zeroing it would arm frac=1.0 on the next trim — that decision belongs to the orphan sweep",
            Refusal::WouldShrinkAHeldPosition =>
                "venue shows less than we modelled on a position we hold; lowering it makes the next exit larger, which is the direction that oversells",
            Refusal::NotANumber => "non-finite share count",
        }
    }
}

/// The part of a position by which model and venue may differ, in millionths.
pub const TOLERANCE: i64 = 5_000;

/// No more shares than this count as none, in millionths.
pub const MIN_SHARES: i64 = 1_000_000;

/// Whether model and venue agree within the tolerance.
pub open spec fn agrees(modelled: int, venue: int) -> bool {
    units::size_of(venue - modelled) * units::ONE <= TOLERANCE * units::larger(
        units::larger(units::size_of(modelled), units::size_of(venue)),
        units::ONE as int,
    )
}

/// What is to be done with finite readings of a complete picture. A token that the
/// venue does not show is one it shows none of.
pub open spec fn decided(modelled: i64, venue: i64, we_hold: i64) -> Move {
    if venue <= MIN_SHARES && we_hold > 0 {
        Move::Refused(Refusal::WouldZeroAHeldPosition)
    } else if agrees(modelled as int, venue as int) {
        Move::Agrees
    } else if venue > modelled {
        Move::Raise { from: modelled, to: venue }
    } else if we_hold > 0 {
        Move::Refused(Refusal::WouldShrinkAHeldPosition)
    } else {
        Move::Lower { from: modelled, to: venue }
    }
}

/// What is to be done with the model of one token.
pub open spec fn decision(
    modelled: Qty,
    venue: Option<Qty>,
    we_hold: Qty,
    complete: bool,
) -> Move {
    if !complete {
        Move::Refused(Refusal::IncompleteRead)
    } else {
        match (modelled, venue, we_hold) {
            (Qty::Finite(m), Some(Qty::Finite(v)), Qty::Finite(h)) => decided(m, v, h),
            (Qty::Finite(m), None, Qty::Finite(h)) => decided(m, 0, h),
            _ => Move::Refused(Refusal::NotANumber),
        }
    }
}

fn agree(m: i64, v: i64) -> (r: bool)
    ensures
        r == agrees(m as int, v as int),
{
    let d = abs_of(v as i128 - m as i128);
    let bar = max_of(max_of(abs_of(m as i128), abs_of(v as i128)), 1_000_000);
    d * 1_000_000 <= 5_000 * bar
}

/// What is to be done with the model of one token; see [`decision`].
pub fn decide(modelled: Qty, venue: Option<Qty>, we_hold: Qty, complete: bool) -> (r: Move)
    ensures
        r == decision(modelled, venue, we_hold, complete),
{
    if !complete {
        return Move::Refused(Refusal::IncompleteRead);
    }
    let (m, v, h) = match (modelled, venue, we_hold) {
        (Qty::Finite(m), Some(Qty::Finite(v)), Qty::Finite(h)) => (m, v, h),
        (Qty::Finite(m), None, Qty::Finite(h)) => (m, 0, h),
        _ => {
            return Move::Refused(Refusal::NotANumber);
        },
    };
    if v <= MIN_SHARES && h > 0 {
        return Move::Refused(Refusal::WouldZeroAHeldPosition);
    }
    if agree(m, v) {
        return Move::Agrees;
    }
    if v > m {
        return Move::Raise { from: m, to: v };
    }
    if h > 0 {
        return Move::Refused(Refusal::WouldShrinkAHeldPosition);
    }
    Move::Lower { from: m, to: v }
}

/// How a pass over all tokens came out.
#[derive(Debug, Clone, Copy, PartialEq, Eq, Structural)]
pub struct Report {
    pub raised: usize,
    pub lowered: usize,
    pub agreed: usize,
    pub refused: usize,
    pub disarmed_zeros: usize,
    pub shares_raised: i128,
}

/// A pass that has seen nothing.
pub open spec fn no_report() -> Report {
    Report { raised: 0, lowered: 0, agreed: 0, refused: 0, disarmed_zeros: 0, shares_raised: 0 }
}

impl Default for Report {
    fn default() -> (r: Self)
        ensures
            r == no_report(),
    {
        Report { raised: 0, lowered: 0, agreed: 0, refused: 0, disarmed_zeros: 0, shares_raised: 0 }
    }
}

/// The entry of a token, or nothing held.
pub open spec fn entry(m: Map<Seq<char>, Qty>, t: Seq<char>) -> Qty {
    if m.contains_key(t) {
        m[t]
    } else {
        Qty::Finite(0)
    }
}

/// What is to be done with a token.
pub open spec fn move_of(
    modelled: Map<Seq<char>, Qty>,
    venue: Map<Seq<char>, Qty>,
    held: Map<Seq<char>, Qty>,
    complete: bool,
    t: Seq<char>,
) -> Move {
    decision(
        entry(modelled, t),
        if venue.contains_key(t) {
            Some(venue[t])
        } else {
            None
        },
        entry(held, t),
        complete,
    )
}

/// The writes of a pass: the new value of each token that moves.
pub open spec fn writes(
    modelled: Map<Seq<char>, Qty>,
    venue: Map<Seq<char>, Qty>,
    held: Map<Seq<char>, Qty>,
    complete: bool,
    tokens: Seq<Seq<char>>,
) -> Seq<(Seq<char>, i64)>
    decreases tokens.len(),
{
    if tokens.len() == 0 {
        Seq::empty()
    } else {
        let before = writes(modelled, venue, held, complete, tokens.drop_last());
        match move_of(modelled, venue, held, complete, tokens.last()) {
            Move::Raise { to, .. } => before.push((tokens.last(), to)),
            Move::Lower { to, .. } => before.push((tokens.last(), to)),
            _ => before,
        }
    }
}

/// The report of a pass.
pub open spec fn report(
    modelled: Map<Seq<char>, Qty>,
    venue: Map<Seq<char>, Qty>,
    held: Map<Seq<char>, Qty>,
    complete: bool,
    tokens: Seq<Seq<char>>,
) -> (int, int, int, int, int, int)
    decreases tokens.len(),
{
    if tokens.len() == 0 {
        (0, 0, 0, 0, 0, 0)
    } else {
        let (raised, lowered, agreed, refused, zeros, shares) = report(
            modelled,
            venue,
            held,
            complete,
            tokens.drop_last(),
        );
        match move_of(modelled, venue, held, complete, tokens.last()) {
            Move::Raise { from, to } => (
                raised + 1,
                lowered,
                agreed,
                refused,
                zeros + (if from <= 0 && (entry(held, tokens.last()) matches Qty::Finite(h) && h
                    > 0) {
                    1int
                } else {
                    0
                }),
                units::clip(shares + (to - from)),
            ),
            Move::Lower { .. } => (raised, lowered + 1, agreed, refused, zeros, shares),
            Move::Agrees => (raised, lowered, agreed + 1, refused, zeros, shares),
            Move::Refused(_) => (raised, lowered, agreed, refused + 1, zeros, shares),
        }
    }
}

/// Whether a report states these numbers.
pub open spec fn reports(r: Report, n: (int, int, int, int, int, int)) -> bool {
    r.raised == n.0 && r.lowered == n.1 && r.agreed == n.2 && r.refused == n.3 && r.disarmed_zeros
        == n.4 && r.shares_raised == n.5
}

/// Whether these are the tokens of model and venue, in order.
pub open spec fn all_tokens(
    modelled: Map<Seq<char>, Qty>,
    venue: Map<Seq<char>, Qty>,
    tokens: Seq<Seq<char>>,
) -> bool {
    &&& sorting::in_order(tokens)
    &&& forall|t: Seq<char>| #[trigger]
        tokens.contains(t) == (modelled.contains_key(t) || venue.contains_key(t))
}

/// The contents of a list of writes.
pub open spec fn written(v: Seq<(String, i64)>) -> Seq<(Seq<char>, i64)> {
    v.map_values(|e: (String, i64)| (e.0@, e.1))
}

fn push_keys(t: &Table<String, Qty>, out: &mut Vec<String>)
    ensures
        text::texts(final(out)@) == text::texts(old(out)@) + t.keys(),
        t.aligned(),
{
    let n = t.len();
    let ghost start = text::texts(out@);
    let ghost keys = t.keys();
    for i in 0..n
        invariant
            n == keys.len(),
            keys == t.keys(),
            text::texts(out@) == start + keys.take(i as int),
    {
        let ghost before = text::texts(out@);
        out.push(t.key_at(i).clone());
        assert(text::texts(out@) =~= before.push(keys[i as int]));
        assert(start + keys.take(i + 1) =~= (start + keys.take(i as int)).push(keys[i as int]));
    }
    assert(start + keys.take(keys.len() as int) =~= start + keys);
}

fn tokens_of(modelled: &Table<String, Qty>, venue: &Table<String, Qty>) -> (r: Vec<String>)
    ensures
        all_tokens(modelled@, venue@, text::texts(r@)),
{
    let mut names: Vec<String> = Vec::new();
    push_keys(modelled, &mut names);
    push_keys(venue, &mut names);
    let r = sorting::distinct_in_order(names.as_slice());
    proof {
        let a = text::texts(names@);
        let km = modelled.keys();
        let kv = venue.keys();
        assert(a =~= km + kv);
        assert forall|t: Seq<char>| #[trigger]
            text::texts(r@).contains(t) == (modelled@.contains_key(t) || venue@.contains_key(t)) by {
            assert(text::texts(r@).contains(t) == a.contains(t));
            if a.contains(t) {
                let i = a.index_of(t);
                if i < km.len() {
                    assert(km[i] == t);
                    assert(modelled@.contains_key(km[i]));
                } else {
                    assert(kv[i - km.len()] == t);
                    assert(venue@.contains_key(kv[i - km.len()]));
                }
            }
            if modelled@.contains_key(t) {
                let i = km.index_of(t);
                assert(a[i] == t);
            }
            if venue@.contains_key(t) {
                let i = kv.index_of(t);
                assert(a[km.len() + i] == t);
            }
        }
    }
    r
}

fn entry_of(m: &Table<String, Qty>, t: &String) -> (r: Qty)
    ensures
        r == entry(m@, t@),
{
    match m.get(t) {
        Some(q) => *q,
        None => Qty::Finite(0),
    }
}

/// One pass over all tokens of model and venue, in order: the writes that bring the
/// model in line, and how the pass came out.
pub fn plan(
    modelled: &Table<String, Qty>,
    venue: &Table<String, Qty>,
    held: &Table<String, Qty>,
    complete: bool,
) -> (r: (Vec<(String, i64)>, Report))
    ensures
        exists|tokens: Seq<Seq<char>>| #[trigger]
            all_tokens(modelled@, venue@, tokens) && written(r.0@) == writes(
                modelled@,
                venue@,
                held@,
                complete,
                tokens,
            ) && reports(r.1, report(modelled@, venue@, held@, complete, tokens)),
{
    let tokens = tokens_of(modelled, venue);
    let ghost all = text::texts(tokens@);
    let mut out: Vec<(String, i64)> = Vec::new();
    let mut r = Report::default();
    assert(written(out@) =~= Seq::<(Seq<char>, i64)>::empty());
    for i in 0..tokens.len()
        invariant
            all == text::texts(tokens@),
            written(out@) == writes(modelled@, venue@, held@, complete, all.take(i as int)),
            reports(r, report(modelled@, venue@, held@, complete, all.take(i as int))),
            r.raised + r.lowered + r.agreed + r.refused == i,
            r.disarmed_zeros <= r.raised,
    {
        assert(i < usize::MAX);
        let t = &tokens[i];
        assert(all.take(i + 1).drop_last() =~= all.take(i as int));
        assert(all.take(i + 1).last() == t@);
        let m = entry_of(modelled, t);
        let v = match venue.get(t) {
            Some(q) => Some(*q),
            None => None,
        };
        let h = entry_of(held, t);
        let ghost before = written(out@);
        match decide(m, v, h, complete) {
            Move::Raise { from, to } => {
                r.raised = r.raised + 1;
                r.shares_raised = sum_of(r.shares_raised, to as i128 - from as i128);
                let holds = match h {
                    Qty::Finite(n) => n > 0,
                    Qty::NotFinite => false,
                };
                if from <= 0 && holds {
                    r.disarmed_zeros = r.disarmed_zeros + 1;
                }
                out.push((t.clone(), to));
                assert(written(out@) =~= before.push((t@, to)));
            },
            Move::Lower { from: _, to } => {
                r.lowered = r.lowered + 1;
                out.push((t.clone(), to));
                assert(written(out@) =~= before.push((t@, to)));
            },
            Move::Agrees => {
                r.agreed = r.agreed + 1;
            },
            Move::Refused(_) => {
                r.refused = r.refused + 1;
            },
        }
    }
    assert(all.take(all.len() as int) =~= all);
    assert(all_tokens(modelled@, venue@, all));
    (out, r)
}

/// A write to a token that we hold never lowers its model, so it never makes the next
/// exit larger.
pub proof fn held_positions_never_shrink(modelled: Qty, venue: Option<Qty>, we_hold: Qty, complete: bool)
    requires
        we_hold matches Qty::Finite(h) && h > 0,
    ensures
        !(decision(modelled, venue, we_hold, complete) is Lower),
        decision(modelled, venue, we_hold, complete) matches Move::Raise { from, to } ==> to > from
            && to > MIN_SHARES,
{
}

/// An incomplete picture writes nothing.
pub proof fn incomplete_read_writes_nothing(
    modelled: Map<Seq<char>, Qty>,
    venue: Map<Seq<char>, Qty>,
    held: Map<Seq<char>, Qty>,
    tokens: Seq<Seq<char>>,
)
    ensures
        writes(modelled, venue, held, false, tokens) == Seq::<(Seq<char>, i64)>::empty(),
    decreases tokens.len(),
{
    if tokens.len() > 0 {
        incomplete_read_writes_nothing(modelled, venue, held, tokens.drop_last());
    }
}

/// A second pass after the writes of the first has nothing left to do: a token that
/// moved agrees from then on.
pub proof fn second_pass_agrees(modelled: Qty, venue: Option<Qty>, we_hold: Qty, complete: bool)
    ensures
        decision(modelled, venue, we_hold, complete) matches Move::Raise { to, .. } ==> decision(
            Qty::Finite(to),
            venue,
            we_hold,
            complete,
        ) == Move::Agrees,
        decision(modelled, venue, we_hold, complete) matches Move::Lower { to, .. } ==> decision(
            Qty::Finite(to),
            venue,
            we_hold,
            complete,
        ) == Move::Agrees,
{
}

} // verus!
