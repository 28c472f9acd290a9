//! How the model of the leader's holdings follows the venue.

use vstd::prelude::*;
use crate::reanchor;
use crate::reanchor::{Move, Refusal};
use crate::units::Qty;

verus! {

/// Two holdings agree where they differ by no more than half of a hundredth of the larger, or
/// of one share where both are smaller.
pub proof fn agreement_is_within_half_a_percent(a: int, b: int)
    requires
        a >= 0,
        b >= 0,
    ensures
        reanchor::agrees(a, b) == reanchor::agrees(b, a),
        a >= b && a >= 1_000_000 ==> (reanchor::agrees(a, b) <==> 200 * (a - b) <= a),
        a <= 1_000_000 && b <= 1_000_000 && a >= b ==> (reanchor::agrees(a, b) <==> a - b <= 5_000),
{
}

/// A model goes to what the venue shows or stays: up where the venue shows more, and down
/// only where we hold nothing.
pub proof fn a_model_goes_to_what_is_shown(m: i64, v: i64, h: i64)
    ensures
        ({
            let d = reanchor::decided(m, v, h);
            &&& d matches Move::Raise { from, to } ==> from == m && to == v && v > m
            &&& d matches Move::Lower { from, to } ==> from == m && to == v && v < m && h <= 0
            &&& d is Raise <==> v > m && !reanchor::agrees(m as int, v as int) && (h <= 0 || v
                > 1_000_000)
            &&& d is Lower <==> v < m && !reanchor::agrees(m as int, v as int) && h <= 0
            &&& d == Move::Agrees <==> reanchor::agrees(m as int, v as int) && (h <= 0 || v
                > 1_000_000)
            &&& d == Move::Refused(Refusal::WouldZeroAHeldPosition) <==> h > 0 && v <= 1_000_000
            &&& d == Move::Refused(Refusal::WouldShrinkAHeldPosition) <==> h > 0 && v > 1_000_000
                && v < m && !reanchor::agrees(m as int, v as int)
        }),
{
}

/// A reading that is not whole moves nothing, and neither does what is not a number; a token
/// that the venue does not show counts as none of it.
pub proof fn what_is_not_read_moves_nothing(m: Qty, v: Option<Qty>, h: Qty, complete: bool)
    ensures
        !complete <==> reanchor::decision(m, v, h, complete) == Move::Refused(
            Refusal::IncompleteRead,
        ),
        complete && (m == Qty::NotFinite || h == Qty::NotFinite || v == Some(Qty::NotFinite))
            <==> reanchor::decision(m, v, h, complete) == Move::Refused(Refusal::NotANumber),
        reanchor::decision(m, None, h, complete) == reanchor::decision(
            m,
            Some(Qty::Finite(0)),
            h,
            complete,
        ),
{
}

/// The shares that the raises add, summed.
pub open spec fn raised_by(
    modelled: Map<Seq<char>, Qty>,
    venue: Map<Seq<char>, Qty>,
    held: Map<Seq<char>, Qty>,
    tokens: Seq<Seq<char>>,
) -> int
    decreases tokens.len(),
{
    if tokens.len() == 0 {
        0
    } else {
        raised_by(modelled, venue, held, tokens.drop_last()) + (match reanchor::move_of(
            modelled,
            venue,
            held,
            true,
            tokens.last(),
        ) {
            Move::Raise { from, to } => to - from,
            _ => 0,
        })
    }
}

/// Every token is reported once: raised, lowered, agreed or refused; as many are written as
/// were raised or lowered; and the shares that are reported are those that the raises add.
pub proof fn every_token_is_reported_once(
    modelled: Map<Seq<char>, Qty>,
    venue: Map<Seq<char>, Qty>,
    held: Map<Seq<char>, Qty>,
    tokens: Seq<Seq<char>>,
)
    requires
        tokens.len() < 1_000_000_000_000,
    ensures
        ({
            let r = reanchor::report(modelled, venue, held, true, tokens);
            &&& r.0 + r.1 + r.2 + r.3 == tokens.len()
            &&& r.0 >= 0 && r.1 >= 0 && r.2 >= 0 && r.3 >= 0
            &&& r.0 + r.1 == reanchor::writes(modelled, venue, held, true, tokens).len()
            &&& 0 <= r.4 <= r.0
            &&& r.5 == raised_by(modelled, venue, held, tokens)
            &&& 0 <= r.5 <= tokens.len() * 0x1_0000_0000_0000_0000
        }),
    decreases tokens.len(),
{
    if tokens.len() > 0 {
        every_token_is_reported_once(modelled, venue, held, tokens.drop_last());
    }
}

/// What is written of a token is what the venue shows of it, where its model moves; of any
/// other nothing is.
pub proof fn what_is_written_is_what_is_shown(
    modelled: Map<Seq<char>, Qty>,
    venue: Map<Seq<char>, Qty>,
    held: Map<Seq<char>, Qty>,
    tokens: Seq<Seq<char>>,
    k: int,
)
    requires
        0 <= k < reanchor::writes(modelled, venue, held, true, tokens).len(),
    ensures
        ({
            let w = reanchor::writes(modelled, venue, held, true, tokens)[k];
            &&& tokens.contains(w.0)
            &&& reanchor::entry(venue, w.0) == Qty::Finite(w.1)
            &&& reanchor::entry(modelled, w.0) != Qty::Finite(w.1)
        }),
    decreases tokens.len(),
{
    let before = tokens.drop_last();
    let had = reanchor::writes(modelled, venue, held, true, before);
    let all = reanchor::writes(modelled, venue, held, true, tokens);
    if k < had.len() {
        what_is_written_is_what_is_shown(modelled, venue, held, before, k);
        assert(all[k] == had[k]);
        let i = choose|i: int| 0 <= i < before.len() && before[i] == all[k].0;
        assert(tokens[i] == all[k].0);
    } else {
        assert(tokens[tokens.len() - 1] == tokens.last());
    }
}

/// How many tokens that we hold are raised from nothing.
pub open spec fn raised_from_nothing(
    modelled: Map<Seq<char>, Qty>,
    venue: Map<Seq<char>, Qty>,
    held: Map<Seq<char>, Qty>,
    tokens: Seq<Seq<char>>,
) -> int
    decreases tokens.len(),
{
    if tokens.len() == 0 {
        0
    } else {
        let t = tokens.last();
        let m = reanchor::entry(modelled, t);
        let h = reanchor::entry(held, t);
        raised_from_nothing(modelled, venue, held, tokens.drop_last()) + (
        if reanchor::move_of(modelled, venue, held, true, t) is Raise && (m matches Qty::Finite(x)
            && x <= 0) && (h matches Qty::Finite(y) && y > 0) {
            1int
        } else {
            0
        })
    }
}

/// What is reported as disarmed is what we hold and was modelled as nothing, and is raised.
pub proof fn what_is_disarmed_was_nothing(
    modelled: Map<Seq<char>, Qty>,
    venue: Map<Seq<char>, Qty>,
    held: Map<Seq<char>, Qty>,
    tokens: Seq<Seq<char>>,
)
    ensures
        reanchor::report(modelled, venue, held, true, tokens).4 == raised_from_nothing(
            modelled,
            venue,
            held,
            tokens,
        ),
    decreases tokens.len(),
{
    if tokens.len() > 0 {
        what_is_disarmed_was_nothing(modelled, venue, held, tokens.drop_last());
    }
}

} // verus!
