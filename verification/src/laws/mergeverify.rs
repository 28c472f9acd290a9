//! When a merge is sent, and when it has happened.

use vstd::prelude::*;
use crate::mergeverify;
use crate::mergeverify::{ConfirmationView, ExecOutcome, NextAction, PreflightView};
use crate::units::Qty;

verus! {

/// What of a leg nobody else claims: no more than the chain shows, and nothing where more is
/// claimed.
pub open spec fn is_free(n: int, chain: int, claim: int) -> bool {
    if chain <= 0 || claim >= chain {
        n == 0
    } else if claim <= 0 {
        n == chain
    } else {
        n == chain - claim
    }
}

/// A merge is sent of as many pairs as are wanted and free on both sides, the least of the
/// three, and is sent exactly where that is more than dust and the market is known: two
/// outcomes, its collateral and the contract that merges.
pub proof fn as_many_pairs_are_sent_as_are_free(
    w: i64,
    chain_a: int,
    chain_b: int,
    claim_a: int,
    claim_b: int,
    outcomes: Option<usize>,
    collateral_known: bool,
    callee_known: bool,
    a: int,
    b: int,
)
    requires
        is_free(a, chain_a, claim_a),
        is_free(b, chain_b, claim_b),
    ensures
        ({
            let p = mergeverify::preflight_of(
                Qty::Finite(w),
                chain_a,
                chain_b,
                claim_a,
                claim_b,
                outcomes,
                collateral_known,
                callee_known,
            );
            &&& p is Send <==> w > 100 && a > 100 && b > 100 && outcomes == Some(2usize)
                && collateral_known && callee_known
            &&& p matches PreflightView::Send { pairs } ==> pairs <= w && pairs <= a && pairs <= b
                && (pairs == w || pairs == a || pairs == b)
        }),
{
}

/// The sides may be exchanged: what is sent does not depend on which leg is named first.
pub proof fn the_legs_may_be_exchanged(
    want: Qty,
    chain_a: int,
    chain_b: int,
    claim_a: int,
    claim_b: int,
    outcomes: Option<usize>,
    collateral_known: bool,
    callee_known: bool,
)
    ensures
        mergeverify::preflight_of(
            want,
            chain_a,
            chain_b,
            claim_a,
            claim_b,
            outcomes,
            collateral_known,
            callee_known,
        ) == mergeverify::preflight_of(
            want,
            chain_b,
            chain_a,
            claim_b,
            claim_a,
            outcomes,
            collateral_known,
            callee_known,
        ),
{
}

/// Whether two amounts are the same within a thousandth of a share.
pub open spec fn same(a: int, b: int) -> bool {
    -1_000 <= a - b <= 1_000
}

/// A merge has happened exactly where both legs fell by what was merged; it has not where
/// neither moved by more than dust. A split likewise, with the legs rising.
pub proof fn a_merge_takes_as_much_of_both(
    before_a: int,
    before_b: int,
    after_a: int,
    after_b: int,
    n: int,
)
    requires
        n > 1_100,
    ensures
        ({
            let m = mergeverify::merge_seen(before_a, before_b, after_a, after_b, n);
            let s = mergeverify::split_seen(after_a, after_b, before_a, before_b, n);
            &&& m is Confirmed <==> same(before_a - after_a, n) && same(before_b - after_b, n)
                && same(before_a - after_a, before_b - after_b)
            &&& m matches ConfirmationView::Confirmed { pairs } ==> pairs == n
            &&& m is NotApplied <==> -100 <= before_a - after_a <= 100 && -100 <= before_b
                - after_b <= 100
            &&& s is Confirmed <==> m is Confirmed
            &&& s is NotApplied <==> m is NotApplied
        }),
{
}

/// Nothing that may have moved is tried again, and nothing more than three times.
pub proof fn trying_again_is_safe(attempts: int, last: ConfirmationView)
    ensures
        !mergeverify::gives_up(attempts, last) <==> attempts < 3 && last is NotApplied,
{
}

/// Only an end without an error confirms a merge; two codes tell that it was not sent, and any
/// other end, or none, leaves it open. Only what is confirmed is booked.
pub proof fn only_a_clean_end_confirms(code: Option<i32>)
    ensures
        mergeverify::exec_of(code) == ExecOutcome::Confirmed <==> code == Some(0i32),
        mergeverify::exec_of(code) == ExecOutcome::NotSent <==> code == Some(2i32) || code == Some(
            3i32,
        ),
        mergeverify::next_of(mergeverify::exec_of(code)) == NextAction::BookThenFlattenResidual
            <==> code == Some(0i32),
{
}

/// A merge of the leader is credible where it is of no more than the leader held, and the
/// tolerance over it, in millionths.
pub proof fn a_merge_is_of_what_was_held(m: i64, h: i64, tolerance: int)
    requires
        tolerance >= 0,
    ensures
        mergeverify::is_credible(Qty::Finite(m), Some(Qty::Finite(h)), tolerance) <==> m > 0 && h
            > 0 && (m - h) * 1_000_000 <= h * tolerance,
        !mergeverify::is_credible(Qty::Finite(m), None, tolerance),
        m > 0 && h > 0 && m <= h ==> mergeverify::is_credible(
            Qty::Finite(m),
            Some(Qty::Finite(h)),
            tolerance,
        ),
{
    assert(h * (1_000_000 + tolerance) == h * 1_000_000 + h * tolerance) by (nonlinear_arith);
    if h > 0 {
        assert(h * tolerance >= 0) by (nonlinear_arith)
            requires
                h > 0,
                tolerance >= 0,
        ;
    }
}

/// A merge that is not sent may be held for later only where all that is wanting is to know the
/// collateral or the contract.
pub proof fn a_merge_is_held_until_it_is_known(
    w: i64,
    chain_a: int,
    chain_b: int,
    claim_a: int,
    claim_b: int,
    outcomes: Option<usize>,
    collateral_known: bool,
    callee_known: bool,
)
    ensures
        mergeverify::preflight_of(
            Qty::Finite(w),
            chain_a,
            chain_b,
            claim_a,
            claim_b,
            outcomes,
            collateral_known,
            callee_known,
        ) matches PreflightView::DoNotMerge { holdable, .. } ==> (holdable <==> w > 100 && outcomes
            == Some(2usize) && (!collateral_known || !callee_known)),
        mergeverify::preflight_of(
            Qty::NotFinite,
            chain_a,
            chain_b,
            claim_a,
            claim_b,
            outcomes,
            collateral_known,
            callee_known,
        ) matches PreflightView::DoNotMerge { holdable, .. } && !holdable,
{
}

} // verus!
