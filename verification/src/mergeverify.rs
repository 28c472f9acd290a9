//! Whether a merge or a split of complementary tokens may be sent, and whether it has
//! happened.

use vstd::prelude::*;
use crate::text;
use crate::text::{owned, show};
use crate::units;
use crate::units::{abs_of, diff_of, max_of, min_of, Qty};

verus! {

/// Whether a merge may be sent.
#[derive(Debug, Clone, Copy, PartialEq, Eq)]
pub enum Preflight {
    Send { pairs: i64 },
    DoNotMerge { why: &'static str, holdable: bool },
}

/// Whether a merge may be sent, as contracts speak of it.
pub enum PreflightView {
    Send { pairs: int },
    DoNotMerge { why: Seq<char>, holdable: bool },
}

impl View for Preflight {
    type V = PreflightView;

    open spec fn view(&self) -> PreflightView {
        match *self {
            Preflight::Send { pairs } => PreflightView::Send { pairs: pairs as int },
            Preflight::DoNotMerge { why, holdable } => PreflightView::DoNotMerge {
                why: why@,
                holdable,
            },
        }
    }
}

/// What the balances say of a merge or a split that was sent.
#[derive(Debug, Clone, Copy, PartialEq, Eq)]
pub enum Confirmation {
    Confirmed { pairs: i64 },
    NotApplied,
    Inconsistent { why: &'static str },
}

/// What the balances say, as contracts speak of it.
pub enum ConfirmationView {
    Confirmed { pairs: int },
    NotApplied,
    Inconsistent { why: Seq<char> },
}

impl View for Confirmation {
    type V = ConfirmationView;

    open spec fn view(&self) -> ConfirmationView {
        match *self {
            Confirmation::Confirmed { pairs } => ConfirmationView::Confirmed { pairs: pairs as int },
            Confirmation::NotApplied => ConfirmationView::NotApplied,
            Confirmation::Inconsistent { why } => ConfirmationView::Inconsistent { why: why@ },
        }
    }
}

/// No more shares than this are worth a merge, in millionths.
pub const DUST: i64 = 100;

/// By how much a balance may differ from what was expected, in millionths.
pub const CONFIRM_TOLERANCE: i64 = 1_000;

/// What of a balance no lane claims.
pub open spec fn unclaimed(chain: int, claim: int) -> int {
    units::larger(units::smaller(chain - claim, chain), 0)
}

/// Whether a merge may be sent: of something, in a market of two outcomes, with
/// collateral and callee known, and as far as both legs are there and unclaimed.
pub open spec fn preflight_of(
    want: Qty,
    chain_a: int,
    chain_b: int,
    claim_a: int,
    claim_b: int,
    outcomes: Option<usize>,
    collateral_known: bool,
    callee_known: bool,
) -> PreflightView {
    match want {
        Qty::Finite(w) => {
            let can = units::smaller(
                w as int,
                units::smaller(unclaimed(chain_a, claim_a), unclaimed(chain_b, claim_b)),
            );
            if w <= DUST {
                PreflightView::DoNotMerge { why: "nothing to merge"@, holdable: false }
            } else if outcomes is None {
                PreflightView::DoNotMerge {
                    why: "outcome count UNKNOWN — an unknown market shape is not a binary one"@,
                    holdable: false,
                }
            } else if outcomes != Some(2usize) {
                PreflightView::DoNotMerge {
                    why: "not a binary market — a [1,2] partition would be wrong here"@,
                    holdable: false,
                }
            } else if !collateral_known {
                PreflightView::DoNotMerge {
                    why: "collateral not observed — our constants are stale, so we refuse to guess"@,
                    holdable: true,
                }
            } else if !callee_known {
                PreflightView::DoNotMerge {
                    why: "merge callee not observed — the adapter set has migrated before"@,
                    holdable: true,
                }
            } else if can <= DUST {
                PreflightView::DoNotMerge {
                    why: "the wallet does not hold both legs — nothing pairs off"@,
                    holdable: false,
                }
            } else {
                PreflightView::Send { pairs: can }
            }
        },
        Qty::NotFinite => PreflightView::DoNotMerge { why: "nothing to merge"@, holdable: false },
    }
}

fn free_of(chain: i64, claim: i128) -> (r: i64)
    ensures
        r == unclaimed(chain as int, claim as int),
        r >= 0,
{
    let d = diff_of(chain as i128, claim);
    let m = min_of(d, chain as i128);
    if m > 0 {
        m as i64
    } else {
        0
    }
}

/// Whether a merge may be sent; see [`preflight_of`].
pub fn preflight(
    want_pairs: Qty,
    chain_a: i64,
    chain_b: i64,
    pool_claim_a: i128,
    pool_claim_b: i128,
    outcomes: Option<usize>,
    collateral_known: bool,
    callee_known: bool,
) -> (r: Preflight)
    ensures
        r@ == preflight_of(
            want_pairs,
            chain_a as int,
            chain_b as int,
            pool_claim_a as int,
            pool_claim_b as int,
            outcomes,
            collateral_known,
            callee_known,
        ),
{
    let want: i64 = match want_pairs {
        Qty::Finite(w) => w,
        Qty::NotFinite => 0,
    };
    if want <= DUST {
        return Preflight::DoNotMerge { why: "nothing to merge", holdable: false };
    }
    match outcomes {
        Some(n) => if n != 2 {
            return Preflight::DoNotMerge {
                why: "not a binary market — a [1,2] partition would be wrong here",
                holdable: false,
            };
        },
        None => {
            return Preflight::DoNotMerge {
                why: "outcome count UNKNOWN — an unknown market shape is not a binary one",
                holdable: false,
            };
        },
    }
    if !collateral_known {
        return Preflight::DoNotMerge {
            why: "collateral not observed — our constants are stale, so we refuse to guess",
            holdable: true,
        };
    }
    if !callee_known {
        return Preflight::DoNotMerge {
            why: "merge callee not observed — the adapter set has migrated before",
            holdable: true,
        };
    }
    let a = free_of(chain_a, pool_claim_a);
    let b = free_of(chain_b, pool_claim_b);
    let can = units::min64(want, units::min64(a, b));
    if can <= DUST {
        return Preflight::DoNotMerge {
            why: "the wallet does not hold both legs — nothing pairs off",
            holdable: false,
        };
    }
    Preflight::Send { pairs: can }
}

/// What the movements of two legs say, given by how much each should have moved.
pub open spec fn moved(
    a: int,
    b: int,
    by: int,
    backwards: Seq<char>,
    wrong: Seq<char>,
    uneven: Seq<char>,
) -> ConfirmationView {
    if units::size_of(a) <= DUST && units::size_of(b) <= DUST {
        ConfirmationView::NotApplied
    } else if a < -CONFIRM_TOLERANCE || b < -CONFIRM_TOLERANCE {
        ConfirmationView::Inconsistent { why: backwards }
    } else if units::size_of(a - by) > CONFIRM_TOLERANCE || units::size_of(b - by)
        > CONFIRM_TOLERANCE {
        ConfirmationView::Inconsistent { why: wrong }
    } else if units::size_of(a - b) > CONFIRM_TOLERANCE {
        ConfirmationView::Inconsistent { why: uneven }
    } else {
        ConfirmationView::Confirmed { pairs: by }
    }
}

fn judge(
    a: i128,
    b: i128,
    by: i64,
    backwards: &'static str,
    wrong: &'static str,
    uneven: &'static str,
) -> (r: Confirmation)
    requires
        -0x2_0000_0000_0000_0000 <= a <= 0x2_0000_0000_0000_0000,
        -0x2_0000_0000_0000_0000 <= b <= 0x2_0000_0000_0000_0000,
    ensures
        r@ == moved(a as int, b as int, by as int, backwards@, wrong@, uneven@),
{
    if abs_of(a) <= DUST as i128 && abs_of(b) <= DUST as i128 {
        return Confirmation::NotApplied;
    }
    if a < -(CONFIRM_TOLERANCE as i128) || b < -(CONFIRM_TOLERANCE as i128) {
        return Confirmation::Inconsistent { why: backwards };
    }
    if abs_of(a - by as i128) > CONFIRM_TOLERANCE as i128 || abs_of(b - by as i128)
        > CONFIRM_TOLERANCE as i128 {
        return Confirmation::Inconsistent { why: wrong };
    }
    if abs_of(a - b) > CONFIRM_TOLERANCE as i128 {
        return Confirmation::Inconsistent { why: uneven };
    }
    Confirmation::Confirmed { pairs: by }
}

/// What balances before and after tell of a merge.
pub open spec fn merge_seen(
    before_a: int,
    before_b: int,
    after_a: int,
    after_b: int,
    merged: int,
) -> ConfirmationView {
    moved(
        before_a - after_a,
        before_b - after_b,
        merged,
        "a leg GREW — this was not our merge"@,
        "the legs did not fall by the merged amount — something else moved them"@,
        "the legs fell by DIFFERENT amounts — a merge burns one of each"@,
    )
}

/// What balances before and after tell of a split.
pub open spec fn split_seen(
    before_a: int,
    before_b: int,
    after_a: int,
    after_b: int,
    minted: int,
) -> ConfirmationView {
    moved(
        after_a - before_a,
        after_b - before_b,
        minted,
        "a leg FELL — this was not our split"@,
        "the legs did not rise by the minted amount — something else moved them"@,
        "the legs rose by DIFFERENT amounts — a split mints one of each"@,
    )
}

/// What the balances say of a merge: both legs have to fall by the merged amount.
pub fn confirm(before_a: i64, before_b: i64, after_a: i64, after_b: i64, merged: i64) -> (r:
    Confirmation)
    ensures
        r@ == moved(
            before_a - after_a,
            before_b - after_b,
            merged as int,
            "a leg GREW — this was not our merge"@,
            "the legs did not fall by the merged amount — something else moved them"@,
            "the legs fell by DIFFERENT amounts — a merge burns one of each"@,
        ),
        r@ == merge_seen(before_a as int, before_b as int, after_a as int, after_b as int, merged as int),
{
    judge(
        before_a as i128 - after_a as i128,
        before_b as i128 - after_b as i128,
        merged,
        "a leg GREW — this was not our merge",
        "the legs did not fall by the merged amount — something else moved them",
        "the legs fell by DIFFERENT amounts — a merge burns one of each",
    )
}

/// What the balances say of a split: both legs have to rise by the minted amount.
pub fn confirm_split(before_a: i64, before_b: i64, after_a: i64, after_b: i64, minted: i64) -> (r:
    Confirmation)
    ensures
        r@ == moved(
            after_a - before_a,
            after_b - before_b,
            minted as int,
            "a leg FELL — this was not our split"@,
            "the legs did not rise by the minted amount — something else moved them"@,
            "the legs rose by DIFFERENT amounts — a split mints one of each"@,
        ),
        r@ == split_seen(before_a as int, before_b as int, after_a as int, after_b as int, minted as int),
{
    judge(
        after_a as i128 - before_a as i128,
        after_b as i128 - before_b as i128,
        minted,
        "a leg FELL — this was not our split",
        "the legs did not rise by the minted amount — something else moved them",
        "the legs rose by DIFFERENT amounts — a split mints one of each",
    )
}

/// Whether the leg that was not wanted may be sold: only once the split is confirmed.
pub fn may_sell_minted_leg(c: &Confirmation) -> (r: bool)
    ensures
        r == (c@ is Confirmed),
{
    match c {
        Confirmation::Confirmed { .. } => true,
        _ => false,
    }
}

/// Whether another try is safe: only where nothing happened.
pub fn may_retry(c: &Confirmation) -> (r: bool)
    ensures
        r == (c@ is NotApplied),
{
    match c {
        Confirmation::NotApplied => true,
        _ => false,
    }
}

/// How often a merge is tried.
pub const MAX_MERGE_ATTEMPTS: usize = 3;

/// Whether a merge is not tried again.
pub open spec fn gives_up(attempts: int, last: ConfirmationView) -> bool {
    attempts >= MAX_MERGE_ATTEMPTS || !(last is NotApplied)
}

/// Whether a merge is given up: after the last try, or once another is not safe.
pub fn give_up(attempts: usize, last: &Confirmation) -> (r: bool)
    ensures
        r == (attempts >= MAX_MERGE_ATTEMPTS || !(last@ is NotApplied)),
        r == gives_up(attempts as int, last@),
{
    attempts >= MAX_MERGE_ATTEMPTS || !may_retry(last)
}

/// Whether the leader can have merged this much: no more than the leader holds and the
/// tolerance. Without a known holding it is not believed.
pub open spec fn is_credible(merged: Qty, his_holding: Option<Qty>, tolerance: int) -> bool {
    match (merged, his_holding) {
        (Qty::Finite(m), Some(Qty::Finite(h))) => m > 0 && h > 0 && m * units::ONE <= h * (
        units::ONE + units::larger(tolerance, 0)),
        _ => false,
    }
}

/// Whether the leader can have merged this much; see [`is_credible`].
pub fn credible(merged: Qty, his_holding: Option<Qty>, tolerance: i64) -> (r: bool)
    ensures
        r == is_credible(merged, his_holding, tolerance as int),
{
    match (merged, his_holding) {
        (Qty::Finite(m), Some(Qty::Finite(h))) => {
            if m <= 0 || h <= 0 {
                return false;
            }
            let t: i128 = max_of(tolerance as i128, 0);
            let extra = units::product(h, t as i64);
            assert(h * (units::ONE + t) == h * units::ONE + h * t) by (nonlinear_arith)
                requires
                    units::ONE == 1_000_000,
            ;
            m as i128 * 1_000_000 <= h as i128 * 1_000_000 + extra
        },
        _ => false,
    }
}

/// The part by which a merge may exceed the leader's holding, in millionths.
pub const CREDIBILITY_TOLERANCE: i64 = 100_000;

/// What the program that sends merges reported.
#[derive(Debug, Clone, Copy, PartialEq, Eq, Structural)]
pub enum ExecOutcome {
    Confirmed,
    NotSent,
    Unknown,
}

/// What the code that a merge ended with tells.
pub open spec fn exec_of(code: Option<i32>) -> ExecOutcome {
    match code {
        Some(c) => if c == 0 {
            ExecOutcome::Confirmed
        } else if c == 2 || c == 3 {
            ExecOutcome::NotSent
        } else {
            ExecOutcome::Unknown
        },
        None => ExecOutcome::Unknown,
    }
}

/// What is done when a merge has ended.
pub open spec fn next_of(o: ExecOutcome) -> NextAction {
    if o == ExecOutcome::Confirmed {
        NextAction::BookThenFlattenResidual
    } else {
        NextAction::HoldPairAndAlarm
    }
}

/// What an exit code means: zero is done, two and three were never sent, anything else
/// says nothing.
pub fn classify_exec(code: Option<i32>) -> (r: ExecOutcome)
    ensures
        r == (match code {
            Some(c) => if c == 0 {
                ExecOutcome::Confirmed
            } else if c == 2 || c == 3 {
                ExecOutcome::NotSent
            } else {
                ExecOutcome::Unknown
            },
            None => ExecOutcome::Unknown,
        }),
        r == exec_of(code),
{
    match code {
        Some(c) => if c == 0 {
            ExecOutcome::Confirmed
        } else if c == 2 || c == 3 {
            ExecOutcome::NotSent
        } else {
            ExecOutcome::Unknown
        },
        None => ExecOutcome::Unknown,
    }
}

/// What is done next.
#[derive(Debug, Clone, Copy, PartialEq, Eq, Structural)]
pub enum NextAction {
    BookThenFlattenResidual,
    HoldPairAndAlarm,
}

/// What is done next: only a confirmed merge is booked; otherwise the pair is held.
pub fn after_exec(o: &ExecOutcome) -> (r: NextAction)
    ensures
        r == (if *o == ExecOutcome::Confirmed {
            NextAction::BookThenFlattenResidual
        } else {
            NextAction::HoldPairAndAlarm
        }),
        r == next_of(*o),
{
    match o {
        ExecOutcome::Confirmed => NextAction::BookThenFlattenResidual,
        _ => NextAction::HoldPairAndAlarm,
    }
}

/// What is said of trying again.
pub open spec fn retry_advice(o: ExecOutcome) -> Seq<char> {
    if o == ExecOutcome::NotSent {
        "The merge provably did not happen, so it is safe to try again later."@
    } else {
        "The merge outcome is UNKNOWN — it may yet land, so it must NOT be retried until the chain is re-read."@
    }
}

/// What an operator is told of a merge that did not complete.
pub fn alarm_text(o: &ExecOutcome, pairs: i64, condition: &str) -> (r: String)
    ensures
        r@ == "MERGE DID NOT COMPLETE on …"@ + text::ending(condition@, 10) + ": "@
            + text::fixed(pairs as int, 6, 4) + " pair(s) are still held. "@ + retry_advice(*o)
            + " NOTHING IS AT DIRECTIONAL RISK — a YES+NO pair settles at $1 whatever the market does, so the position is dormant capital, not exposure. ⛔ DO NOT SELL ONE LEG: selling is two orders that can half-succeed, and a single leg IS directional risk. Merge it or leave it."@,
{
    let retry: &str = match o {
        ExecOutcome::NotSent =>
            "The merge provably did not happen, so it is safe to try again later.",
        _ =>
            "The merge outcome is UNKNOWN — it may yet land, so it must NOT be retried until the chain is re-read.",
    };
    let mut s = owned("MERGE DID NOT COMPLETE on …");
    s.append(text::tail(condition, 10).as_str());
    s.append(": ");
    s.append(show(pairs as i128, 6, 4).as_str());
    s.append(" pair(s) are still held. ");
    s.append(retry);
    s.append(
        " NOTHING IS AT DIRECTIONAL RISK — a YES+NO pair settles at $1 whatever the market does, so the position is dormant capital, not exposure. ⛔ DO NOT SELL ONE LEG: selling is two orders that can half-succeed, and a single leg IS directional risk. Merge it or leave it.",
    );
    s
}

/// After how many seconds the program that sends merges is stopped.
pub const EXEC_KILL_SECS: u64 = 210;

/// A merge that is sent never takes more pairs than were wanted, nor more of either leg
/// than the wallet holds.
pub proof fn merge_is_covered(
    want: Qty,
    chain_a: int,
    chain_b: int,
    claim_a: int,
    claim_b: int,
    outcomes: Option<usize>,
    collateral_known: bool,
    callee_known: bool,
)
    ensures
        preflight_of(
            want,
            chain_a,
            chain_b,
            claim_a,
            claim_b,
            outcomes,
            collateral_known,
            callee_known,
        ) matches PreflightView::Send { pairs } ==> DUST < pairs <= chain_a && pairs <= chain_b && (
        want matches Qty::Finite(w) && pairs <= w) && outcomes == Some(2usize) && collateral_known
            && callee_known,
{
}

/// Nothing is tried again unless nothing happened: a merge whose balances moved at all
/// is never retried.
pub proof fn movement_forbids_retry(
    a: int,
    b: int,
    by: int,
    backwards: Seq<char>,
    wrong: Seq<char>,
    uneven: Seq<char>,
)
    requires
        units::size_of(a) > DUST || units::size_of(b) > DUST,
    ensures
        !(moved(a, b, by, backwards, wrong, uneven) is NotApplied),
{
}

} // verus!
