//! Selling what a lane holds beyond what the leader's holding justifies.

use vstd::prelude::*;
use crate::firerate;
use crate::units;
use crate::units::{abs_of, max64, min64};

verus! {

/// What is to be done about one token.
#[derive(Debug, Clone, Copy, PartialEq, Eq)]
pub enum SweepAction {
    Skip { why: &'static str },
    Observe { why: &'static str, target: i64, excess: i64 },
    Sell { qty: i64, why: &'static str, dust: bool },
}

/// What is to be done about one token, as contracts speak of it.
pub enum SweepView {
    Skip { why: Seq<char> },
    Observe { why: Seq<char>, target: int, excess: int },
    Sell { qty: int, why: Seq<char>, dust: bool },
}

impl View for SweepAction {
    type V = SweepView;

    open spec fn view(&self) -> SweepView {
        match *self {
            SweepAction::Skip { why } => SweepView::Skip { why: why@ },
            SweepAction::Observe { why, target, excess } => SweepView::Observe {
                why: why@,
                target: target as int,
                excess: excess as int,
            },
            SweepAction::Sell { qty, why, dust } => SweepView::Sell {
                qty: qty as int,
                why: why@,
                dust,
            },
        }
    }
}

/// All that is known of one token. An earlier observation has an age in seconds, a
/// target and an excess. Fewer shares than `dust_shares` are dust.
#[derive(Debug, Clone, Copy, PartialEq, Eq)]
pub struct SweepInputs {
    pub owned: i64,
    pub physical: i64,
    pub leader: i64,
    pub mark: i64,
    pub redeemable: bool,
    pub just_sold: bool,
    pub proportional_target: Option<i64>,
    pub prior: Option<(u64, i64, i64)>,
    pub confirm_secs: u64,
    pub min_usd: i64,
    pub dust_shares: i64,
}

/// By how much two observations may differ and be the same, in millionths.
pub const SAME_OBSERVATION: i64 = 50_000;

/// What the lane owns of what the wallet has.
pub open spec fn available(owned: int, physical: int) -> int {
    units::smaller(units::larger(owned, 0), units::larger(physical, 0))
}

/// What is available beyond the target.
pub open spec fn excess_over(owned: int, physical: int, target: int) -> int {
    units::larger(available(owned, physical) - units::larger(target, 0), 0)
}

/// Whether two amounts are the same observation.
pub open spec fn is_same(a: int, b: int) -> bool {
    units::size_of(a - b) <= SAME_OBSERVATION
}

/// What is available beyond the target; see [`excess_over`].
pub fn excess_shares(owned: i64, physical: i64, target: i64) -> (r: i64)
    ensures
        r == excess_over(owned as int, physical as int, target as int),
{
    let have = min64(max64(owned, 0), max64(physical, 0));
    let want = max64(target, 0);
    if have > want {
        have - want
    } else {
        0
    }
}

/// Whether two amounts are the same observation.
pub fn same_observation(a: i64, b: i64) -> (r: bool)
    ensures
        r == is_same(a as int, b as int),
{
    abs_of(a as i128 - b as i128) <= SAME_OBSERVATION as i128
}

/// The observation to keep: since when the same was seen, and what is seen now.
pub open spec fn stored(
    prior: Option<(u64, i64, i64)>,
    now: u64,
    target: i64,
    excess: i64,
) -> (u64, i64, i64) {
    let since = match prior {
        Some(p) => if is_same(p.1 as int, target as int) && is_same(p.2 as int, excess as int) {
            p.0
        } else {
            now
        },
        None => now,
    };
    (since, target, excess)
}

/// What is remembered of an observation: it keeps its clock while the numbers hold.
pub fn observation_to_store(
    prior: Option<&(u64, i64, i64)>,
    now: u64,
    target: i64,
    excess: i64,
) -> (r: (u64, i64, i64))
    ensures
        r == (match prior {
            Some(p) => if is_same(p.1 as int, target as int) && is_same(p.2 as int, excess as int) {
                (p.0, target, excess)
            } else {
                (now, target, excess)
            },
            None => (now, target, excess),
        }),
        r == stored(
            match prior {
                Some(p) => Some(*p),
                None => None,
            },
            now,
            target,
            excess,
        ),
{
    match prior {
        Some(p) => if same_observation(p.1, target) && same_observation(p.2, excess) {
            (p.0, target, excess)
        } else {
            (now, target, excess)
        },
        None => (now, target, excess),
    }
}

/// The target: nothing once the leader is flat, else the proportional one.
pub open spec fn target_of(i: SweepInputs) -> Option<int> {
    if i.leader <= 0 {
        Some(0)
    } else {
        match i.proportional_target {
            Some(t) => Some(t as int),
            None => None,
        }
    }
}

/// Whether what is available lies within the tolerance of the target.
pub open spec fn tolerated(i: SweepInputs, target: int) -> bool {
    i.leader > 0 && available(i.owned as int, i.physical as int) * units::ONE <= target
        * firerate::OVERCOPY_TOLERANCE
}

/// Whether an excess is worth selling: more than a hundredth of a share, and at the
/// mark no less than the least amount.
pub open spec fn worthwhile(i: SweepInputs, excess: int) -> bool {
    excess > 10_000 && excess * i.mark >= i.min_usd * units::ONE
}

/// Whether an earlier observation of the same target and excess has aged enough.
pub open spec fn confirmed(i: SweepInputs, target: int, excess: int) -> bool {
    i.prior matches Some(p) && p.0 >= i.confirm_secs && is_same(target, p.1 as int) && is_same(
        excess,
        p.2 as int,
    )
}

/// Why an excess is sold.
pub open spec fn motive(i: SweepInputs) -> Seq<char> {
    if i.leader <= 0 {
        "leader_flat"@
    } else {
        "proportional_excess"@
    }
}

/// What is to be done about one token.
pub open spec fn decision(i: SweepInputs) -> SweepView {
    let sellable = available(i.owned as int, i.physical as int);
    if i.redeemable {
        SweepView::Skip { why: "resolved_redeem_at_par"@ }
    } else if sellable <= 0 {
        SweepView::Skip { why: "nothing_sellable"@ }
    } else if i.just_sold && sellable < i.dust_shares && i.leader <= 0 {
        SweepView::Sell { qty: sellable, why: "post_sell_dust"@, dust: true }
    } else if i.just_sold && sellable < i.dust_shares {
        SweepView::Skip { why: "dust_but_leader_mid_exit"@ }
    } else {
        match target_of(i) {
            None => SweepView::Skip { why: "no_sizing_basis"@ },
            Some(target) => {
                let excess = excess_over(i.owned as int, i.physical as int, target);
                if tolerated(i, target) {
                    SweepView::Skip { why: "within_overcopy_tolerance"@ }
                } else if !worthwhile(i, excess) {
                    SweepView::Skip { why: "excess_not_worth_selling"@ }
                } else if confirmed(i, target, excess) {
                    SweepView::Sell { qty: excess, why: motive(i), dust: false }
                } else {
                    SweepView::Observe { why: motive(i), target, excess }
                }
            },
        }
    }
}

/// What is to be done about one token; see [`decision`].
pub fn decide(i: &SweepInputs) -> (r: SweepAction)
    ensures
        r@ == decision(*i),
{
    if i.redeemable {
        return SweepAction::Skip { why: "resolved_redeem_at_par" };
    }
    let sellable = min64(max64(i.owned, 0), max64(i.physical, 0));
    if sellable <= 0 {
        return SweepAction::Skip { why: "nothing_sellable" };
    }
    let flat = i.leader <= 0;
    if i.just_sold && sellable < i.dust_shares {
        return if flat {
            SweepAction::Sell { qty: sellable, why: "post_sell_dust", dust: true }
        } else {
            SweepAction::Skip { why: "dust_but_leader_mid_exit" }
        };
    }
    let target: i64 = if flat {
        0
    } else {
        match i.proportional_target {
            Some(t) => t,
            None => {
                return SweepAction::Skip { why: "no_sizing_basis" };
            },
        }
    };
    if !flat && sellable as i128 * 1_000_000 <= target as i128
        * firerate::OVERCOPY_TOLERANCE as i128 {
        return SweepAction::Skip { why: "within_overcopy_tolerance" };
    }
    let excess = excess_shares(i.owned, i.physical, target);
    let worth = units::product(excess, i.mark);
    if excess <= 10_000 || worth < i.min_usd as i128 * 1_000_000 {
        return SweepAction::Skip { why: "excess_not_worth_selling" };
    }
    let why: &'static str = if flat {
        "leader_flat"
    } else {
        "proportional_excess"
    };
    let aged = match i.prior {
        Some(p) => p.0 >= i.confirm_secs && same_observation(target, p.1) && same_observation(
            excess,
            p.2,
        ),
        None => false,
    };
    if aged {
        SweepAction::Sell { qty: excess, why, dust: false }
    } else {
        SweepAction::Observe { why, target, excess }
    }
}

/// A sweep never sells more than the lane owns, nor more than the wallet has, and
/// never anything of a market that has resolved.
pub proof fn sale_is_bounded(i: SweepInputs)
    ensures
        decision(i) matches SweepView::Sell { qty, .. } ==> 0 < qty <= i.owned && qty <= i.physical
            && !i.redeemable,
{
}

/// Apart from dust, nothing is sold that was not seen before, long enough ago and
/// with the same numbers.
pub proof fn sale_needs_confirmation(i: SweepInputs)
    requires
        i.prior is None,
    ensures
        decision(i) matches SweepView::Sell { dust, .. } ==> dust,
{
}

/// Dust is only swept once the leader is flat.
pub proof fn dust_waits_for_the_leader(i: SweepInputs)
    requires
        i.leader > 0,
    ensures
        decision(i) matches SweepView::Sell { dust, .. } ==> !dust,
{
}

} // verus!
