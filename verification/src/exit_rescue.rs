//! Selling again after a sale was refused.

use vstd::prelude::*;
use crate::text;
use crate::text::{contains, lower_chars};
use crate::units;
use crate::units::{max64, min64};

verus! {

/// Why a sale failed.
#[derive(Debug, Clone, Copy, PartialEq, Eq, Structural)]
pub enum Failure {
    NoMatch,
    NotEnoughBalance,
    Transient,
    Stable,
}

/// Why a sale failed, by what the answer says in any letter case. What is not
/// recognised is stable.
pub open spec fn failure_of(body: Seq<char>) -> Failure {
    let b = text::lower_of(body);
    if text::occurs(b, "not enough balance"@) || text::occurs(b, "allowance"@) {
        Failure::NotEnoughBalance
    } else if text::occurs(b, "no orders found to match"@) || text::occurs(b, "fak"@) {
        Failure::NoMatch
    } else if text::occurs(b, "transport_error"@) || text::occurs(b, "timeout"@) || text::occurs(
        b,
        "502 bad gateway"@,
    ) || text::occurs(b, "503 service"@) || text::occurs(b, "504 gateway"@) {
        Failure::Transient
    } else {
        Failure::Stable
    }
}

/// Why a sale failed; see [`failure_of`].
pub fn classify(body: &str) -> (r: Failure)
    ensures
        r == failure_of(body@),
{
    let b = lower_chars(body);
    if contains(&b, "not enough balance") || contains(&b, "allowance") {
        return Failure::NotEnoughBalance;
    }
    if contains(&b, "no orders found to match") || contains(&b, "fak") {
        return Failure::NoMatch;
    }
    if contains(&b, "transport_error") || contains(&b, "timeout") || contains(
        &b,
        "502 bad gateway",
    ) || contains(&b, "503 service") || contains(&b, "504 gateway") {
        return Failure::Transient;
    }
    Failure::Stable
}

/// The balance that a refusal names, in millionths: the digits after the first
/// `balance:`, past any space.
pub open spec fn balance_in(body: Seq<char>) -> Option<int> {
    let b = text::lower_of(body);
    let n = "balance:"@;
    if !text::occurs(b, n) {
        None
    } else {
        units::count_of(text::trim_front(b.skip(text::first_at(b, n) + n.len())))
    }
}

/// The balance that a refusal names; see [`balance_in`].
pub fn reported_balance(body: &str) -> (r: Option<i64>)
    ensures
        match balance_in(body@) {
            Some(n) => r matches Some(m) && m == n,
            None => r is None,
        },
{
    let b = lower_chars(body);
    let n = text::chars_of("balance:");
    match text::find(&b, &n) {
        Some(i) => {
            assert(text::stands_at(b@, n@, i as int));
            proof {
                text::first_is_unique(b@, n@, i as int);
            }
            let end = b.len();
            let rest = text::slice_of(&b, i + n.len(), end);
            assert(rest@ =~= b@.skip(i + n@.len()));
            units::read_count(&text::trim_start(&rest))
        },
        None => None,
    }
}

/// How often a sale is tried at the fast pace.
pub const FAST_ATTEMPTS: usize = 20;

/// The fast pace, in milliseconds.
pub const FAST_DELAY: u64 = 250;

/// How often a sale is then tried at the medium pace.
pub const MED_ATTEMPTS: usize = 20;

/// The medium pace, in milliseconds.
pub const MED_DELAY: u64 = 500;

/// The slow pace, in milliseconds.
pub const SLOW_DELAY: u64 = 1_000;

/// How often a sale is tried.
pub const MAX_ATTEMPTS: usize = 60;

/// How often a sale is tried when the balance does not suffice.
pub const MAX_BALANCE_ATTEMPTS: usize = 3;

/// After how many milliseconds everything is sold.
pub const FALLBACK_AFTER: u64 = 15_000;

/// After how many milliseconds a sale is given up.
pub const GIVE_UP_AFTER: u64 = 60_000;

/// The next try: after how many milliseconds, and of how much.
#[derive(Debug, Clone, Copy, PartialEq, Eq, Structural)]
pub struct Step {
    pub delay: u64,
    pub sell_all: bool,
}

/// How long to wait before a try.
pub open spec fn pace(attempt: int) -> u64 {
    if attempt < FAST_ATTEMPTS {
        FAST_DELAY
    } else if attempt < FAST_ATTEMPTS + MED_ATTEMPTS {
        MED_DELAY
    } else {
        SLOW_DELAY
    }
}

/// The next try, or none: a stable failure is final, and every ladder is bounded in
/// tries and in time. Silence never changes what is sold; a balance that does not
/// suffice changes it at once, a lack of buyers after a while.
pub open spec fn step_after(f: Failure, attempt: int, elapsed: int) -> Option<Step> {
    let most = if f == Failure::NotEnoughBalance {
        MAX_BALANCE_ATTEMPTS
    } else {
        MAX_ATTEMPTS
    };
    if f == Failure::Stable || elapsed >= GIVE_UP_AFTER || attempt >= most {
        None
    } else {
        Some(
            Step {
                delay: if f == Failure::NotEnoughBalance {
                    FAST_DELAY
                } else {
                    pace(attempt)
                },
                sell_all: f == Failure::NotEnoughBalance || (f == Failure::NoMatch && elapsed
                    >= FALLBACK_AFTER),
            },
        )
    }
}

/// The next try, `elapsed` milliseconds after the first; see [`step_after`].
pub fn next_step(f: Failure, attempt: usize, elapsed: u64) -> (r: Option<Step>)
    ensures
        r == step_after(f, attempt as int, elapsed as int),
{
    match f {
        Failure::Stable => None,
        Failure::Transient => {
            if elapsed >= GIVE_UP_AFTER || attempt >= MAX_ATTEMPTS {
                return None;
            }
            Some(Step { delay: pace_of(attempt), sell_all: false })
        },
        Failure::NotEnoughBalance => {
            if elapsed >= GIVE_UP_AFTER || attempt >= MAX_BALANCE_ATTEMPTS {
                return None;
            }
            Some(Step { delay: FAST_DELAY, sell_all: true })
        },
        Failure::NoMatch => {
            if elapsed >= GIVE_UP_AFTER || attempt >= MAX_ATTEMPTS {
                return None;
            }
            Some(Step { delay: pace_of(attempt), sell_all: elapsed >= FALLBACK_AFTER })
        },
    }
}

fn pace_of(attempt: usize) -> (r: u64)
    ensures
        r == pace(attempt as int),
{
    if attempt < FAST_ATTEMPTS {
        FAST_DELAY
    } else if attempt < FAST_ATTEMPTS + MED_ATTEMPTS {
        MED_DELAY
    } else {
        SLOW_DELAY
    }
}

/// The seed of a try's salt: the time with the try's number in its high bits.
pub open spec fn salt_seed(now_ms: u128, attempt: u128) -> u128 {
    now_ms ^ (((attempt + 1) as u128) << 40)
}

/// The seed of a try's salt; see [`salt_seed`].
pub fn retry_salt_seed(now_ms: u128, attempt: usize) -> (r: u128)
    ensures
        r == salt_seed(now_ms, attempt as u128),
{
    let n: u128 = attempt as u128 + 1;
    now_ms ^ (n << 40)
}

/// How much a try sells: what was intended, or, when everything is sold, what is left
/// by the venue's word, and never more than was intended or is held.
pub open spec fn size_for(
    sell_all: bool,
    chain_reported: Option<int>,
    intended: int,
    full_holding: int,
) -> int {
    let ceiling = units::larger(units::smaller(intended, full_holding), 0);
    if !sell_all {
        intended
    } else {
        match chain_reported {
            Some(c) => units::larger(units::smaller(c, ceiling), 0),
            None => ceiling,
        }
    }
}

/// A reported balance as an amount.
pub open spec fn amount(x: Option<i64>) -> Option<int> {
    match x {
        Some(v) => Some(v as int),
        None => None,
    }
}

/// How much a try sells; see [`size_for`].
pub fn retry_size(
    sell_all: bool,
    chain_reported: Option<i64>,
    intended: i64,
    full_holding: i64,
) -> (r: i64)
    ensures
        r == size_for(sell_all, amount(chain_reported), intended as int, full_holding as int),
{
    if sell_all {
        let ceiling = max64(min64(intended, full_holding), 0);
        match chain_reported {
            Some(c) => max64(min64(c, ceiling), 0),
            None => ceiling,
        }
    } else {
        intended
    }
}

/// A stable failure is never tried again, and no failure is tried forever.
pub proof fn ladder_is_bounded(f: Failure, attempt: int, elapsed: int)
    ensures
        step_after(Failure::Stable, attempt, elapsed) is None,
        step_after(f, attempt, elapsed) is Some ==> attempt < MAX_ATTEMPTS && elapsed
            < GIVE_UP_AFTER,
{
}

/// The fast and the medium pace together last until everything is sold.
pub proof fn ladder_reaches_the_fallback()
    ensures
        FAST_ATTEMPTS * FAST_DELAY + MED_ATTEMPTS * MED_DELAY == FALLBACK_AFTER,
{
}

/// Selling everything only ever lowers what is sold: never beyond what was intended,
/// nor beyond what the lane holds.
pub proof fn sell_all_only_lowers(chain_reported: Option<int>, intended: int, full_holding: int)
    requires
        intended >= 0,
        full_holding >= 0,
    ensures
        ({
            let n = size_for(true, chain_reported, intended, full_holding);
            0 <= n <= intended && n <= full_holding
        }),
{
}

/// Two tries in one millisecond never share a seed.
pub proof fn seeds_differ(now_ms: u128, a: usize, b: usize)
    requires
        a != b,
    ensures
        salt_seed(now_ms, a as u128) != salt_seed(now_ms, b as u128),
{
    let x = (a + 1) as u128;
    let y = (b + 1) as u128;
    assert(now_ms ^ (x << 40) != now_ms ^ (y << 40)) by (bit_vector)
        requires
            x != y,
            x <= 0x1_0000_0000_0000_0000,
            y <= 0x1_0000_0000_0000_0000,
    ;
}

} // verus!
