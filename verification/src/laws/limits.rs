//! The limits that the library works by, and how they stand to each other.

use vstd::prelude::*;
use crate::auth;
use crate::book;
use crate::capped;
use crate::errors;
use crate::firerate;
use crate::history;
use crate::laneid;
use crate::mergeclaim;
use crate::mergeverify;
use crate::mergewatch;
use crate::orphan;
use crate::restwatch;
use crate::split;
use crate::units;

verus! {

/// A merge that runs is killed after its own time is over and long before its claim lapses, so
/// that no leg is free while a merge may still be working on it.
pub proof fn a_claim_outlasts_every_merge()
    ensures
        mergeclaim::EXECUTOR_TIMEOUT_SECS == 3 * 60,
        mergeverify::EXEC_KILL_SECS == mergeclaim::EXECUTOR_TIMEOUT_SECS + 30,
        mergeclaim::CLAIM_BACKSTOP_SECS == 5 * mergeclaim::EXECUTOR_TIMEOUT_SECS,
{
}

/// A share, a dollar and a pair are a million units each, wherever they are counted.
pub proof fn amounts_are_millionths()
    ensures
        units::ONE == 1_000_000,
        split::UNITS_PER_SHARE == units::ONE,
        mergewatch::COLLATERAL_DECIMALS == units::ONE,
        orphan::MIN_SHARES == units::ONE,
        split::HIS_PAIRS == 200 * units::ONE,
        mergewatch::MAX_MERGE_SHARES == 1_000_000_000 * units::ONE,
        mergeverify::CREDIBILITY_TOLERANCE * 10 == units::ONE,
        firerate::OVERCOPY_TOLERANCE * 2 == 3 * units::ONE,
{
}

/// What is watched may grow to twice what is aimed at; a log is sixteen files; a feed is alive
/// that told something within a minute; errors are news for six hours.
pub proof fn rooms_are_as_large_as_they_are()
    ensures
        book::WATCH_CAP == 200,
        book::WATCH_HARD_MAX == 2 * book::WATCH_CAP,
        book::LEVELS_PER_TOKEN == 64,
        book::SEEN_CAP == 64 * 64,
        capped::DEFAULT_CAP_BYTES == 16 * capped::SEGMENT_BYTES,
        restwatch::FEED_LIVENESS_WINDOW == 60 * 1_000_000,
        errors::ACTIVE_WINDOW_SECS == 6 * 60 * 60,
        history::LEDGER_GROWTH_ALARM_LINES == 250_000,
        firerate::DEFAULT_LIMIT == 10,
        firerate::MAX_LANES == 256,
        laneid::HEX_LEN + 2 == 14,
        mergewatch::MAX_DEPTH == 4,
        auth::CHAIN_ID == 137,
{
}

} // verus!
