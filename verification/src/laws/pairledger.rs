//! When a merge of a leader is an exit.

use vstd::prelude::*;
use crate::json;
use crate::json::Json;
use crate::pairledger;
use crate::pairledger::{Balance, MergeSignal, PairView, SeedRow};
use crate::units::Qty;

verus! {

/// A split adds its pairs to those that are known, and a merge takes off as many as there are:
/// what is merged beyond them is an exit, of exactly so many pairs, and what is merged of them
/// is not.
pub proof fn what_is_merged_beyond_the_splits_is_an_exit(b: Balance, n: i64)
    requires
        b.wf(),
        !b.poisoned,
        n >= 0,
        b.sized + n <= 1_000_000_000_000_000_000_000_000_000_000,
    ensures
        b.split(Qty::Finite(n), true).sized - b.sized == n,
        !b.split(Qty::Finite(n), true).poisoned,
        b.signal(Qty::Finite(n), true) == (if n > b.sized + 1 {
            MergeSignal::Exit { shares: (n - b.sized) as i64 }
        } else {
            MergeSignal::NonSignal
        }),
        b.merged(Qty::Finite(n), true).sized == (if n >= b.sized {
            0
        } else {
            b.sized - n
        }),
        !b.merged(Qty::Finite(n), true).poisoned,
{
}

/// A size that is not known leaves the balance unknown from then on, and nothing that merges
/// is told apart any more.
pub proof fn an_unknown_size_poisons(b: Balance, shares: Qty, other: Qty, sized: bool)
    requires
        !sized || shares == Qty::NotFinite || (shares matches Qty::Finite(n) && n < 0),
    ensures
        b.split(shares, sized).poisoned,
        b.merged(shares, sized).poisoned,
        b.signal(shares, sized) == MergeSignal::Unknown,
        b.split(shares, sized).signal(other, true) == MergeSignal::Unknown,
{
}

/// A row counts for its leader and its market, and for no other.
pub proof fn a_row_counts_for_its_market(
    v: PairView,
    leader: Seq<char>,
    row: SeedRow,
    other: (Seq<char>, Seq<char>),
)
    requires
        other != (leader, row.1@),
    ensures
        pairledger::at_key(v.after_row(leader, row).balances, other) == pairledger::at_key(
            v.balances,
            other,
        ),
        v.after_row(leader, row).seeded == v.seeded,
        row.0 ==> pairledger::at_key(v.after_row(leader, row).balances, (leader, row.1@))
            == pairledger::at_key(v.balances, (leader, row.1@)).split(Qty::Finite(row.2), row.3),
        !row.0 ==> pairledger::at_key(v.after_row(leader, row).balances, (leader, row.1@))
            == pairledger::at_key(v.balances, (leader, row.1@)).merged(Qty::Finite(row.2), row.3),
{
}

/// A leader is seeded once: seeding again changes nothing.
pub proof fn a_leader_is_seeded_once(
    v: PairView,
    leader: Seq<char>,
    rows: Seq<SeedRow>,
    again: Seq<SeedRow>,
)
    ensures
        v.after_seed(leader, rows).seeded.contains_key(leader),
        v.after_seed(leader, rows).after_seed(leader, again) == v.after_seed(leader, rows),
{
    rows_seed_nobody(PairView { seeded: v.seeded.insert(leader, ()), ..v }, leader, rows);
}

proof fn rows_seed_nobody(v: PairView, leader: Seq<char>, rows: Seq<SeedRow>)
    ensures
        v.after_rows(leader, rows).seeded == v.seeded,
    decreases rows.len(),
{
    if rows.len() > 0 {
        rows_seed_nobody(v, leader, rows.drop_last());
    }
}

/// The rows that seed come oldest first, and one without a time before all: of two rows the one
/// that comes first is no younger, and of two as old the one that was listed first.
pub proof fn the_oldest_seeds_first(rows: Seq<Json>, order: Seq<usize>, i: int, j: int)
    requires
        crate::sorting::ranks(order, pairledger::ages_in(rows)),
        0 <= i < j < order.len(),
    ensures
        pairledger::ages_in(rows)[order[i] as int] >= pairledger::ages_in(rows)[order[j] as int],
        pairledger::ages_in(rows)[order[i] as int] == pairledger::ages_in(rows)[order[j] as int]
            ==> order[i] < order[j],
        pairledger::ages_in(rows).len() == pairledger::seeds_in(rows).len(),
{
    assert(crate::sorting::ranks_before(pairledger::ages_in(rows), order[i], order[j]));
    as_many_ages_as_seeds(rows);
}

proof fn as_many_ages_as_seeds(rows: Seq<Json>)
    ensures
        pairledger::ages_in(rows).len() == pairledger::seeds_in(rows).len(),
    decreases rows.len(),
{
    if rows.len() > 0 {
        as_many_ages_as_seeds(rows.drop_last());
    }
}

/// A row that seeds counts with its own age, which falls as its time rises.
pub proof fn a_row_seeds_with_its_age(rows: Seq<Json>, j: Json, t: i64)
    requires
        json::signed_in(json::field(j, "timestamp"@)) == Some(t),
    ensures
        pairledger::seed_in(j) matches Some(s) ==> pairledger::seeds_in(rows.push(j))
            == pairledger::seeds_in(rows).push(s) && pairledger::ages_in(rows.push(j))
            == pairledger::ages_in(rows).push((-t) as i128),
        pairledger::seed_in(j) is None ==> pairledger::seeds_in(rows.push(j))
            == pairledger::seeds_in(rows) && pairledger::ages_in(rows.push(j))
            == pairledger::ages_in(rows),
{
    assert(rows.push(j).drop_last() =~= rows);
}

/// An activity seeds only where it is a split or a merge of a named market; its size is known
/// only where it is a count.
pub proof fn only_splits_and_merges_seed(row: Json)
    ensures
        pairledger::seed_in(row) matches Some(s) ==> {
            &&& s.0 <==> json::text_in(json::field(row, "type"@)) == Some("SPLIT"@)
            &&& !s.0 <==> json::text_in(json::field(row, "type"@)) == Some("MERGE"@)
            &&& s.3 <==> (pairledger::pairs_in(row) matches Some(n) && n >= 0)
            &&& s.3 ==> pairledger::pairs_in(row) == Some(s.2)
            &&& !s.3 ==> s.2 == 0
        },
        json::text_in(json::field(row, "type"@)) == Some("SPLIT"@) && (json::text_in(
            json::field(row, "conditionId"@),
        ) matches Some(c) && c.len() > 0) ==> pairledger::seed_in(row) is Some,
        json::text_in(json::field(row, "type"@)) == Some("MERGE"@) && (json::text_in(
            json::field(row, "conditionId"@),
        ) matches Some(c) && c.len() > 0) ==> pairledger::seed_in(row) is Some,
{
    reveal_strlit("SPLIT");
    reveal_strlit("MERGE");
    assert("SPLIT"@[0] != "MERGE"@[0]);
}

} // verus!
