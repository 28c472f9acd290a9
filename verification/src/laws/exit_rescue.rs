//! How a refused sale is tried again.

use vstd::prelude::*;
use crate::exit_rescue;
use crate::exit_rescue::Failure;
use crate::text;

verus! {

/// A body that speaks of the balance or the allowance, in any case, is a want of balance
/// whatever else it says; one that speaks of neither and names an answer of the venue that
/// will not change is stable.
pub proof fn a_want_of_balance_comes_first(body: Seq<char>)
    ensures
        text::occurs(text::lower_of(body), "not enough balance"@) || text::occurs(
            text::lower_of(body),
            "allowance"@,
        ) <==> exit_rescue::failure_of(body) == Failure::NotEnoughBalance,
        exit_rescue::failure_of(body) == Failure::NoMatch ==> text::occurs(
            text::lower_of(body),
            "no orders found to match"@,
        ) || text::occurs(text::lower_of(body), "fak"@),
        exit_rescue::failure_of(text::lower_of(body)) == exit_rescue::failure_of(body),
{
    assert(text::lower_of(text::lower_of(body)) =~= text::lower_of(body));
}

/// Nothing is tried again that is stable, that was tried for a minute, or that was tried sixty
/// times, three for a want of balance; everything else is.
pub proof fn trying_ends(f: Failure, attempt: int, elapsed: int)
    ensures
        exit_rescue::step_after(f, attempt, elapsed) is Some <==> f != Failure::Stable && elapsed
            < 60_000 && attempt < (if f == Failure::NotEnoughBalance {
            3int
        } else {
            60
        }),
{
}

/// The waits grow: twenty of a quarter of a second, twenty of half of one, then one each, and
/// a want of balance is tried again at once.
pub proof fn waits_grow(f: Failure, attempt: int, elapsed: int)
    requires
        attempt >= 0,
    ensures
        exit_rescue::step_after(f, attempt, elapsed) matches Some(s) ==> {
            &&& s.delay == 250 <==> attempt < 20 || f == Failure::NotEnoughBalance
            &&& s.delay == 500 <==> f != Failure::NotEnoughBalance && 20 <= attempt < 40
            &&& s.delay == 1_000 <==> f != Failure::NotEnoughBalance && attempt >= 40
        },
        exit_rescue::pace(attempt) <= exit_rescue::pace(attempt + 1),
{
}

/// All is sold where the balance is wanting, and, once fifteen seconds have passed, where
/// nothing matched; never on account of the line.
pub proof fn all_is_sold_at_last(f: Failure, attempt: int, elapsed: int)
    ensures
        exit_rescue::step_after(f, attempt, elapsed) matches Some(s) ==> (s.sell_all <==> f
            == Failure::NotEnoughBalance || (f == Failure::NoMatch && elapsed >= 15_000)),
{
}

/// As long as not all is sold, the sale stays what was intended; then it is the least of what
/// was intended, what is held and what the chain reports, and never less than nothing.
pub proof fn the_least_is_sold(chain: Option<int>, intended: int, held: int)
    ensures
        exit_rescue::size_for(false, chain, intended, held) == intended,
        ({
            let n = exit_rescue::size_for(true, chain, intended, held);
            &&& n >= 0
            &&& n > 0 ==> n <= intended && n <= held && (chain matches Some(c) ==> n <= c)
            &&& intended >= 0 && held >= 0 && (chain matches Some(c) ==> c >= 0) ==> n == intended
                || n == held || chain == Some(n)
            &&& intended <= 0 || held <= 0 || (chain matches Some(c) && c <= 0) ==> n == 0
        }),
{
}

} // verus!
