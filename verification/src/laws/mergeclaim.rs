//! Which legs a merge holds.

use vstd::prelude::*;
use crate::mergeclaim;

verus! {

/// A claim holds for a quarter of an hour, and not longer.
pub proof fn a_claim_holds_for_a_quarter_of_an_hour(
    m: Map<(Seq<char>, Seq<char>), u64>,
    lane: Seq<char>,
    token: Seq<char>,
    now: u64,
)
    requires
        m.contains_key((lane, token)),
    ensures
        mergeclaim::claimed(m, lane, token, now) <==> now < m[(lane, token)] + 900,
        mergeclaim::unexpired(m, now).contains_key((lane, token)) <==> now < m[(lane, token)] + 900,
        mergeclaim::claimed(mergeclaim::unexpired(m, now), lane, token, now)
            == mergeclaim::claimed(m, lane, token, now),
{
}

/// A claim holds its legs and changes no other: a token that is none of them is claimed
/// afterwards exactly where it was before.
pub proof fn a_claim_holds_its_legs_alone(
    m: Map<(Seq<char>, Seq<char>), u64>,
    lane: Seq<char>,
    tokens: Seq<&str>,
    token: Seq<char>,
    now: u64,
    later: u64,
)
    requires
        forall|i: int| 0 <= i < tokens.len() ==> (#[trigger] tokens[i])@ != token,
    ensures
        mergeclaim::claimed(mergeclaim::with_legs(m, lane, tokens, now), lane, token, later)
            == mergeclaim::claimed(m, lane, token, later),
        mergeclaim::claimed(mergeclaim::without_legs(m, lane, tokens), lane, token, later)
            == mergeclaim::claimed(m, lane, token, later),
        mergeclaim::with_legs(m, lane, tokens, now).contains_key((lane, token)) == m.contains_key(
            (lane, token),
        ),
        m.contains_key((lane, token)) ==> mergeclaim::with_legs(m, lane, tokens, now)[(lane, token)]
            == m[(lane, token)],
        mergeclaim::without_legs(m, lane, tokens).contains_key((lane, token)) == m.contains_key(
            (lane, token),
        ),
        m.contains_key((lane, token)) ==> mergeclaim::without_legs(m, lane, tokens)[(lane, token)]
            == m[(lane, token)],
    decreases tokens.len(),
{
    if tokens.len() > 0 {
        let before = tokens.drop_last();
        assert forall|i: int| 0 <= i < before.len() implies (#[trigger] before[i])@ != token by {
            assert(before[i] == tokens[i]);
        }
        a_claim_holds_its_legs_alone(m, lane, before, token, now, later);
        assert(tokens[tokens.len() - 1] == tokens.last());
    }
}

/// Two claims of one leg do not hold at once: while the first holds the second is refused.
pub proof fn a_leg_is_claimed_once(
    m: Map<(Seq<char>, Seq<char>), u64>,
    lane: Seq<char>,
    tokens: Seq<&str>,
    others: Seq<&str>,
    i: int,
    j: int,
    now: u64,
    later: u64,
)
    requires
        0 <= i < tokens.len(),
        0 <= j < others.len(),
        tokens[i]@ == others[j]@,
        later <= now + 360,
    ensures
        mergeclaim::any_claimed(
            mergeclaim::with_legs(m, lane, tokens, now),
            lane,
            others,
            later,
        ),
{
    mergeclaim::claim_outlasts_the_merge(m, lane, tokens, now, later, i);
    assert(mergeclaim::claimed(
        mergeclaim::with_legs(m, lane, tokens, now),
        lane,
        others[j]@,
        later,
    ));
}

} // verus!
