//! Legs that a merge is working on, which nothing else may sell.

use vstd::prelude::*;
use crate::table;
use crate::table::Table;
use crate::text::owned;
use crate::units;
use crate::units::less;

verus! {

/// After how many seconds a claim that nobody released is void.
pub const CLAIM_BACKSTOP_SECS: u64 = 900;

/// After how many seconds the program that sends merges gives up.
pub const EXECUTOR_TIMEOUT_SECS: u64 = 180;

/// Since when each leg of each lane is claimed.
pub struct MergeClaims {
    held: Table<(String, String), u64>,
}

impl View for MergeClaims {
    type V = Map<(Seq<char>, Seq<char>), u64>;

    closed spec fn view(&self) -> Map<(Seq<char>, Seq<char>), u64> {
        self.held@
    }
}

/// Whether a claim of `at` still holds.
pub open spec fn live(at: u64, now: u64) -> bool {
    units::minus_floored(now, at) < CLAIM_BACKSTOP_SECS
}

/// Whether a leg is claimed.
pub open spec fn claimed(
    m: Map<(Seq<char>, Seq<char>), u64>,
    lane: Seq<char>,
    token: Seq<char>,
    now: u64,
) -> bool {
    m.contains_key((lane, token)) && live(m[(lane, token)], now)
}

/// Whether any of these legs is claimed.
pub open spec fn any_claimed(
    m: Map<(Seq<char>, Seq<char>), u64>,
    lane: Seq<char>,
    tokens: Seq<&str>,
    now: u64,
) -> bool {
    exists|i: int| 0 <= i < tokens.len() && claimed(m, lane, (#[trigger] tokens[i])@, now)
}

/// The claims with these legs claimed at `now`.
pub open spec fn with_legs(
    m: Map<(Seq<char>, Seq<char>), u64>,
    lane: Seq<char>,
    tokens: Seq<&str>,
    now: u64,
) -> Map<(Seq<char>, Seq<char>), u64>
    decreases tokens.len(),
{
    if tokens.len() == 0 {
        m
    } else {
        with_legs(m, lane, tokens.drop_last(), now).insert((lane, tokens.last()@), now)
    }
}

/// The claims without these legs.
pub open spec fn without_legs(
    m: Map<(Seq<char>, Seq<char>), u64>,
    lane: Seq<char>,
    tokens: Seq<&str>,
) -> Map<(Seq<char>, Seq<char>), u64>
    decreases tokens.len(),
{
    if tokens.len() == 0 {
        m
    } else {
        without_legs(m, lane, tokens.drop_last()).remove((lane, tokens.last()@))
    }
}

/// The claims that are still held.
pub open spec fn unexpired(m: Map<(Seq<char>, Seq<char>), u64>, now: u64) -> Map<
    (Seq<char>, Seq<char>),
    u64,
> {
    table::kept(m, |k: (Seq<char>, Seq<char>), at: u64| live(at, now))
}

impl MergeClaims {
    /// No claims.
    pub fn new() -> (r: Self)
        ensures
            r@ == Map::<(Seq<char>, Seq<char>), u64>::empty(),
    {
        MergeClaims { held: Table::new() }
    }

    /// Claims all of these legs, or none of them where one is claimed already.
    pub fn claim(&mut self, lane: &str, tokens: &[&str], now: u64) -> (r: bool)
        ensures
            r == !any_claimed(old(self)@, lane@, tokens@, now),
            r ==> final(self)@ == with_legs(old(self)@, lane@, tokens@, now),
            !r ==> final(self)@ == old(self)@,
    {
        let ghost start = self@;
        for i in 0..tokens.len()
            invariant
                self@ == start,
                forall|k: int| 0 <= k < i ==> !claimed(start, lane@, (#[trigger] tokens@[k])@, now),
        {
            if self.is_claimed(lane, tokens[i], now) {
                assert(claimed(start, lane@, tokens@[i as int]@, now));
                return false;
            }
        }
        for i in 0..tokens.len()
            invariant
                self@ == with_legs(start, lane@, tokens@.take(i as int), now),
        {
            assert(tokens@.take(i + 1).drop_last() =~= tokens@.take(i as int));
            let k = (owned(lane), owned(tokens[i]));
            assert(k@ == (lane@, tokens@[i as int]@));
            self.held.insert(k, now);
        }
        assert(tokens@.take(tokens@.len() as int) =~= tokens@);
        true
    }

    /// Releases these legs.
    pub fn release(&mut self, lane: &str, tokens: &[&str])
        ensures
            final(self)@ == without_legs(old(self)@, lane@, tokens@),
    {
        let ghost start = self@;
        for i in 0..tokens.len()
            invariant
                self@ == without_legs(start, lane@, tokens@.take(i as int)),
        {
            assert(tokens@.take(i + 1).drop_last() =~= tokens@.take(i as int));
            let k = (owned(lane), owned(tokens[i]));
            assert(k@ == (lane@, tokens@[i as int]@));
            let _ = self.held.remove(&k);
        }
        assert(tokens@.take(tokens@.len() as int) =~= tokens@);
    }

    /// Whether a leg is claimed.
    pub fn is_claimed(&self, lane: &str, token: &str, now: u64) -> (r: bool)
        ensures
            r == claimed(self@, lane@, token@, now),
    {
        let k = (owned(lane), owned(token));
        assert(k@ == (lane@, token@));
        match self.held.get(&k) {
            Some(at) => less(now, *at) < CLAIM_BACKSTOP_SECS,
            None => false,
        }
    }

    /// How many claims are kept, void ones too.
    pub fn len(&self) -> (r: usize)
        ensures
            r == self@.dom().len(),
    {
        self.held.len()
    }

    /// Whether no claim is kept.
    pub fn is_empty(&self) -> (r: bool)
        ensures
            r == (self@.dom().len() == 0),
    {
        self.held.len() == 0
    }

    /// Drops the claims that are void.
    pub fn evict_expired(&mut self, now: u64)
        ensures
            final(self)@ == table::kept(
                old(self)@,
                |k: (Seq<char>, Seq<char>), at: u64| live(at, now),
            ),
            final(self)@ == unexpired(old(self)@, now),
    {
        let f = |k: &(String, String), at: &u64| -> (b: bool)
            ensures
                b == live(*at, now),
            { less(now, *at) < CLAIM_BACKSTOP_SECS };
        self.held.retain(f, Ghost(|k: (Seq<char>, Seq<char>), at: u64| live(at, now)));
    }
}

impl Default for MergeClaims {
    fn default() -> (r: Self)
        ensures
            r@ == Map::<(Seq<char>, Seq<char>), u64>::empty(),
    {
        MergeClaims::new()
    }
}

proof fn legs_are_held(
    m: Map<(Seq<char>, Seq<char>), u64>,
    lane: Seq<char>,
    tokens: Seq<&str>,
    now: u64,
    i: int,
)
    requires
        0 <= i < tokens.len(),
    ensures
        with_legs(m, lane, tokens, now).contains_key((lane, tokens[i]@)),
        with_legs(m, lane, tokens, now)[(lane, tokens[i]@)] == now,
    decreases tokens.len(),
{
    if i < tokens.len() - 1 {
        legs_are_held(m, lane, tokens.drop_last(), now, i);
    }
}

proof fn other_lane_is_kept(
    m: Map<(Seq<char>, Seq<char>), u64>,
    lane: Seq<char>,
    tokens: Seq<&str>,
    now: u64,
    k: (Seq<char>, Seq<char>),
)
    requires
        k.0 != lane,
    ensures
        with_legs(m, lane, tokens, now).contains_key(k) == m.contains_key(k),
        m.contains_key(k) ==> with_legs(m, lane, tokens, now)[k] == m[k],
    decreases tokens.len(),
{
    if tokens.len() > 0 {
        other_lane_is_kept(m, lane, tokens.drop_last(), now, k);
    }
}

/// Every leg of a claim is claimed, for as long as the program that merges can run and
/// longer, whichever way the clock steps.
pub proof fn claim_outlasts_the_merge(
    m: Map<(Seq<char>, Seq<char>), u64>,
    lane: Seq<char>,
    tokens: Seq<&str>,
    now: u64,
    later: u64,
    i: int,
)
    requires
        0 <= i < tokens.len(),
        later <= now + 2 * EXECUTOR_TIMEOUT_SECS,
    ensures
        claimed(with_legs(m, lane, tokens, now), lane, tokens[i]@, later),
{
    legs_are_held(m, lane, tokens, now, i);
}

/// A claim of one lane never holds up another.
pub proof fn lanes_claim_apart(
    m: Map<(Seq<char>, Seq<char>), u64>,
    lane: Seq<char>,
    other: Seq<char>,
    tokens: Seq<&str>,
    token: Seq<char>,
    now: u64,
    later: u64,
)
    requires
        lane != other,
    ensures
        claimed(with_legs(m, lane, tokens, now), other, token, later) == claimed(
            m,
            other,
            token,
            later,
        ),
{
    other_lane_is_kept(m, lane, tokens, now, (other, token));
}

/// What is released is free, and to release it again changes nothing.
pub proof fn release_frees(
    m: Map<(Seq<char>, Seq<char>), u64>,
    lane: Seq<char>,
    tokens: Seq<&str>,
    i: int,
    now: u64,
)
    requires
        0 <= i < tokens.len(),
    ensures
        !claimed(without_legs(m, lane, tokens), lane, tokens[i]@, now),
        without_legs(without_legs(m, lane, tokens), lane, tokens) == without_legs(m, lane, tokens),
{
    let out = without_legs(m, lane, tokens);
    assert forall|k: int| 0 <= k < tokens.len() implies !out.contains_key(
        (lane, (#[trigger] tokens[k])@),
    ) by {
        leg_is_gone(m, lane, tokens, k);
    }
    nothing_to_remove(out, lane, tokens);
    assert(!out.contains_key((lane, tokens[i]@)));
}

proof fn leg_is_gone(
    m: Map<(Seq<char>, Seq<char>), u64>,
    lane: Seq<char>,
    tokens: Seq<&str>,
    k: int,
)
    requires
        0 <= k < tokens.len(),
    ensures
        !without_legs(m, lane, tokens).contains_key((lane, tokens[k]@)),
    decreases tokens.len(),
{
    if k < tokens.len() - 1 {
        leg_is_gone(m, lane, tokens.drop_last(), k);
    }
}

proof fn nothing_to_remove(
    m: Map<(Seq<char>, Seq<char>), u64>,
    lane: Seq<char>,
    tokens: Seq<&str>,
)
    requires
        forall|k: int| 0 <= k < tokens.len() ==> !m.contains_key((lane, (#[trigger] tokens[k])@)),
    ensures
        without_legs(m, lane, tokens) == m,
    decreases tokens.len(),
{
    if tokens.len() > 0 {
        assert forall|k: int| 0 <= k < tokens.drop_last().len() implies !m.contains_key(
            (lane, (#[trigger] tokens.drop_last()[k])@),
        ) by {
            assert(tokens.drop_last()[k] == tokens[k]);
        }
        nothing_to_remove(m, lane, tokens.drop_last());
        assert(!m.contains_key((lane, tokens[tokens.len() - 1]@)));
        assert(m.remove((lane, tokens.last()@)) =~= m);
    }
}

} // verus!
