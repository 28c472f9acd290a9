//! When an empty wallet is believed.

use vstd::prelude::*;
use crate::text;
use crate::text::{dec_u128, owned};

verus! {

/// What one read of the wallet gave.
#[derive(Debug, PartialEq, Eq)]
pub enum Snapshot {
    Failed(String),
    Data(usize),
}

/// What several reads are worth.
#[derive(Debug, PartialEq, Eq)]
pub enum Verdict {
    Believable,
    Failed(String),
    Unconfirmed(String),
}

/// Why the first failed read failed.
pub open spec fn first_failure(s: Seq<Snapshot>) -> Option<Seq<char>>
    decreases s.len(),
{
    if s.len() == 0 {
        None
    } else {
        match s[0] {
            Snapshot::Failed(e) => Some(e@),
            Snapshot::Data(_) => first_failure(s.skip(1)),
        }
    }
}

/// What the first read that found anything found.
pub open spec fn first_find(s: Seq<Snapshot>) -> Option<usize>
    decreases s.len(),
{
    if s.len() == 0 {
        None
    } else {
        match s[0] {
            Snapshot::Data(n) => if n > 0 {
                Some(n)
            } else {
                first_find(s.skip(1))
            },
            Snapshot::Failed(_) => first_find(s.skip(1)),
        }
    }
}

/// Whether `v` is what these reads are worth: a failed read fails them; then there have
/// to be enough of them, one at least, and none may have found anything.
pub open spec fn judged(s: Seq<Snapshot>, required: usize, v: Verdict) -> bool {
    match first_failure(s) {
        Some(e) => v matches Verdict::Failed(f) && f@ == e,
        None => if s.len() < required || s.len() < 1 {
            v matches Verdict::Unconfirmed(w) && w@ == "only "@ + text::dec(s.len())
                + " successful read(s), need "@ + text::dec(required as nat)
        } else {
            match first_find(s) {
                Some(n) => v matches Verdict::Unconfirmed(w) && w@ == "a read returned "@
                    + text::dec(n as nat) + " position(s), not empty"@,
                None => v is Believable,
            }
        },
    }
}

/// Whether an empty wallet is believed; see [`judged`].
pub fn judge_empty(snaps: &[Snapshot], required: usize) -> (r: Verdict)
    ensures
        judged(snaps@, required, r),
{
    assert(snaps@.skip(0) =~= snaps@);
    for i in 0..snaps.len()
        invariant
            first_failure(snaps@) == first_failure(snaps@.skip(i as int)),
    {
        assert(snaps@.skip(i as int).skip(1) =~= snaps@.skip(i + 1));
        if let Snapshot::Failed(e) = &snaps[i] {
            return Verdict::Failed(e.clone());
        }
    }
    if snaps.len() < required || snaps.len() < 1 {
        let mut w = owned("only ");
        w.append(dec_u128(snaps.len() as u128).as_str());
        w.append(" successful read(s), need ");
        w.append(dec_u128(required as u128).as_str());
        return Verdict::Unconfirmed(w);
    }
    for i in 0..snaps.len()
        invariant
            first_failure(snaps@) is None,
            snaps@.len() >= required,
            snaps@.len() >= 1,
            first_find(snaps@) == first_find(snaps@.skip(i as int)),
    {
        assert(snaps@.skip(i as int).skip(1) =~= snaps@.skip(i + 1));
        if let Snapshot::Data(n) = &snaps[i] {
            if *n > 0 {
                let mut w = owned("a read returned ");
                w.append(dec_u128(*n as u128).as_str());
                w.append(" position(s), not empty");
                return Verdict::Unconfirmed(w);
            }
        }
    }
    Verdict::Believable
}

proof fn no_failure(s: Seq<Snapshot>, i: int)
    requires
        first_failure(s) is None,
        0 <= i < s.len(),
    ensures
        s[i] is Data,
    decreases s.len(),
{
    if i > 0 {
        no_failure(s.skip(1), i - 1);
        assert(s.skip(1)[i - 1] == s[i]);
    }
}

proof fn no_find(s: Seq<Snapshot>, i: int)
    requires
        first_find(s) is None,
        0 <= i < s.len(),
    ensures
        s[i] matches Snapshot::Data(n) ==> n == 0,
    decreases s.len(),
{
    if i > 0 {
        no_find(s.skip(1), i - 1);
        assert(s.skip(1)[i - 1] == s[i]);
    }
}

/// An empty wallet is believed only where every read succeeded and found nothing, and
/// there were as many of them as were asked for.
pub proof fn belief_needs_agreement(s: Seq<Snapshot>, required: usize, i: int)
    requires
        judged(s, required, Verdict::Believable),
        0 <= i < s.len(),
    ensures
        s[i] == Snapshot::Data(0),
        s.len() >= required,
        s.len() >= 1,
{
    no_failure(s, i);
    no_find(s, i);
}

} // verus!
