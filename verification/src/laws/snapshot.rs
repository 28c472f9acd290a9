//! When an empty wallet is believed.

use vstd::prelude::*;
use crate::snapshot;
use crate::snapshot::{Snapshot, Verdict};

verus! {

/// An empty wallet is believed exactly where it was read as often as asked, and once at the
/// least, no reading failed, and every one was empty; a reading that failed is told as a
/// failure.
pub proof fn emptiness_is_believed_when_all_agree(s: Seq<Snapshot>, required: usize, v: Verdict)
    requires
        snapshot::judged(s, required, v),
    ensures
        v is Believable <==> s.len() >= required && s.len() >= 1 && forall|i: int|
            0 <= i < s.len() ==> #[trigger] s[i] == Snapshot::Data(0),
        v is Failed <==> exists|i: int| 0 <= i < s.len() && (#[trigger] s[i]) is Failed,
{
    failures_and_finds(s);
}

proof fn failures_and_finds(s: Seq<Snapshot>)
    ensures
        snapshot::first_failure(s) is Some <==> exists|i: int|
            0 <= i < s.len() && (#[trigger] s[i]) is Failed,
        snapshot::first_failure(s) is None && snapshot::first_find(s) is None <==> forall|i: int|
            0 <= i < s.len() ==> #[trigger] s[i] == Snapshot::Data(0),
    decreases s.len(),
{
    if s.len() > 0 {
        let r = s.skip(1);
        failures_and_finds(r);
        assert forall|i: int| 0 < i < s.len() implies #[trigger] s[i] == r[i - 1] by {}
        if exists|i: int| 0 <= i < r.len() && (#[trigger] r[i]) is Failed {
            let i = choose|i: int| 0 <= i < r.len() && (#[trigger] r[i]) is Failed;
            assert(s[i + 1] is Failed);
        }
        if exists|i: int| 0 <= i < s.len() && (#[trigger] s[i]) is Failed {
            let i = choose|i: int| 0 <= i < s.len() && (#[trigger] s[i]) is Failed;
            if i > 0 {
                assert(r[i - 1] is Failed);
            }
        }
        if forall|i: int| 0 <= i < s.len() ==> #[trigger] s[i] == Snapshot::Data(0) {
            assert forall|i: int| 0 <= i < r.len() implies #[trigger] r[i] == Snapshot::Data(0) by {
                assert(s[i + 1] == r[i]);
            }
        }
    }
}

} // verus!
