//! Which files of a log are kept.

use vstd::prelude::*;
use crate::capped;

verus! {

/// A line takes its bytes and one for its break, and the file is full at sixty-four mebibytes.
pub proof fn a_line_takes_its_bytes(seg_bytes: u64, line_bytes: u64)
    requires
        seg_bytes + line_bytes < u64::MAX,
    ensures
        capped::grown(seg_bytes, line_bytes).0 == seg_bytes + line_bytes + 1,
        capped::grown(seg_bytes, line_bytes).1 <==> seg_bytes + line_bytes + 1 >= 64 * 1024 * 1024,
{
}

/// A log goes on with its highest file.
pub proof fn the_highest_file_goes_on(v: Seq<u64>, i: int)
    requires
        0 <= i < v.len(),
    ensures
        v[i] <= capped::largest(v),
        v.contains(capped::largest(v)),
    decreases v.len(),
{
    let before = v.drop_last();
    assert(v[v.len() - 1] == v.last());
    if before.len() > 0 {
        the_highest_file_goes_on(
            before,
            if i < before.len() {
                i
            } else {
                0
            },
        );
        if i < before.len() {
            assert(before[i] == v[i]);
        }
        let k = choose|k: int| 0 <= k < before.len() && before[k] == capped::largest(before);
        assert(v[k] == capped::largest(before));
    }
}

/// The bytes of the first `k` files, summed.
pub open spec fn bytes(v: Seq<(u64, u64)>, k: int) -> int
    decreases k,
{
    if k <= 0 {
        0
    } else {
        bytes(v, k - 1) + v[k - 1].1
    }
}

/// All files together take what each of them takes.
pub proof fn all_files_are_summed(v: Seq<(u64, u64)>)
    requires
        bytes(v, v.len() as int) <= u64::MAX,
    ensures
        capped::bytes_in(v) == bytes(v, v.len() as int),
    decreases v.len(),
{
    if v.len() > 0 {
        let before = v.drop_last();
        same_bytes(v, before, before.len() as int);
        assert(bytes(v, v.len() as int) == bytes(v, v.len() - 1) + v[v.len() - 1].1);
        all_files_are_summed(before);
    }
}

proof fn same_bytes(a: Seq<(u64, u64)>, b: Seq<(u64, u64)>, k: int)
    requires
        0 <= k <= a.len(),
        k <= b.len(),
        forall|i: int| 0 <= i < k ==> a[i] == b[i],
    ensures
        bytes(a, k) == bytes(b, k),
        bytes(a, k) >= 0,
    decreases k,
{
    if k > 0 {
        same_bytes(a, b, k - 1);
    }
}

/// The oldest files go, but for the one that is written to, until what is left is no more than
/// may be: one fewer would have left too much.
pub proof fn the_oldest_files_go(v: Seq<(u64, u64)>, active: u64, total: u64, cap: u64)
    requires
        forall|i: int| 0 <= i < v.len() ==> (#[trigger] v[i]).0 != active,
        bytes(v, v.len() as int) <= total,
    ensures
        ({
            let gone = capped::doomed(v, active, total, cap);
            let k = gone.len() as int;
            &&& k <= v.len()
            &&& forall|i: int| 0 <= i < k ==> #[trigger] gone[i] == v[i].0
            &&& k < v.len() ==> total - bytes(v, k) <= cap
            &&& k > 0 ==> total - bytes(v, k - 1) > cap
        }),
    decreases v.len(),
{
    if v.len() > 0 {
        let r = v.skip(1);
        shifted(v, v.len() as int);
        same_bytes(v, v, v.len() as int);
        same_bytes(r, r, r.len() as int);
        if total > cap {
            let left = (total - v[0].1) as u64;
            assert forall|i: int| 0 <= i < r.len() implies (#[trigger] r[i]).0 != active by {
                assert(r[i] == v[i + 1]);
            }
            assert(v[0].0 != active);
            the_oldest_files_go(r, active, left, cap);
            let gone = capped::doomed(v, active, total, cap);
            let rest = capped::doomed(r, active, left, cap);
            assert(gone == seq![v[0].0] + rest);
            let k = gone.len() as int;
            shifted(v, k);
            assert(k - 1 == rest.len());
            if k > 1 {
                shifted(v, k - 1);
            } else {
                assert(bytes(v, 0) == 0);
            }
            assert forall|i: int| 0 <= i < k implies #[trigger] gone[i] == v[i].0 by {
                if i > 0 {
                    assert(gone[i] == rest[i - 1]);
                    assert(r[i - 1] == v[i]);
                }
            }
        } else {
            assert(v[0].0 != active);
        }
    }
}

proof fn shifted(v: Seq<(u64, u64)>, k: int)
    requires
        1 <= k <= v.len(),
    ensures
        bytes(v, k) == v[0].1 + bytes(v.skip(1), k - 1),
    decreases k,
{
    if k > 1 {
        shifted(v, k - 1);
        assert(v.skip(1)[k - 2] == v[k - 1]);
    } else {
        assert(bytes(v, 1) == bytes(v, 0) + v[0].1);
    }
}

/// The number of a file may have a plus before it and no minus.
pub proof fn a_file_is_numbered_upward(d: Seq<char>)
    requires
        d.len() > 0,
        d[0] != '+',
    ensures
        capped::number_in(seq!['+'] + d) == capped::number_in(d),
        d[0] == '-' ==> capped::number_in(d) is None,
        d[0] != '-' ==> capped::number_in(d) == crate::units::integer(d),
        capped::number_in(Seq::<char>::empty()) is None,
{
    assert((seq!['+'] + d).skip(1) =~= d);
}

} // verus!
