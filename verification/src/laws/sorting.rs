//! Order.

use vstd::prelude::*;
use crate::sorting;

verus! {

/// A text comes before another where, at the first place at which they differ, its character is
/// the lesser, or it has ended.
pub proof fn texts_are_ordered_by_their_first_difference(a: Seq<char>, b: Seq<char>, k: int)
    requires
        0 <= k <= a.len(),
        k <= b.len(),
        forall|i: int| 0 <= i < k ==> a[i] == b[i],
        k < a.len() && k < b.len() ==> a[k] != b[k],
    ensures
        sorting::before(a, b) <==> k < b.len() && (k == a.len() || (k < a.len() && a[k] < b[k])),
        !sorting::before(a, a),
    decreases a.len(),
{
    not_before_itself(a);
    if k > 0 {
        let x = a.skip(1);
        let y = b.skip(1);
        assert forall|i: int| 0 <= i < k - 1 implies x[i] == y[i] by {
            assert(a[i + 1] == b[i + 1]);
        }
        texts_are_ordered_by_their_first_difference(x, y, k - 1);
        assert(a[0] == b[0]);
    }
}

proof fn not_before_itself(a: Seq<char>)
    ensures
        !sorting::before(a, a),
    decreases a.len(),
{
    if a.len() > 0 {
        not_before_itself(a.skip(1));
    }
}

/// A ranking takes every place once, the largest first and the earlier of two as large.
pub proof fn a_ranking_takes_every_place_once(order: Seq<usize>, keys: Seq<i128>, i: int, j: int)
    requires
        sorting::ranks(order, keys),
        0 <= i < j < order.len(),
    ensures
        order[i] != order[j],
        keys[order[i] as int] >= keys[order[j] as int],
        keys[order[i] as int] == keys[order[j] as int] ==> order[i] < order[j],
        order.len() == keys.len(),
{
    assert(sorting::ranks_before(keys, order[i], order[j]));
}

/// Sorted numbers of the same kind are the same: there is one way to sort.
pub proof fn there_is_one_way_to_sort(a: Seq<u64>, b: Seq<u64>, v: Seq<u64>)
    requires
        sorting::sorts(a, v),
        sorting::sorts(b, v),
    ensures
        a == b,
        a.len() == v.len(),
        forall|x: u64| a.contains(x) <==> #[trigger] v.contains(x),
{
    let leq = |x: u64, y: u64| x <= y;
    assert(vstd::relations::sorted_by(a, leq)) by {
        assert forall|i: int, j: int| 0 <= i < j < a.len() implies #[trigger] leq(a[i], a[j]) by {}
    }
    assert(vstd::relations::sorted_by(b, leq)) by {
        assert forall|i: int, j: int| 0 <= i < j < b.len() implies #[trigger] leq(b[i], b[j]) by {}
    }
    vstd::seq_lib::lemma_sorted_unique(a, b, leq);
    a.to_multiset_ensures();
    v.to_multiset_ensures();
    assert forall|x: u64| a.contains(x) <==> #[trigger] v.contains(x) by {
        assert(a.to_multiset().count(x) == v.to_multiset().count(x));
    }
}

} // verus!
