//! Order: of numbers, and of texts by their characters.

use vstd::prelude::*;
use crate::text;

verus! {

/// Whether no number is larger than one after it.
pub open spec fn ascending(s: Seq<u64>) -> bool {
    forall|i: int, j: int| 0 <= i < j < s.len() ==> s[i] <= s[j]
}

/// Whether `s` holds the same numbers as `t`, in ascending order.
pub open spec fn sorts(s: Seq<u64>, t: Seq<u64>) -> bool {
    ascending(s) && s.to_multiset() == t.to_multiset()
}

/// The numbers in ascending order.
pub fn sort(v: &Vec<u64>) -> (r: Vec<u64>)
    ensures
        sorts(r@, v@),
        r@.len() == v@.len(),
{
    broadcast use vstd::seq_lib::group_to_multiset_ensures;

    let mut out: Vec<u64> = Vec::new();
    for i in 0..v.len()
        invariant
            ascending(out@),
            out@.to_multiset() == v@.take(i as int).to_multiset(),
            out@.len() == i,
    {
        let x = v[i];
        let mut k: usize = out.len();
        while k > 0 && out[k - 1] > x
            invariant
                k <= out@.len(),
                forall|j: int| k <= j < out@.len() ==> out@[j] > x,
            decreases k,
        {
            k = k - 1;
        }
        let ghost before = out@;
        out.insert(k, x);
        assert(out@ =~= before.insert(k as int, x));
        assert forall|a: int, b: int| 0 <= a < b < out@.len() implies out@[a] <= out@[b] by {
            let pa = if a < k {
                before[a]
            } else if a == k {
                x
            } else {
                before[a - 1]
            };
            let pb = if b < k {
                before[b]
            } else if b == k {
                x
            } else {
                before[b - 1]
            };
            assert(out@[a] == pa && out@[b] == pb);
            if b == k && a < k {
                assert(before[a] <= before[k - 1]);
            }
        }
        proof {
            vstd::seq_lib::to_multiset_insert(before, k as int, x);
            assert(v@.take(i + 1) =~= v@.take(i as int).push(x));
            vstd::seq_lib::to_multiset_build(v@.take(i as int), x);
        }
    }
    assert(v@.take(v@.len() as int) =~= v@);
    out
}

/// Whether `a` comes before `b`, character by character; a text comes before one
/// that it begins.
pub open spec fn before(a: Seq<char>, b: Seq<char>) -> bool
    decreases a.len(),
{
    if b.len() == 0 {
        false
    } else if a.len() == 0 {
        true
    } else if a[0] != b[0] {
        a[0] < b[0]
    } else {
        before(a.skip(1), b.skip(1))
    }
}

proof fn before_is_total(a: Seq<char>, b: Seq<char>)
    ensures
        before(a, b) || before(b, a) || a == b,
        !(before(a, b) && before(b, a)),
        before(a, b) ==> a != b,
    decreases a.len(),
{
    if a.len() > 0 && b.len() > 0 && a[0] == b[0] {
        before_is_total(a.skip(1), b.skip(1));
        if a.skip(1) == b.skip(1) {
            assert(a =~= seq![a[0]] + a.skip(1));
            assert(b =~= seq![b[0]] + b.skip(1));
        }
    } else if a.len() == 0 && b.len() == 0 {
        assert(a =~= b);
    }
}

proof fn before_chains(a: Seq<char>, b: Seq<char>, c: Seq<char>)
    requires
        before(a, b),
        before(b, c),
    ensures
        before(a, c),
    decreases a.len(),
{
    if a.len() > 0 && b.len() > 0 && c.len() > 0 {
        if a[0] == b[0] && b[0] == c[0] {
            before_chains(a.skip(1), b.skip(1), c.skip(1));
        }
    }
}

/// Whether `a` comes before `b`; see [`before`].
pub fn comes_before(a: &str, b: &str) -> (r: bool)
    ensures
        r == before(a@, b@),
{
    let x = text::chars_of(a);
    let y = text::chars_of(b);
    let mut i: usize = 0;
    assert(x@.skip(0) =~= x@);
    assert(y@.skip(0) =~= y@);
    while i < x.len() && i < y.len() && x[i] == y[i]
        invariant
            i <= x@.len(),
            i <= y@.len(),
            before(x@, y@) == before(x@.skip(i as int), y@.skip(i as int)),
        decreases x@.len() - i,
    {
        assert(x@.skip(i as int).skip(1) =~= x@.skip(i + 1));
        assert(y@.skip(i as int).skip(1) =~= y@.skip(i + 1));
        i = i + 1;
    }
    if i >= y.len() {
        false
    } else if i >= x.len() {
        true
    } else {
        x[i] < y[i]
    }
}

/// Whether each text comes before every later one.
pub open spec fn in_order(s: Seq<Seq<char>>) -> bool {
    forall|i: int, j: int|
        0 <= i < j < s.len() ==> before(#[trigger] s[i], #[trigger] s[j])
}

/// Whether two sequences hold the same texts, however often and in whatever order.
pub open spec fn same_members(a: Seq<Seq<char>>, b: Seq<Seq<char>>) -> bool {
    forall|x: Seq<char>|
        #![trigger a.contains(x)]
        #![trigger b.contains(x)]
        a.contains(x) == b.contains(x)
}

/// The texts in order, each of them once.
pub fn distinct_in_order(v: &[String]) -> (r: Vec<String>)
    ensures
        in_order(text::texts(r@)),
        same_members(text::texts(r@), text::texts(v@)),
{
    let mut out: Vec<String> = Vec::new();
    let ghost all = text::texts(v@);
    for i in 0..v.len()
        invariant
            all == text::texts(v@),
            in_order(text::texts(out@)),
            same_members(text::texts(out@), all.take(i as int)),
    {
        let ghost x = v@[i as int]@;
        let ghost old_out = text::texts(out@);
        let mut k: usize = out.len();
        while k > 0 && comes_before(v[i].as_str(), out[k - 1].as_str())
            invariant
                i < v@.len(),
                x == v@[i as int]@,
                old_out == text::texts(out@),
                k <= out@.len(),
                forall|j: int| k <= j < out@.len() ==> before(x, #[trigger] old_out[j]),
            decreases k,
        {
            assert(old_out[k - 1] == out@[k - 1]@);
            k = k - 1;
        }
        proof {
            if k > 0 {
                assert(old_out[k - 1] == out@[k - 1]@);
                before_is_total(x, old_out[k - 1]);
            }
        }
        let dup = k > 0 && text::same(out[k - 1].as_str(), v[i].as_str());
        assert(all.take(i + 1) =~= all.take(i as int).push(x));
        if !dup {
            out.insert(k, v[i].clone());
            let ghost now = text::texts(out@);
            assert(now =~= old_out.insert(k as int, x));
            assert forall|a: int, b: int| 0 <= a < b < now.len() implies before(
                #[trigger] now[a],
                #[trigger] now[b],
            ) by {
                let pa = if a < k {
                    old_out[a]
                } else if a == k {
                    x
                } else {
                    old_out[a - 1]
                };
                let pb = if b < k {
                    old_out[b]
                } else if b == k {
                    x
                } else {
                    old_out[b - 1]
                };
                assert(now[a] == pa && now[b] == pb);
                if b == k && a < k - 1 {
                    before_chains(old_out[a], old_out[k - 1], x);
                }
            }
        }
        proof {
            let now = text::texts(out@);
            assert forall|y: Seq<char>| #[trigger] now.contains(y) == all.take(i + 1).contains(y) by {
                let more = all.take(i + 1);
                if old_out.contains(y) {
                    let n = old_out.index_of(y);
                    if dup {
                        assert(now[n] == y);
                    } else if n < k {
                        assert(now[n] == y);
                    } else {
                        assert(now[n + 1] == y);
                    }
                }
                if y == x {
                    if dup {
                        assert(now[k - 1] == y);
                    } else {
                        assert(now[k as int] == y);
                    }
                    assert(more[i as int] == y);
                }
                if all.take(i as int).contains(y) {
                    let n = all.take(i as int).index_of(y);
                    assert(more[n] == y);
                }
                if now.contains(y) && y != x {
                    let n = now.index_of(y);
                    if dup {
                        assert(old_out[n] == y);
                    } else if n < k {
                        assert(old_out[n] == y);
                    } else {
                        assert(old_out[n - 1] == y);
                    }
                    assert(old_out.contains(y));
                }
                if more.contains(y) && y != x {
                    let n = more.index_of(y);
                    assert(all.take(i as int)[n] == y);
                }
            }
        }
    }
    assert(all.take(all.len() as int) =~= all);
    out
}

proof fn least_is_first(a: Seq<Seq<char>>, b: Seq<Seq<char>>)
    requires
        in_order(a),
        in_order(b),
        same_members(a, b),
        a.len() > 0,
    ensures
        b.len() > 0,
        a[0] == b[0],
{
    assert(a.contains(a[0]));
    let n = b.index_of(a[0]);
    assert(b[n] == a[0]);
    assert(b.contains(b[0]));
    let m = a.index_of(b[0]);
    assert(a[m] == b[0]);
    if n > 0 && m > 0 {
        before_is_total(a[0], b[0]);
    }
}

/// Two sequences in order that hold the same texts are the same sequence.
pub proof fn order_is_unique(a: Seq<Seq<char>>, b: Seq<Seq<char>>)
    requires
        in_order(a),
        in_order(b),
        same_members(a, b),
    ensures
        a == b,
    decreases a.len(),
{
    if a.len() == 0 {
        if b.len() > 0 {
            assert(b.contains(b[0]));
            assert(a.contains(b[0]));
        }
        assert(a =~= b);
    } else {
        least_is_first(a, b);
        let ra = a.skip(1);
        let rb = b.skip(1);
        assert(in_order(ra));
        assert(in_order(rb));
        assert forall|x: Seq<char>| #[trigger] ra.contains(x) == rb.contains(x) by {
            if ra.contains(x) {
                let n = ra.index_of(x);
                assert(a[n + 1] == x);
                before_is_total(a[0], a[n + 1]);
                assert(a.contains(x));
                let m = b.index_of(x);
                assert(b[m] == x && m > 0);
                assert(rb[m - 1] == x);
            }
            if rb.contains(x) {
                let n = rb.index_of(x);
                assert(b[n + 1] == x);
                before_is_total(b[0], b[n + 1]);
                assert(b.contains(x));
                let m = a.index_of(x);
                assert(a[m] == x && m > 0);
                assert(ra[m - 1] == x);
            }
        }
        order_is_unique(ra, rb);
        assert(a =~= seq![a[0]] + ra);
        assert(b =~= seq![b[0]] + rb);
    }
}

/// Whether `order` ranks the places of `keys` from the largest key down, equal keys in
/// the order in which they stand.
pub open spec fn ranks(order: Seq<usize>, keys: Seq<i128>) -> bool {
    &&& order.len() == keys.len()
    &&& forall|i: int| 0 <= i < order.len() ==> (#[trigger] order[i]) < keys.len()
    &&& forall|i: int, j: int|
        0 <= i < j < order.len() ==> ranks_before(keys, #[trigger] order[i], #[trigger] order[j])
}

/// Whether place `a` comes before place `b`.
pub open spec fn ranks_before(keys: Seq<i128>, a: usize, b: usize) -> bool {
    keys[a as int] > keys[b as int] || (keys[a as int] == keys[b as int] && a < b)
}

/// The places of the keys, from the largest key down; see [`ranks`].
pub fn rank(keys: &Vec<i128>) -> (r: Vec<usize>)
    ensures
        ranks(r@, keys@),
{
    let mut out: Vec<usize> = Vec::new();
    for n in 0..keys.len()
        invariant
            out@.len() == n,
            forall|i: int| 0 <= i < out@.len() ==> (#[trigger] out@[i]) < n,
            forall|i: int, j: int|
                0 <= i < j < out@.len() ==> ranks_before(keys@, #[trigger] out@[i], #[trigger] out@[j]),
    {
        let mut k: usize = out.len();
        while k > 0 && keys[out[k - 1]] < keys[n]
            invariant
                n < keys@.len(),
                k <= out@.len(),
                forall|i: int| 0 <= i < out@.len() ==> (#[trigger] out@[i]) < n,
                forall|j: int| k <= j < out@.len() ==> keys@[(#[trigger] out@[j]) as int] < keys@[n as int],
            decreases k,
        {
            k = k - 1;
        }
        let ghost before = out@;
        out.insert(k, n);
        let ghost now = out@;
        assert(now =~= before.insert(k as int, n));
        assert forall|i: int, j: int| 0 <= i < j < now.len() implies ranks_before(
            keys@,
            #[trigger] now[i],
            #[trigger] now[j],
        ) by {
            if i < k && j < k {
                assert(now[i] == before[i] && now[j] == before[j]);
            } else if i < k && j == k {
                assert(now[i] == before[i]);
                assert(before[i] < n);
                if i < k - 1 {
                    assert(ranks_before(keys@, before[i], before[k - 1]));
                }
            } else if i < k {
                assert(now[i] == before[i] && now[j] == before[j - 1]);
            } else if i == k {
                assert(now[j] == before[j - 1]);
            } else {
                assert(now[i] == before[i - 1] && now[j] == before[j - 1]);
            }
        }
        assert forall|i: int| 0 <= i < now.len() implies (#[trigger] now[i]) < n + 1 by {
            if i < k {
                assert(now[i] == before[i]);
            } else if i > k {
                assert(now[i] == before[i - 1]);
            }
        }
    }
    out
}

} // verus!
