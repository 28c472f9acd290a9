//! A map that keeps its rows in the order in which their keys first came.

use vstd::prelude::*;
use crate::text;

verus! {

/// What can stand as a key: a value that is told apart by its view.
pub trait Key: View + Sized {
    fn same_key(&self, other: &Self) -> (r: bool)
        ensures
            r == (self@ == other@),
    ;

    fn copy_key(&self) -> (r: Self)
        ensures
            r@ == self@,
    ;
}

impl Key for String {
    fn same_key(&self, other: &Self) -> (r: bool) {
        text::same(self.as_str(), other.as_str())
    }

    fn copy_key(&self) -> (r: Self) {
        self.clone()
    }
}

impl Key for (String, String) {
    fn same_key(&self, other: &Self) -> (r: bool) {
        text::same(self.0.as_str(), other.0.as_str()) && text::same(
            self.1.as_str(),
            other.1.as_str(),
        )
    }

    fn copy_key(&self) -> (r: Self) {
        (self.0.clone(), self.1.clone())
    }
}

impl Key for (String, i64) {
    fn same_key(&self, other: &Self) -> (r: bool) {
        text::same(self.0.as_str(), other.0.as_str()) && self.1 == other.1
    }

    fn copy_key(&self) -> (r: Self) {
        (self.0.clone(), self.1)
    }
}

impl Key for i64 {
    fn same_key(&self, other: &Self) -> (r: bool) {
        *self == *other
    }

    fn copy_key(&self) -> (r: Self) {
        *self
    }
}

/// A map from keys to values. No key occurs in two rows.
pub struct Table<K: Key, V> {
    names: Vec<K>,
    values: Vec<V>,
}

/// The views of a sequence of keys.
pub open spec fn views<K: Key>(names: Seq<K>) -> Seq<K::V> {
    names.map_values(|k: K| k@)
}

/// The map of two sequences, position by position.
pub open spec fn as_map<A, V>(keys: Seq<A>, vals: Seq<V>) -> Map<A, V> {
    Map::new(|k: A| keys.contains(k), |k: A| vals[keys.index_of(k)])
}

proof fn map_facts<A, V>(keys: Seq<A>, vals: Seq<V>)
    requires
        keys.len() == vals.len(),
        keys.no_duplicates(),
    ensures
        forall|i: int|
            0 <= i < keys.len() ==> as_map(keys, vals).contains_key(#[trigger] keys[i]) && as_map(
                keys,
                vals,
            )[keys[i]] == vals[i],
        forall|k: A| as_map(keys, vals).contains_key(k) == keys.contains(k),
{
    assert forall|i: int| 0 <= i < keys.len() implies as_map(keys, vals).contains_key(
        #[trigger] keys[i],
    ) && as_map(keys, vals)[keys[i]] == vals[i] by {
        let k = keys[i];
        assert(keys.contains(k));
        assert(keys.index_of(k) == i);
    }
}

proof fn map_update<A, V>(keys: Seq<A>, vals: Seq<V>, i: int, v: V)
    requires
        keys.len() == vals.len(),
        keys.no_duplicates(),
        0 <= i < keys.len(),
    ensures
        as_map(keys, vals.update(i, v)) == as_map(keys, vals).insert(keys[i], v),
{
    map_facts(keys, vals);
    let m = as_map(keys, vals.update(i, v));
    let w = as_map(keys, vals).insert(keys[i], v);
    map_facts(keys, vals.update(i, v));
    assert(keys.contains(keys[i]));
    assert forall|k: A| m.contains_key(k) implies m[k] == w[k] by {
        let j = keys.index_of(k);
        assert(keys[j] == k);
    }
    assert(m =~= w);
}

proof fn map_push<A, V>(keys: Seq<A>, vals: Seq<V>, k: A, v: V)
    requires
        keys.len() == vals.len(),
        keys.no_duplicates(),
        !keys.contains(k),
    ensures
        keys.push(k).no_duplicates(),
        as_map(keys.push(k), vals.push(v)) == as_map(keys, vals).insert(k, v),
{
    let ks = keys.push(k);
    let vs = vals.push(v);
    assert(ks.no_duplicates());
    map_facts(keys, vals);
    map_facts(ks, vs);
    let m = as_map(ks, vs);
    let w = as_map(keys, vals).insert(k, v);
    assert(ks[keys.len() as int] == k);
    assert forall|x: A| m.contains_key(x) == w.contains_key(x) by {
        if keys.contains(x) {
            let j = keys.index_of(x);
            assert(ks[j] == x);
        }
    }
    assert forall|x: A| m.contains_key(x) implies m[x] == w[x] by {
        let j = ks.index_of(x);
        assert(ks[j] == x);
        if x != k {
            assert(keys[j] == x);
        }
    }
    assert(m =~= w);
}

proof fn map_remove<A, V>(keys: Seq<A>, vals: Seq<V>, i: int)
    requires
        keys.len() == vals.len(),
        keys.no_duplicates(),
        0 <= i < keys.len(),
    ensures
        keys.remove(i).no_duplicates(),
        as_map(keys.remove(i), vals.remove(i)) == as_map(keys, vals).remove(keys[i]),
{
    let ks = keys.remove(i);
    let vs = vals.remove(i);
    assert(ks.no_duplicates());
    map_facts(keys, vals);
    map_facts(ks, vs);
    let m = as_map(ks, vs);
    let w = as_map(keys, vals).remove(keys[i]);
    assert forall|x: A| m.contains_key(x) == w.contains_key(x) by {
        if keys.contains(x) && x != keys[i] {
            let j = keys.index_of(x);
            if j < i {
                assert(ks[j] == x);
            } else {
                assert(ks[j - 1] == x);
            }
        }
        if ks.contains(x) {
            let j = ks.index_of(x);
            if j < i {
                assert(keys[j] == x);
            } else {
                assert(keys[j + 1] == x);
            }
        }
    }
    assert forall|x: A| m.contains_key(x) implies m[x] == w[x] by {
        let j = ks.index_of(x);
        assert(ks[j] == x);
        if j < i {
            assert(keys[j] == x);
        } else {
            assert(keys[j + 1] == x);
        }
    }
    assert(m =~= w);
}

impl<K: Key, V> View for Table<K, V> {
    type V = Map<K::V, V>;

    closed spec fn view(&self) -> Map<K::V, V> {
        as_map(self.keys(), self.vals())
    }
}

impl<K: Key, V> Table<K, V> {
    #[verifier::type_invariant]
    spec fn inv(self) -> bool {
        &&& self.names@.len() == self.values@.len()
        &&& views(self.names@).no_duplicates()
    }

    /// The keys, in the order in which they first came.
    pub closed spec fn keys(self) -> Seq<K::V> {
        views(self.names@)
    }

    /// The values, in the order of the keys.
    pub closed spec fn vals(self) -> Seq<V> {
        self.values@
    }

    /// How the three readings of a table hang together.
    pub open spec fn aligned(self) -> bool {
        &&& self.keys().len() == self.vals().len()
        &&& self.keys().no_duplicates()
        &&& forall|i: int|
            0 <= i < self.keys().len() ==> self@.contains_key(#[trigger] self.keys()[i])
                && self@[self.keys()[i]] == self.vals()[i]
        &&& forall|k: K::V| #[trigger] self@.contains_key(k) ==> self.keys().contains(k)
        &&& self@.dom().finite()
        &&& self@.dom().len() == self.keys().len()
    }

    /// An empty table.
    pub fn new() -> (r: Self)
        ensures
            r.keys() == Seq::<K::V>::empty(),
            r.vals() == Seq::<V>::empty(),
            r@ == Map::<K::V, V>::empty(),
    {
        let names: Vec<K> = Vec::new();
        assert(views(names@) =~= Seq::<K::V>::empty());
        let r = Table { names, values: Vec::new() };
        assert(r@ =~= Map::<K::V, V>::empty());
        r
    }

    /// How many rows there are.
    pub fn len(&self) -> (r: usize)
        ensures
            r == self.keys().len(),
            self.aligned(),
    {
        proof {
            use_type_invariant(self);
            map_facts(self.keys(), self.vals());
            self.keys().unique_seq_to_set();
            assert(self@.dom() =~= self.keys().to_set());
        }
        self.names.len()
    }

    /// The row of a key.
    pub fn find(&self, k: &K) -> (r: Option<usize>)
        ensures
            self.aligned(),
            r is Some == self@.contains_key(k@),
            r matches Some(i) ==> i < self.keys().len() && self.keys()[i as int] == k@,
    {
        let n = self.len();
        for i in 0..n
            invariant
                n == self.names@.len(),
                self.keys().len() == n,
                self.aligned(),
                forall|j: int| 0 <= j < i ==> self.keys()[j] != k@,
        {
            if self.names[i].same_key(k) {
                assert(self.keys()[i as int] == k@);
                return Some(i);
            }
            assert(self.keys()[i as int] == self.names@[i as int]@);
        }
        None
    }

    /// Whether a key has a row.
    pub fn has(&self, k: &K) -> (r: bool)
        ensures
            r == self@.contains_key(k@),
    {
        self.find(k).is_some()
    }

    /// The value of a key.
    pub fn get(&self, k: &K) -> (r: Option<&V>)
        ensures
            r is Some == self@.contains_key(k@),
            r matches Some(v) ==> *v == self@[k@],
    {
        match self.find(k) {
            Some(i) => Some(&self.values[i]),
            None => None,
        }
    }

    /// The key of a row.
    pub fn key_at(&self, i: usize) -> (r: &K)
        requires
            i < self.keys().len(),
        ensures
            r@ == self.keys()[i as int],
    {
        proof {
            use_type_invariant(self);
        }
        &self.names[i]
    }

    /// The value of a row.
    pub fn val_at(&self, i: usize) -> (r: &V)
        requires
            i < self.keys().len(),
        ensures
            *r == self.vals()[i as int],
            self@[self.keys()[i as int]] == *r,
    {
        proof {
            use_type_invariant(self);
            map_facts(self.keys(), self.vals());
        }
        &self.values[i]
    }

    /// The value of a row, to be changed in place.
    pub fn at_mut(&mut self, i: usize) -> (r: &mut V)
        requires
            i < old(self).keys().len(),
        ensures
            *r == old(self).vals()[i as int],
            *r == old(self)@[old(self).keys()[i as int]],
            final(self).keys() == old(self).keys(),
            final(self).vals() == old(self).vals().update(i as int, *final(r)),
            final(self)@ == old(self)@.insert(old(self).keys()[i as int], *final(r)),
    {
        proof {
            use_type_invariant(&*self);
            map_facts(self.keys(), self.vals());
            assert forall|v: V|
                as_map(self.keys(), #[trigger] self.vals().update(i as int, v)) == as_map(
                    self.keys(),
                    self.vals(),
                ).insert(self.keys()[i as int], v) by {
                map_update(self.keys(), self.vals(), i as int, v);
            }
        }
        &mut self.values[i]
    }

    /// Adds a row for a key that has none.
    pub fn push(&mut self, k: K, v: V)
        requires
            !old(self)@.contains_key(k@),
        ensures
            final(self).keys() == old(self).keys().push(k@),
            final(self).vals() == old(self).vals().push(v),
            final(self)@ == old(self)@.insert(k@, v),
    {
        let mut t = Table { names: Vec::new(), values: Vec::new() };
        std::mem::swap(&mut t, self);
        proof {
            use_type_invariant(&t);
            map_facts(t.keys(), t.vals());
            map_push(t.keys(), t.vals(), k@, v);
        }
        let ghost before = t.keys();
        let Table { mut names, mut values } = t;
        names.push(k);
        values.push(v);
        assert(views(names@) =~= before.push(k@));
        *self = Table { names, values };
    }

    /// Gives a key its value, whether or not it had one.
    pub fn insert(&mut self, k: K, v: V)
        ensures
            final(self)@ == old(self)@.insert(k@, v),
            old(self)@.contains_key(k@) ==> final(self).keys() == old(self).keys(),
            !old(self)@.contains_key(k@) ==> final(self).keys() == old(self).keys().push(k@)
                && final(self).vals() == old(self).vals().push(v),
    {
        match self.find(&k) {
            Some(i) => {
                *self.at_mut(i) = v;
            },
            None => {
                self.push(k, v);
            },
        }
    }

    /// Takes out one row.
    pub fn remove_at(&mut self, i: usize) -> (r: V)
        requires
            i < old(self).keys().len(),
        ensures
            r == old(self).vals()[i as int],
            final(self).keys() == old(self).keys().remove(i as int),
            final(self).vals() == old(self).vals().remove(i as int),
            final(self)@ == old(self)@.remove(old(self).keys()[i as int]),
    {
        let mut t = Table { names: Vec::new(), values: Vec::new() };
        std::mem::swap(&mut t, self);
        proof {
            use_type_invariant(&t);
            map_remove(t.keys(), t.vals(), i as int);
        }
        let ghost before = t.keys();
        let Table { mut names, mut values } = t;
        let _ = names.remove(i);
        let v = values.remove(i);
        assert(views(names@) =~= before.remove(i as int));
        *self = Table { names, values };
        v
    }

    /// Takes a key's value out.
    pub fn remove(&mut self, k: &K) -> (r: Option<V>)
        ensures
            final(self)@ == old(self)@.remove(k@),
            r is Some == old(self)@.contains_key(k@),
            r matches Some(v) ==> v == old(self)@[k@],
            r is None ==> final(self).keys() == old(self).keys(),
            r is Some ==> final(self).keys() == old(self).keys().remove(
                old(self).keys().index_of(k@),
            ),
    {
        match self.find(k) {
            Some(i) => {
                proof {
                    use_type_invariant(&*self);
                    assert(self.keys()[i as int] == k@);
                    assert(self.keys().index_of(k@) == i);
                }
                Some(self.remove_at(i))
            },
            None => {
                assert(self@.remove(k@) =~= self@);
                None
            },
        }
    }

    /// Keeps the rows that `f` wants kept.
    pub(crate) fn retain<F: Fn(&K, &V) -> bool>(&mut self, f: F, Ghost(p): Ghost<spec_fn(K::V, V) -> bool>)
        requires
            forall|k: &K, v: &V| #[trigger] f.requires((k, v)),
            forall|k: &K, v: &V, b: bool| #[trigger] f.ensures((k, v), b) ==> b == p(k@, *v),
        ensures
            final(self)@ == kept(old(self)@, p),
    {
        let ghost start = self@;
        let mut n = self.len();
        let mut i: usize = 0;
        while i < n
            invariant
                i <= n,
                n == self.keys().len(),
                self.aligned(),
                forall|k: &K, v: &V| #[trigger] f.requires((k, v)),
                forall|k: &K, v: &V, b: bool| #[trigger] f.ensures((k, v), b) ==> b == p(k@, *v),
                forall|k: K::V| #[trigger]
                    self@.contains_key(k) ==> start.contains_key(k) && start[k] == self@[k],
                forall|k: K::V| #[trigger]
                    start.contains_key(k) ==> self@.contains_key(k) || !p(k, start[k]),
                forall|j: int| 0 <= j < i ==> p(#[trigger] self.keys()[j], start[self.keys()[j]]),
            decreases n - i,
        {
            let ghost key = self.keys()[i as int];
            let ghost val = self.vals()[i as int];
            assert(self@.contains_key(key));
            if f(self.key_at(i), self.val_at(i)) {
                i = i + 1;
            } else {
                let ghost before = self.keys();
                let _ = self.remove_at(i);
                n = self.len();
                assert forall|j: int| 0 <= j < i implies p(
                    #[trigger] self.keys()[j],
                    start[self.keys()[j]],
                ) by {
                    assert(self.keys()[j] == before[j]);
                }
            }
        }
        proof {
            assert forall|k: K::V| self@.contains_key(k) implies p(k, start[k]) by {
                let j = self.keys().index_of(k);
                assert(self.keys()[j] == k);
            }
            assert(self@ =~= kept(start, p));
        }
    }
}

/// The part of a map that `p` wants kept.
pub open spec fn kept<A, V>(m: Map<A, V>, p: spec_fn(A, V) -> bool) -> Map<A, V> {
    Map::new(|k: A| m.contains_key(k) && p(k, m[k]), |k: A| m[k])
}

} // verus!
