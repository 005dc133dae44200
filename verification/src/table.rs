//! A table from keys to values that keeps each key once.
use vstd::prelude::*;

use crate::text::same_text;

verus! {

/// What a table can be keyed by.
pub trait Key: View + Sized {
    /// Whether two keys are the same.
    fn same(&self, other: &Self) -> (r: bool)
        ensures
            r == (self@ == other@),
    ;
}

impl Key for String {
    fn same(&self, other: &Self) -> (r: bool) {
        same_text(self.as_str(), other.as_str())
    }
}

impl Key for u16 {
    fn same(&self, other: &Self) -> (r: bool) {
        *self == *other
    }
}

/// A table from keys to values. It is seen as a map from what its keys denote to what
/// its values denote.
pub struct Table<K: Key, V: View> {
    entries: Vec<(K, V)>,
}

impl<K: Key, V: View> View for Table<K, V> {
    type V = Map<K::V, V::V>;

    open spec fn view(&self) -> Map<K::V, V::V> {
        Map::new(
            |k: K::V| self.keys().contains(k),
            |k: K::V| self.values()[self.keys().index_of(k)]@,
        )
    }
}

impl<K: Key, V: View> Table<K, V> {
    /// The keys, in the order of the entries.
    pub closed spec fn keys(&self) -> Seq<K::V> {
        self.entries@.map_values(|e: (K, V)| e.0@)
    }

    /// The values, in the order of the entries.
    pub closed spec fn values(&self) -> Seq<V> {
        self.entries@.map_values(|e: (K, V)| e.1)
    }

    /// No key occurs twice.
    pub open spec fn wf(&self) -> bool {
        self.keys().no_duplicates() && self.keys().len() == self.values().len()
    }

    /// The entry at `i` is what the table holds for its key.
    pub proof fn lemma_at(&self, i: int)
        requires
            self.wf(),
            0 <= i < self.keys().len(),
        ensures
            self@.contains_key(self.keys()[i]),
            self@[self.keys()[i]] == self.values()[i]@,
    {
        let k = self.keys()[i];
        assert(self.keys().contains(k));
        let j = self.keys().index_of(k);
        assert(self.keys()[j] == k);
        assert(i == j);
    }

    /// The number of keys is the number of entries.
    pub proof fn lemma_len(&self)
        requires
            self.wf(),
        ensures
            self@.dom().finite(),
            self@.dom().len() == self.keys().len(),
    {
        self.keys().unique_seq_to_set();
        assert(self@.dom() =~= self.keys().to_set());
    }

    /// A table without entries.
    pub fn new() -> (r: Self)
        ensures
            r.wf(),
            r@ == Map::<K::V, V::V>::empty(),
            r.keys().len() == 0,
            r.values().len() == 0,
    {
        let r = Table { entries: Vec::new() };
        assert(r@ =~= Map::<K::V, V::V>::empty());
        r
    }

    /// The number of entries.
    pub fn len(&self) -> (r: usize)
        requires
            self.wf(),
        ensures
            r == self@.dom().len(),
            r == self.keys().len(),
            r == self.values().len(),
    {
        proof {
            self.lemma_len();
        }
        self.entries.len()
    }

    /// Where the entry of a key stands.
    pub fn position(&self, key: &K) -> (r: Option<usize>)
        requires
            self.wf(),
        ensures
            match r {
                Some(i) => i < self.keys().len() && self.keys()[i as int] == key@
                    && self@.contains_key(key@) && self@[key@] == self.values()[i as int]@,
                None => !self@.contains_key(key@),
            },
    {
        let mut i: usize = 0;
        while i < self.entries.len()
            invariant
                i <= self.entries.len(),
                self.wf(),
                forall|j: int| 0 <= j < i ==> self.keys()[j] != key@,
            decreases self.entries.len() - i,
        {
            if self.entries[i].0.same(key) {
                proof {
                    self.lemma_at(i as int);
                }
                return Some(i);
            }
            i += 1;
        }
        None
    }

    /// Whether there is an entry for the key.
    pub fn contains(&self, key: &K) -> (r: bool)
        requires
            self.wf(),
        ensures
            r == self@.contains_key(key@),
    {
        self.position(key).is_some()
    }

    /// The key of the entry at `i`.
    pub fn key_at(&self, i: usize) -> (r: &K)
        requires
            i < self.keys().len(),
        ensures
            r@ == self.keys()[i as int],
    {
        &self.entries[i].0
    }

    /// The value of the entry at `i`.
    pub fn value_at(&self, i: usize) -> (r: &V)
        requires
            i < self.values().len(),
        ensures
            *r == self.values()[i as int],
    {
        &self.entries[i].1
    }

    /// What the table holds for the key.
    pub fn get(&self, key: &K) -> (r: Option<&V>)
        requires
            self.wf(),
        ensures
            match r {
                Some(v) => self@.contains_key(key@) && v@ == self@[key@] && self.values().contains(
                    *v,
                ),
                None => !self@.contains_key(key@),
            },
    {
        match self.position(key) {
            Some(i) => {
                assert(self.values()[i as int] == self.entries@[i as int].1);
                Some(&self.entries[i].1)
            },
            None => None,
        }
    }

    /// The value of the entry at `i`, to be changed in place.
    pub fn value_mut(&mut self, i: usize) -> (r: &mut V)
        requires
            i < old(self).values().len(),
        ensures
            *r == old(self).values()[i as int],
            final(self).keys() == old(self).keys(),
            final(self).values() == old(self).values().update(i as int, *final(r)),
    {
        &mut self.entries[i].1
    }

    /// A table in which one value was exchanged holds the new value for its key.
    pub proof fn lemma_set(before: Self, after: Self, i: int, v: V)
        requires
            before.wf(),
            0 <= i < before.keys().len(),
            after.keys() == before.keys(),
            after.values() == before.values().update(i, v),
        ensures
            after.wf(),
            after@ == before@.insert(before.keys()[i], v@),
    {
        assert forall|k: K::V| #[trigger] after@.contains_key(k) implies after@[k]
            == before@.insert(before.keys()[i], v@)[k] by {
            let j = after.keys().index_of(k);
            after.lemma_at(j);
            before.lemma_at(j);
        }
        assert(before.keys().contains(before.keys()[i]));
        assert(after@ =~= before@.insert(before.keys()[i], v@));
    }

    /// A table with one more entry holds its value for the new key.
    proof fn lemma_pushed(before: Self, after: Self, k: K::V, v: V)
        requires
            before.wf(),
            !before@.contains_key(k),
            after.keys() == before.keys().push(k),
            after.values() == before.values().push(v),
        ensures
            after.wf(),
            after@ == before@.insert(k, v@),
    {
        assert(!before.keys().contains(k));
        assert(after.keys().no_duplicates());
        assert forall|q: K::V| #[trigger] after@.contains_key(q) implies after@[q]
            == before@.insert(k, v@)[q] by {
            let j = after.keys().index_of(q);
            after.lemma_at(j);
            if j < before.keys().len() {
                before.lemma_at(j);
                assert(before.keys()[j] == q);
            }
        }
        assert forall|q: K::V| #[trigger] before@.insert(k, v@).contains_key(
            q,
        ) implies after@.contains_key(q) by {
            if q == k {
                assert(after.keys()[before.keys().len() as int] == k);
            } else {
                let j = before.keys().index_of(q);
                assert(after.keys()[j] == q);
            }
        }
        assert(after@ =~= before@.insert(k, v@));
    }

    /// Adds an entry for a key that has none.
    pub fn add_new(&mut self, key: K, value: V)
        requires
            old(self).wf(),
            !old(self)@.contains_key(key@),
        ensures
            final(self).wf(),
            final(self)@ == old(self)@.insert(key@, value@),
            final(self).keys() == old(self).keys().push(key@),
            final(self).values() == old(self).values().push(value),
    {
        let ghost before = *self;
        let ghost k = key@;
        self.entries.push((key, value));
        assert(self.keys() =~= before.keys().push(k));
        assert(self.values() =~= before.values().push(value));
        proof {
            Self::lemma_pushed(before, *self, k, value);
        }
    }

    /// Makes `value` what the table holds for the key.
    pub fn insert(&mut self, key: K, value: V)
        requires
            old(self).wf(),
        ensures
            final(self).wf(),
            final(self)@ == old(self)@.insert(key@, value@),
            forall|j: int|
                0 <= j < final(self).values().len() ==> #[trigger] final(self).values()[j] == value
                    || old(self).values().contains(final(self).values()[j]),
    {
        let ghost before = *self;
        match self.position(&key) {
            Some(i) => {
                *self.value_mut(i) = value;
                proof {
                    Self::lemma_set(before, *self, i as int, value);
                }
            },
            None => {
                self.add_new(key, value);
            },
        }
    }

    /// Takes the entry of a key out of the table.
    pub fn remove(&mut self, key: &K) -> (r: Option<V>)
        requires
            old(self).wf(),
        ensures
            final(self).wf(),
            final(self)@ == old(self)@.remove(key@),
            match r {
                Some(v) => old(self)@.contains_key(key@) && v@ == old(self)@[key@],
                None => !old(self)@.contains_key(key@),
            },
            forall|j: int|
                0 <= j < final(self).values().len() ==> old(self).values().contains(
                    #[trigger] final(self).values()[j],
                ),
            old(self)@.contains_key(key@) ==> exists|i: int|
                0 <= i < old(self).keys().len() && final(self).keys() == (
                #[trigger] old(self).keys().remove(i)) && final(self).values() == old(
                    self
                ).values().remove(i),
            !old(self)@.contains_key(key@) ==> *final(self) == *old(self),
    {
        let ghost before = *self;
        match self.position(key) {
            Some(i) => {
                let e = self.entries.remove(i);
                proof {
                    let k = key@;
                    assert(self.keys() =~= before.keys().remove(i as int));
                    assert(self.values() =~= before.values().remove(i as int));
                    assert(self.keys().no_duplicates());
                    assert forall|q: K::V| #[trigger] self@.contains_key(q) implies self@[q]
                        == before@.remove(k)[q] && before@.remove(k).contains_key(q) by {
                        let j = self.keys().index_of(q);
                        self.lemma_at(j);
                        let m = if j < i {
                            j
                        } else {
                            j + 1
                        };
                        assert(before.keys()[m] == q);
                        before.lemma_at(m);
                    }
                    assert forall|q: K::V| #[trigger] before@.remove(k).contains_key(
                        q,
                    ) implies self@.contains_key(q) by {
                        let m = before.keys().index_of(q);
                        let j = if m < i {
                            m
                        } else {
                            m - 1
                        };
                        assert(self.keys()[j] == q);
                    }
                    assert(self@ =~= before@.remove(k));
                    assert forall|j: int|
                        0 <= j < self.values().len() implies before.values().contains(
                        #[trigger] self.values()[j],
                    ) by {
                        let m = if j < i {
                            j
                        } else {
                            j + 1
                        };
                        assert(before.values()[m] == self.values()[j]);
                    }
                }
                Some(e.1)
            },
            None => {
                assert(self@.remove(key@) =~= self@);
                None
            },
        }
    }

    /// The values, in the order of the entries.
    pub fn into_values(self) -> (r: Vec<V>)
        ensures
            r@ == self.values(),
    {
        let mut rest = self.entries;
        let ghost all = self.values();
        let mut backwards: Vec<V> = Vec::new();
        while rest.len() > 0
            invariant
                rest.len() + backwards.len() == all.len(),
                forall|j: int| 0 <= j < rest.len() ==> (#[trigger] rest@[j]).1 == all[j],
                forall|j: int|
                    0 <= j < backwards.len() ==> #[trigger] backwards@[j] == all[all.len() - 1 - j],
            decreases rest.len(),
        {
            if let Some((_, v)) = rest.pop() {
                backwards.push(v);
            }
        }
        let mut out: Vec<V> = Vec::new();
        while backwards.len() > 0
            invariant
                backwards.len() + out.len() == all.len(),
                forall|j: int| 0 <= j < out.len() ==> #[trigger] out@[j] == all[j],
                forall|j: int|
                    0 <= j < backwards.len() ==> #[trigger] backwards@[j] == all[all.len() - 1 - j],
            decreases backwards.len(),
        {
            if let Some(v) = backwards.pop() {
                out.push(v);
            }
        }
        assert(out@ =~= all);
        out
    }

    /// The entries whose key and value the predicate accepts.
    pub open spec fn kept(m: Map<K::V, V::V>, p: spec_fn(K::V, V::V) -> bool) -> Map<K::V, V::V> {
        m.restrict(Set::new(|k: K::V| m.contains_key(k) && p(k, m[k])))
    }

    /// Whether some entry has the key and the value.
    pub open spec fn has_entry(&self, k: K::V, v: V) -> bool {
        exists|i: int|
            0 <= i < self.keys().len() && #[trigger] self.keys()[i] == k && self.values()[i] == v
    }

    /// Keeps the entries whose value `f` accepts.
    pub fn retain<F: Fn(&V) -> bool>(&mut self, f: F, Ghost(p): Ghost<spec_fn(V::V) -> bool>)
        requires
            old(self).wf(),
            forall|i: int|
                0 <= i < old(self).values().len() ==> call_requires(
                    f,
                    (&#[trigger] old(self).values()[i],),
                ),
            forall|i: int, b: bool|
                0 <= i < old(self).values().len() && #[trigger] call_ensures(
                    f,
                    (&old(self).values()[i],),
                    b,
                ) ==> b == p(old(self).values()[i]@),
        ensures
            final(self).wf(),
            final(self)@ == Self::kept(old(self)@, |k: K::V, v: V::V| p(v)),
            forall|j: int|
                0 <= j < final(self).values().len() ==> old(self).values().contains(
                    #[trigger] final(self).values()[j],
                ),
            forall|j: int|
                0 <= j < final(self).values().len() ==> old(self).has_entry(
                    final(self).keys()[j],
                    #[trigger] final(self).values()[j],
                ),
    {
        let ghost before = *self;
        let ghost pk = |k: K::V, v: V::V| p(v);
        let mut rest: Vec<(K, V)> = Vec::new();
        std::mem::swap(&mut rest, &mut self.entries);
        let mut out: Table<K, V> = Table::new();
        let ghost n = before.keys().len();
        assert(rest@ =~= before.entries@);
        let ghost total = rest.len();
        while rest.len() > 0
            invariant
                before.wf(),
                n == before.keys().len(),
                total == before.entries@.len(),
                total == n,
                rest.len() <= total,
                rest@ == before.entries@.take(rest.len() as int),
                forall|i: int|
                    0 <= i < before.values().len() ==> call_requires(
                        f,
                        (&#[trigger] before.values()[i],),
                    ),
                forall|i: int, b: bool|
                    0 <= i < before.values().len() && #[trigger] call_ensures(
                        f,
                        (&before.values()[i],),
                        b,
                    ) ==> b == p(before.values()[i]@),
                out.wf(),
                forall|k: K::V| #[trigger]
                    out@.contains_key(k) <==> exists|j: int|
                        rest.len() <= j < n && #[trigger] before.keys()[j] == k && p(
                            before.values()[j]@,
                        ),
                forall|k: K::V| #[trigger] out@.contains_key(k) ==> out@[k] == before@[k],
                forall|j: int|
                    0 <= j < out.values().len() ==> before.values().contains(
                        #[trigger] out.values()[j],
                    ),
                forall|j: int|
                    0 <= j < out.values().len() ==> before.has_entry(
                        out.keys()[j],
                        #[trigger] out.values()[j],
                    ),
            decreases rest.len(),
        {
            let ghost m = rest.len() - 1;
            let e = rest.pop();
            match e {
                None => {},
                Some((k, v)) => {
                    proof {
                        assert(before.entries@[m] == (k, v));
                        assert(before.keys()[m] == k@);
                        assert(before.values()[m] == v);
                        before.lemma_at(m);
                        assert(before.values().contains(v));
                        assert(before.has_entry(k@, v));
                    }
                    let ghost prev = out;
                    if f(&v) {
                        proof {
                            if out@.contains_key(k@) {
                                let j = choose|j: int|
                                    m + 1 <= j < n && #[trigger] before.keys()[j] == k@ && p(
                                        before.values()[j]@,
                                    );
                                assert(before.keys()[j] == before.keys()[m]);
                            }
                        }
                        out.add_new(k, v);
                    }
                    assert(rest@ =~= before.entries@.take(rest.len() as int));
                    assert forall|q: K::V| #[trigger]
                        out@.contains_key(q) <==> exists|j: int|
                            rest.len() <= j < n && #[trigger] before.keys()[j] == q && p(
                                before.values()[j]@,
                            ) by {
                        if out@.contains_key(q) {
                            if prev@.contains_key(q) {
                                let j = choose|j: int|
                                    m + 1 <= j < n && #[trigger] before.keys()[j] == q && p(
                                        before.values()[j]@,
                                    );
                                assert(before.keys()[j] == q);
                            } else {
                                assert(before.keys()[m] == q);
                            }
                        }
                        if exists|j: int|
                            rest.len() <= j < n && #[trigger] before.keys()[j] == q && p(
                                before.values()[j]@,
                            ) {
                            let j = choose|j: int|
                                rest.len() <= j < n && #[trigger] before.keys()[j] == q && p(
                                    before.values()[j]@,
                                );
                            if j > m {
                                assert(prev@.contains_key(q));
                            }
                        }
                    }
                },
            }
        }
        proof {
            assert forall|k: K::V| #[trigger] out@.contains_key(k) <==> Self::kept(
                before@,
                pk,
            ).contains_key(k) by {
                if out@.contains_key(k) {
                    let j = choose|j: int|
                        0 <= j < n && #[trigger] before.keys()[j] == k && p(before.values()[j]@);
                    before.lemma_at(j);
                }
                if before@.contains_key(k) && p(before@[k]) {
                    let j = before.keys().index_of(k);
                    before.lemma_at(j);
                    assert(before.keys()[j] == k);
                }
            }
            assert(out@ =~= Self::kept(before@, pk));
        }
        self.entries = out.entries;
        assert(self.keys() == out.keys() && self.values() == out.values());
    }
}

} // verus!
