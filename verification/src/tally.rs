//! Sums and counts over the entries of a map.
use vstd::prelude::*;
use vstd::set::fold::{is_fun_commutative, lemma_fold_empty, lemma_fold_insert};

verus! {

/// Whether `ks` lists the keys of a map, each once.
pub open spec fn lists<K, V>(ks: Seq<K>, m: Map<K, V>) -> bool {
    ks.no_duplicates() && ks.to_set() == m.dom()
}

/// The sum of a number over the values of a map.
pub open spec fn map_sum<K, V>(m: Map<K, V>, f: spec_fn(V) -> nat) -> nat {
    m.dom().fold(0nat, |n: nat, k: K| n + f(m[k]))
}

/// How many values of a map are such.
pub open spec fn map_count<K, V>(m: Map<K, V>, p: spec_fn(V) -> bool) -> nat {
    m.dom().filter(|k: K| p(m[k])).len()
}

/// The sum of a number over the values of listed keys.
pub open spec fn list_sum<K, V>(
    m: Map<K, V>,
    ks: Seq<K>,
    f: spec_fn(V) -> nat,
) -> nat
    decreases ks.len(),
{
    if ks.len() == 0 {
        0
    } else {
        list_sum(m, ks.drop_last(), f) + f(m[ks.last()])
    }
}

/// How many values of listed keys are such.
pub open spec fn list_count<K, V>(
    m: Map<K, V>,
    ks: Seq<K>,
    p: spec_fn(V) -> bool,
) -> nat
    decreases ks.len(),
{
    if ks.len() == 0 {
        0
    } else {
        list_count(m, ks.drop_last(), p) + (if p(m[ks.last()]) {
            1nat
        } else {
            0nat
        })
    }
}

/// The set of a list without repetition is that of its front with its last value, which
/// the front does not hold.
proof fn lemma_front<K>(ks: Seq<K>)
    requires
        ks.no_duplicates(),
        ks.len() > 0,
    ensures
        ks.drop_last().no_duplicates(),
        ks.to_set() == ks.drop_last().to_set().insert(ks.last()),
        !ks.drop_last().to_set().contains(ks.last()),
{
    let front = ks.drop_last();
    let last = ks.last();
    if front.contains(last) {
        let i = front.index_of(last);
        assert(ks[i] == ks[ks.len() - 1]);
    }
    assert forall|x: K| ks.to_set().contains(x) <==> front.to_set().insert(last).contains(
        x,
    ) by {
        if ks.contains(x) {
            let i = ks.index_of(x);
            if i < front.len() {
                assert(front[i] == x);
            }
        }
        if front.contains(x) {
            let i = front.index_of(x);
            assert(ks[i] == x);
        }
        if x == last {
            assert(ks[ks.len() - 1] == x);
        }
    }
    assert(ks.to_set() =~= front.to_set().insert(last));
}

/// The sum over a list of the keys, each once, is the sum over the map.
pub proof fn lemma_sum<K, V>(m: Map<K, V>, ks: Seq<K>, f: spec_fn(V) -> nat)
    requires
        lists(ks, m),
    ensures
        map_sum(m, f) == list_sum(m, ks, f),
{
    lemma_sum_set(m, ks, f);
}

proof fn lemma_sum_set<K, V>(m: Map<K, V>, ks: Seq<K>, f: spec_fn(V) -> nat)
    requires
        ks.no_duplicates(),
    ensures
        ks.to_set().fold(0nat, |n: nat, k: K| n + f(m[k])) == list_sum(m, ks, f),
    decreases ks.len(),
{
    let g = |n: nat, k: K| n + f(m[k]);
    if ks.len() == 0 {
        assert(ks.to_set() =~= Set::empty());
        lemma_fold_empty(0nat, g);
    } else {
        let front = ks.drop_last();
        lemma_front(ks);
        lemma_sum_set(m, front, f);
        front.unique_seq_to_set();
        assert(is_fun_commutative(g));
        lemma_fold_insert(front.to_set(), 0nat, g, ks.last());
    }
}

/// The count over a list of the keys, each once, is the count over the map.
pub proof fn lemma_count<K, V>(m: Map<K, V>, ks: Seq<K>, p: spec_fn(V) -> bool)
    requires
        lists(ks, m),
    ensures
        map_count(m, p) == list_count(m, ks, p),
        list_count(m, ks, p) <= ks.len(),
{
    lemma_count_set(m, ks, p);
}

proof fn lemma_count_set<K, V>(m: Map<K, V>, ks: Seq<K>, p: spec_fn(V) -> bool)
    requires
        ks.no_duplicates(),
    ensures
        ks.to_set().filter(|k: K| p(m[k])).len() == list_count(m, ks, p),
        list_count(m, ks, p) <= ks.len(),
    decreases ks.len(),
{
    let q = |k: K| p(m[k]);
    if ks.len() == 0 {
        assert(ks.to_set().filter(q) =~= Set::empty());
    } else {
        let front = ks.drop_last();
        let last = ks.last();
        lemma_front(ks);
        lemma_count_set(m, front, p);
        front.unique_seq_to_set();
        let before = front.to_set().filter(q);
        if p(m[last]) {
            assert(ks.to_set().filter(q) =~= before.insert(last));
        } else {
            assert(ks.to_set().filter(q) =~= before);
        }
    }
}

/// Two sums over the same keys are the same if their parts are.
pub proof fn lemma_same_sum<K, V>(
    s: Set<K>,
    m1: Map<K, V>,
    m2: Map<K, V>,
    f1: spec_fn(V) -> nat,
    f2: spec_fn(V) -> nat,
)
    requires
        s.finite(),
        forall|k: K| #[trigger] s.contains(k) ==> f1(m1[k]) == f2(m2[k]),
    ensures
        s.fold(0nat, |n: nat, k: K| n + f1(m1[k])) == s.fold(0nat, |n: nat, k: K| n + f2(m2[k])),
    decreases s.len(),
{
    let g1 = |n: nat, k: K| n + f1(m1[k]);
    let g2 = |n: nat, k: K| n + f2(m2[k]);
    if s.len() == 0 {
        assert(s =~= Set::empty());
        lemma_fold_empty(0nat, g1);
        lemma_fold_empty(0nat, g2);
    } else {
        let a = s.choose();
        let rest = s.remove(a);
        assert(s =~= rest.insert(a));
        lemma_same_sum(rest, m1, m2, f1, f2);
        assert(is_fun_commutative(g1));
        assert(is_fun_commutative(g2));
        lemma_fold_insert(rest, 0nat, g1, a);
        lemma_fold_insert(rest, 0nat, g2, a);
    }
}

/// The sum over a map is that over the rest of it and one value.
pub proof fn lemma_sum_split<K, V>(m: Map<K, V>, k: K, f: spec_fn(V) -> nat)
    requires
        m.dom().finite(),
        m.contains_key(k),
    ensures
        map_sum(m, f) == map_sum(m.remove(k), f) + f(m[k]),
{
    let rest = m.dom().remove(k);
    let g = |n: nat, q: K| n + f(m[q]);
    assert(m.dom() =~= rest.insert(k));
    assert(m.remove(k).dom() =~= rest);
    assert(is_fun_commutative(g));
    lemma_fold_insert(rest, 0nat, g, k);
    lemma_same_sum(rest, m, m.remove(k), f, f);
}

/// The sum over a map in which a key was given a value.
pub proof fn lemma_sum_insert<K, V>(m: Map<K, V>, k: K, v: V, f: spec_fn(V) -> nat)
    requires
        m.dom().finite(),
    ensures
        map_sum(m.insert(k, v), f) == map_sum(m.remove(k), f) + f(v),
        !m.contains_key(k) ==> map_sum(m.remove(k), f) == map_sum(m, f),
        m.contains_key(k) ==> map_sum(m, f) == map_sum(m.remove(k), f) + f(m[k]),
{
    lemma_sum_split(m.insert(k, v), k, f);
    assert(m.insert(k, v).remove(k) =~= m.remove(k));
    if m.contains_key(k) {
        lemma_sum_split(m, k, f);
    } else {
        assert(m.remove(k) =~= m);
    }
}

/// An entry more counts once, if it passes.
pub proof fn lemma_count_insert<K, V>(m: Map<K, V>, k: K, v: V, p: spec_fn(V) -> bool)
    requires
        m.dom().finite(),
        !m.contains_key(k),
    ensures
        map_count(m.insert(k, v), p) == map_count(m, p) + (if p(v) {
            1int
        } else {
            0
        }),
{
    let before = m.dom().filter(|q: K| p(m[q]));
    let n = m.insert(k, v);
    let after = n.dom().filter(|q: K| p(n[q]));
    assert(before.finite()) by {
        vstd::set_lib::lemma_set_subset_finite(m.dom(), before);
    }
    if p(v) {
        assert(after =~= before.insert(k));
    } else {
        assert(after =~= before);
    }
}

} // verus!
