//! The smallest of a list of numbers.
use vstd::prelude::*;

verus! {

/// Whether the pairs stand in ascending order, by their first parts and then by their
/// second.
pub open spec fn ascending(v: Seq<(u64, u64)>) -> bool {
    forall|i: int, j: int|
        0 <= i < j < v.len() ==> (#[trigger] v[i]).0 < (#[trigger] v[j]).0 || (v[i].0 == v[j].0
            && v[i].1 <= v[j].1)
}

/// `slice::sort_unstable`: the same pairs in ascending order.
#[verifier::external_body]
fn sort_pairs(v: &mut Vec<(u64, u64)>)
    ensures
        final(v)@.to_multiset() == old(v)@.to_multiset(),
        ascending(final(v)@),
{
    v.sort_unstable();
}

/// Whether `picked` are the places of `n` smallest numbers, the smallest first.
pub open spec fn are_smallest(keys: Seq<u64>, n: nat, picked: Seq<usize>) -> bool {
    &&& picked.len() == n
    &&& picked.no_duplicates()
    &&& forall|i: int| 0 <= i < n ==> #[trigger] picked[i] < keys.len()
    &&& forall|i: int, j: int|
        0 <= i < j < n ==> keys[(#[trigger] picked[i]) as int] <= keys[(
        #[trigger] picked[j]) as int]
    &&& forall|i: int, j: usize|
        0 <= i < n && j < keys.len() && !(#[trigger] picked.contains(j))
            ==> keys[(#[trigger] picked[i]) as int] <= keys[j as int]
}

/// The places of the `n` smallest numbers, the smallest first.
pub fn smallest(keys: &Vec<u64>, n: usize) -> (r: Vec<usize>)
    requires
        n <= keys.len(),
    ensures
        are_smallest(keys@, n as nat, r@),
{
    let mut pairs: Vec<(u64, u64)> = Vec::new();
    let mut i: usize = 0;
    while i < keys.len()
        invariant
            i <= keys.len(),
            pairs.len() == i,
            forall|k: int| 0 <= k < i ==> #[trigger] pairs@[k] == (keys@[k], k as u64),
        decreases keys.len() - i,
    {
        pairs.push((keys[i], i as u64));
        i += 1;
    }
    let ghost before = pairs@;
    sort_pairs(&mut pairs);
    let ghost after = pairs@;
    proof {
        before.to_multiset_ensures();
        after.to_multiset_ensures();
        assert(before.no_duplicates());
        before.lemma_multiset_has_no_duplicates();
        after.lemma_multiset_has_no_duplicates_conv();
        assert forall|k: int| 0 <= k < after.len() implies (#[trigger] after[k]).1 < keys.len()
            && after[k].0 == keys@[after[k].1 as int] by {
            assert(after.contains(after[k]));
            assert(after.to_multiset().count(after[k]) > 0);
            assert(before.contains(after[k]));
            let m = before.index_of(after[k]);
            assert(before[m] == after[k]);
        }
    }
    let mut out: Vec<usize> = Vec::new();
    let mut k: usize = 0;
    while k < n
        invariant
            k <= n <= pairs.len(),
            pairs@ == after,
            after.len() == keys.len(),
            forall|m: int|
                0 <= m < after.len() ==> (#[trigger] after[m]).1 < keys.len() && after[m].0
                    == keys@[after[m].1 as int],
            out.len() == k,
            forall|m: int| 0 <= m < k ==> #[trigger] out@[m] == after[m].1,
        decreases n - k,
    {
        out.push(pairs[k].1 as usize);
        k += 1;
    }
    proof {
        assert(out@.no_duplicates()) by {
            assert forall|a: int, b: int|
                0 <= a < out@.len() && 0 <= b < out@.len() && a != b implies out@[a] != out@[b] by {
                assert(after[a] != after[b]);
            }
        }
        assert forall|a: int, j: usize|
            0 <= a < n && j < keys.len() && !(#[trigger] out@.contains(j)) implies keys@[(
        #[trigger] out@[a]) as int] <= keys@[j as int] by {
            let e = (keys@[j as int], j as u64);
            assert(before[j as int] == e);
            assert(before.contains(e));
            assert(before.to_multiset().count(e) > 0);
            assert(after.contains(e));
            let m = after.index_of(e);
            assert(after[m] == e);
            if m < n {
                assert(out@[m] == j);
                assert(out@.contains(j));
            }
            assert(after[a].0 <= after[m].0);
        }
    }
    out
}

} // verus!
