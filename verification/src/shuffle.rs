//! Random orders in which validators are asked.

use rand::seq::SliceRandom;
use vstd::prelude::*;

verus! {

/// The indices `0, 1, .., n - 1` in rising order.
pub open spec fn index_range(n: nat) -> Seq<u32> {
    Seq::new(n, |i: int| i as u32)
}

/// `a` holds exactly the items of `b`, each as often, in some order.
pub open spec fn is_permutation(a: Seq<u32>, b: Seq<u32>) -> bool {
    a.to_multiset() == b.to_multiset()
}

/// Calls `rand::seq::SliceRandom::shuffle` on the items of `v` with the
/// thread's generator. Trusted: the items are reordered in place, none is
/// added, dropped or changed. Which order comes out is left open.
#[verifier::external_body]
pub(crate) fn shuffle_in_place(v: &mut Vec<u32>)
    ensures
        is_permutation(final(v)@, old(v)@),
{
    v.shuffle(&mut rand::thread_rng());
}

/// A reordering of a sequence without duplicates has none either, and holds
/// the same items.
pub proof fn lemma_permutation_keeps_distinct(a: Seq<u32>, b: Seq<u32>)
    requires
        is_permutation(a, b),
        b.no_duplicates(),
    ensures
        a.no_duplicates(),
        a.len() == b.len(),
        forall|x: u32| a.contains(x) <==> b.contains(x),
{
    a.to_multiset_ensures();
    b.to_multiset_ensures();
    b.lemma_multiset_has_no_duplicates();
    a.lemma_multiset_has_no_duplicates_conv();
    assert forall|x: u32| a.contains(x) <==> b.contains(x) by {
        assert(a.contains(x) <==> a.to_multiset().count(x) > 0);
        assert(b.contains(x) <==> b.to_multiset().count(x) > 0);
    }
}

/// A reordering of a sequence whose items lie below `bound` holds only items
/// below `bound`.
pub proof fn lemma_permutation_keeps_bound(a: Seq<u32>, b: Seq<u32>, bound: nat)
    requires
        is_permutation(a, b),
        forall|i: int| 0 <= i < b.len() ==> b[i] < bound,
    ensures
        forall|i: int| 0 <= i < a.len() ==> a[i] < bound,
{
    a.to_multiset_ensures();
    b.to_multiset_ensures();
    assert forall|i: int| 0 <= i < a.len() implies a[i] < bound by {
        assert(a.contains(a[i]));
        assert(b.to_multiset().count(a[i]) > 0);
        assert(b.contains(a[i]));
        let k = b.index_of(a[i]);
        assert(b[k] == a[i]);
    }
}

/// The validator indices `0 .. n` in rising order.
pub fn ascending_indices(n: u32) -> (v: Vec<u32>)
    ensures
        v@ == index_range(n as nat),
{
    let mut v: Vec<u32> = Vec::new();
    let mut i: u32 = 0;
    while i < n
        invariant
            i <= n,
            v@ == index_range(i as nat),
        decreases n - i,
    {
        v.push(i);
        i += 1;
        assert(v@ =~= index_range(i as nat));
    }
    v
}

/// The validator indices `0 .. n` in a random order.
pub fn shuffled_indices(n: u32) -> (v: Vec<u32>)
    ensures
        is_permutation(v@, index_range(n as nat)),
        v@.no_duplicates(),
        v@.len() == n,
        forall|x: u32| v@.contains(x) <==> x < n,
{
    let mut v = ascending_indices(n);
    shuffle_in_place(&mut v);
    proof {
        let r = index_range(n as nat);
        assert(r.no_duplicates());
        lemma_permutation_keeps_distinct(v@, r);
        assert forall|x: u32| r.contains(x) <==> x < n by {
            if x < n {
                assert(r[x as int] == x);
            }
        }
    }
    v
}

} // verus!
