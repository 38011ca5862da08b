//! Small checks on lists of validator positions.

use vstd::prelude::*;

verus! {

/// No item of `a` is an item of `b`.
pub open spec fn are_disjoint(a: Seq<u32>, b: Seq<u32>) -> bool {
    forall|i: int, j: int| 0 <= i < a.len() && 0 <= j < b.len() ==> a[i] != b[j]
}

/// A copy of `v`.
pub fn copy_indices(v: &Vec<u32>) -> (out: Vec<u32>)
    ensures
        out@ == v@,
{
    let mut out: Vec<u32> = Vec::new();
    let mut i: usize = 0;
    while i < v.len()
        invariant
            i <= v.len(),
            out@ == v@.subrange(0, i as int),
        decreases v.len() - i,
    {
        out.push(v[i]);
        i += 1;
        assert(out@ =~= v@.subrange(0, i as int));
    }
    assert(out@ =~= v@);
    out
}

/// Whether every item of `v` is below `bound`.
pub fn all_below(v: &Vec<u32>, bound: usize) -> (below: bool)
    ensures
        below == forall|i: int| 0 <= i < v@.len() ==> v@[i] < bound,
{
    let mut i: usize = 0;
    while i < v.len()
        invariant
            i <= v.len(),
            forall|j: int| 0 <= j < i ==> v@[j] < bound,
        decreases v.len() - i,
    {
        if v[i] as usize >= bound {
            return false;
        }
        i += 1;
    }
    true
}

/// Whether `x` is among the first `upto` items of `v`.
pub fn occurs_before(v: &Vec<u32>, upto: usize, x: u32) -> (occurs: bool)
    requires
        upto <= v@.len(),
    ensures
        occurs == exists|j: int| 0 <= j < upto && v@[j] == x,
{
    let mut j: usize = 0;
    while j < upto
        invariant
            j <= upto <= v@.len(),
            forall|k: int| 0 <= k < j ==> v@[k] != x,
        decreases upto - j,
    {
        if v[j] == x {
            return true;
        }
        j += 1;
    }
    false
}

/// Whether no item occurs twice in `v`.
pub fn is_distinct(v: &Vec<u32>) -> (distinct: bool)
    ensures
        distinct == v@.no_duplicates(),
{
    let mut i: usize = 0;
    while i < v.len()
        invariant
            i <= v.len(),
            forall|a: int, b: int| 0 <= a < b < i ==> v@[a] != v@[b],
        decreases v.len() - i,
    {
        if occurs_before(v, i, v[i]) {
            return false;
        }
        i += 1;
    }
    true
}

/// Whether `a` and `b` have no item in common.
pub fn is_disjoint(a: &Vec<u32>, b: &Vec<u32>) -> (disjoint: bool)
    ensures
        disjoint == are_disjoint(a@, b@),
{
    let mut i: usize = 0;
    while i < a.len()
        invariant
            i <= a.len(),
            forall|k: int, j: int| 0 <= k < i && 0 <= j < b@.len() ==> a@[k] != b@[j],
        decreases a.len() - i,
    {
        if occurs_before(b, b.len(), a[i]) {
            return false;
        }
        i += 1;
    }
    true
}

} // verus!
