//! Helpers for laying out the generic parameters of a generated builder.

use vstd::prelude::*;

verus! {

/// What `recollect_without_idx` returns for `x` and `idx`, element by element:
/// `out` holds clones of the elements of `x` in their order, the one at
/// position `idx` left out.
pub open spec fn is_recollection_without<T: Clone>(x: Seq<T>, idx: int, out: Seq<T>) -> bool {
    &&& out.len() == (if 0 <= idx < x.len() { x.len() - 1 } else { x.len() as int })
    &&& forall|j: int| 0 <= j < out.len() && j < idx ==> cloned(x[j], #[trigger] out[j])
    &&& forall|j: int| 0 <= j < out.len() && j >= idx ==> cloned(x[j + 1], #[trigger] out[j])
}

/// Collects clones of every element of `x` but the one at `idx`, keeping the
/// order. With `idx` past the end nothing is left out.
pub fn recollect_without_idx<T: Clone>(x: &[T], idx: usize) -> (v: Vec<T>)
    ensures
        is_recollection_without(x@, idx as int, v@),
{
    let mut v: Vec<T> = Vec::new();
    let mut i: usize = 0;
    while i < x.len()
        invariant
            i <= x.len(),
            v@.len() == (if i <= idx { i as int } else { i - 1 }),
            forall|j: int| 0 <= j < v@.len() && j < idx ==> cloned(x@[j], #[trigger] v@[j]),
            forall|j: int| 0 <= j < v@.len() && j >= idx ==> cloned(x@[j + 1], #[trigger] v@[j]),
        decreases x.len() - i,
    {
        if i != idx {
            let item = x[i].clone();
            v.push(item);
        }
        i += 1;
    }
    v
}

} // verus!
