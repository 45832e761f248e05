//! Operations on row-index lists.
use vstd::prelude::*;

verus! {

/// The identity index list `[0, 1, ..., n - 1]`.
pub fn identity_indices(n: usize) -> (r: Vec<u32>)
    requires
        n <= u32::MAX as usize + 1,
    ensures
        r@.len() == n,
        forall|i: int| 0 <= i < n ==> r@[i] == i,
{
    let mut v: Vec<u32> = Vec::with_capacity(n);
    let mut i: usize = 0;
    while i < n
        invariant
            i <= n,
            n <= u32::MAX as usize + 1,
            v@.len() == i,
            forall|k: int| 0 <= k < i ==> v@[k] == k,
        decreases n - i,
    {
        v.push(i as u32);
        i = i + 1;
    }
    v
}

} // verus!
