//! Constructors for zero-filled count vectors.

use vstd::prelude::*;

verus! {

/// Creates a vector of `size` signed zeros.
pub fn zeros_i32(size: usize) -> (v: Vec<i32>)
    ensures
        v@ == Seq::new(size as nat, |i: int| 0i32),
{
    let mut v: Vec<i32> = Vec::new();
    while v.len() < size
        invariant
            v.len() <= size,
            v@ == Seq::new(v.len() as nat, |i: int| 0i32),
        decreases size - v.len(),
    {
        v.push(0);
        assert(v@ =~= Seq::new(v.len() as nat, |i: int| 0i32));
    }
    v
}

/// Creates a vector of `size` unsigned zeros.
pub fn zeros_u32(size: usize) -> (v: Vec<u32>)
    ensures
        v@ == Seq::new(size as nat, |i: int| 0u32),
{
    let mut v: Vec<u32> = Vec::new();
    while v.len() < size
        invariant
            v.len() <= size,
            v@ == Seq::new(v.len() as nat, |i: int| 0u32),
        decreases size - v.len(),
    {
        v.push(0);
        assert(v@ =~= Seq::new(v.len() as nat, |i: int| 0u32));
    }
    v
}

} // verus!
