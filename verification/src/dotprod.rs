//! The inner product that every kernel is measured against.

use crate::ring::{dot_to, lemma_accumulate_product, reduce, ring_dot};
use vstd::prelude::*;

verus! {

/// Elements in one vector.
pub const N: usize = 12800;

/// The inner product of two vectors modulo 2^16.
pub fn dot_ref(a: &[u16; N], b: &[u16; N]) -> (sum: u16)
    ensures
        sum == ring_dot(a@, b@),
{
    let mut sum: u16 = 0;
    let mut i: usize = 0;
    while i < N
        invariant
            0 <= i <= 12800,
            sum == reduce(dot_to(a@, b@, i as nat)),
        decreases 12800 - i,
    {
        proof {
            lemma_accumulate_product(dot_to(a@, b@, i as nat), a@[i as int], b@[i as int]);
        }
        sum = sum.wrapping_add(a[i].wrapping_mul(b[i]));
        i += 1;
    }
    sum
}

} // verus!
