//! The kernels for targets with SVE. Counting common bits is left to the
//! portable kernel.

use crate::arch::generic;
use crate::bits::{bits_of, count_true, seq_and, LIMBS};
use vstd::prelude::*;

verus! {

/// The number of positions at which both packed bit vectors have a set bit.
pub fn dot_bool(a: &[u64; LIMBS], b: &[u64; LIMBS]) -> (ones: u16)
    ensures
        ones == count_true(seq_and(bits_of(a@), bits_of(b@))),
        ones <= 12800,
{
    generic::dot_bool(a, b)
}

} // verus!
