//! The kernels for targets with SVE2. They are the portable kernels: the
//! compiler chooses the instructions.

use crate::arch::generic;
use crate::bits::{bits_of, count_true, seq_and, LIMBS};
use crate::ring::ring_dot;
use crate::BITS;
use vstd::prelude::*;

verus! {

/// The number of positions at which both packed bit vectors have a set bit.
pub fn dot_bool(a: &[u64; LIMBS], b: &[u64; LIMBS]) -> (ones: u16)
    ensures
        ones == count_true(seq_and(bits_of(a@), bits_of(b@))),
        ones <= 12800,
{
    generic::dot_bool(a, b)
}

/// The inner product of two vectors modulo 2^16.
pub fn dot_u16(a: &[u16; BITS], b: &[u16; BITS]) -> (product: u16)
    ensures
        product == ring_dot(a@, b@),
{
    generic::dot_u16(a, b)
}

} // verus!
