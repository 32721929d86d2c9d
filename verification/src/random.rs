//! The source of randomness.

use vstd::prelude::*;

verus! {

/// `rand::RngCore::fill_bytes` on the generator that `rand::thread_rng`
/// hands out: `len` bytes drawn by the thread's generator. Only their number
/// is claimed. The call fails only where the generator cannot be seeded.
#[verifier::external_body]
pub(crate) fn random_bytes(len: usize) -> (bytes: Vec<u8>)
    ensures
        bytes@.len() == len,
{
    let mut bytes = vec![0u8; len];
    rand::RngCore::fill_bytes(&mut rand::thread_rng(), &mut bytes);
    bytes
}

} // verus!
