//! The plainest way to the numerators and denominators of a query: rotate
//! the query anew for every entry and every rotation.

use crate::bits::{count_true, seq_and, Bits};
use crate::encoded_bits::EncodedBits;
use crate::ring::ring_dot;
use crate::rotation::rotate_seq;
use crate::{mask_denominators, numerators};
use vstd::prelude::*;

verus! {

/// The 31 numerators of the query against every entry of `db`, in the order
/// of the entries.
pub fn distances(query: &EncodedBits, db: &[EncodedBits]) -> (result: Vec<[u16; 31]>)
    ensures
        result@.len() == db@.len(),
        forall|i: int|
            0 <= i < db@.len() ==> (#[trigger] result@[i])@ == numerators(query@, db@[i]@),
{
    let mut result: Vec<[u16; 31]> = Vec::with_capacity(db.len());
    let mut i: usize = 0;
    while i < db.len()
        invariant
            0 <= i <= db@.len(),
            result@.len() == i,
            forall|j: int| 0 <= j < i ==> (#[trigger] result@[j])@ == numerators(query@, db@[j]@),
        decreases db@.len() - i,
    {
        let entry = &db[i];
        let mut lanes = [0u16; 31];
        let mut r: i32 = -15;
        while r <= 15
            invariant
                -15 <= r <= 16,
                forall|k: int|
                    0 <= k < r + 15 ==> lanes@[k] == ring_dot(rotate_seq(query@, k - 15), entry@),
            decreases 16 - r,
        {
            lanes[(r + 15) as usize] = query.rotated(r).dot(entry);
            r += 1;
        }
        assert(lanes@ =~= numerators(query@, entry@));
        result.push(lanes);
        i += 1;
    }
    result
}

/// The 31 denominators of the query mask against every entry mask of `db`,
/// in the order of the entries.
pub fn denominators(query: &Bits, db: &[Bits]) -> (result: Vec<[u16; 31]>)
    ensures
        result@.len() == db@.len(),
        forall|i: int|
            0 <= i < db@.len() ==> (#[trigger] result@[i])@ == mask_denominators(
                query@,
                db@[i]@,
            ),
{
    let mut result: Vec<[u16; 31]> = Vec::with_capacity(db.len());
    let mut i: usize = 0;
    while i < db.len()
        invariant
            0 <= i <= db@.len(),
            result@.len() == i,
            forall|j: int|
                0 <= j < i ==> (#[trigger] result@[j])@ == mask_denominators(query@, db@[j]@),
        decreases db@.len() - i,
    {
        let entry = &db[i];
        let mut lanes = [0u16; 31];
        let mut r: i32 = -15;
        while r <= 15
            invariant
                -15 <= r <= 16,
                forall|k: int|
                    0 <= k < r + 15 ==> lanes@[k] == count_true(
                        seq_and(rotate_seq(query@, k - 15), entry@),
                    ),
            decreases 16 - r,
        {
            lanes[(r + 15) as usize] = query.rotated(r).dot(entry);
            r += 1;
        }
        assert(lanes@ =~= mask_denominators(query@, entry@));
        result.push(lanes);
        i += 1;
    }
    result
}

} // verus!
