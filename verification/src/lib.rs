//! Rotation-invariant fractional Hamming distances between iris templates,
//! computed on additive secret shares modulo 2^16.
//!
//! A template is a pattern and a mask of 12,800 bits each, laid out as 64
//! rows of 200 columns. Its encoding holds, for every position, one where the
//! mask is set and the pattern clear, minus one where both are set, and zero
//! where the mask is clear. The inner product of two encodings is then the
//! number of equal bits minus the number of unequal bits over the positions
//! that both masks hold valid, and it can be computed share by share: the
//! inner products of a query with the additive shares of an entry sum to the
//! inner product with the entry.
//!
//! A rotation by `r` moves every element `r` columns toward higher column
//! indices inside its row and wraps at column 200. The distance between two
//! templates is the smallest fractional Hamming distance over the rotations
//! of the first by -15 to 15 columns.

use crate::bits::{count_true, seq_and};
use crate::fraction::min_of;
use crate::ring::{reduce, ring_dot};
use crate::rotation::{lemma_rotate_seq_zero, rotate_seq};
use vstd::prelude::*;

pub mod arch;
pub mod bits;
pub mod codec;
pub mod dotprod;
pub mod encoded_bits;
pub mod fraction;
pub mod laws;
pub mod protocol;
mod random;
pub mod ring;
pub mod rotation;
pub mod secret_bits;
pub mod template;

pub use crate::bits::Bits;
pub use crate::encoded_bits::EncodedBits;
pub use crate::fraction::Fraction;
pub use crate::secret_bits::SecretBits;
pub use crate::template::Template;

verus! {

/// Columns in one row of a code.
pub const COLS: usize = 200;

/// Rows of a code.
pub const ROWS: usize = 64;

/// Bits in a code: `ROWS * COLS`.
pub const BITS: usize = 12800;

/// The word that encodes one position of a template: zero where the mask
/// is clear, one where the mask is set and the pattern clear, and 0xffff,
/// which is minus one modulo 2^16, where both are set.
pub open spec fn encoded_word(pattern: bool, mask: bool) -> u16 {
    if !mask {
        0
    } else if pattern {
        0xffff
    } else {
        1
    }
}

/// The encoding of a template with the given pattern and mask bits.
pub open spec fn encoding(pattern: Seq<bool>, mask: Seq<bool>) -> Seq<u16> {
    Seq::new(12800, |i: int| encoded_word(pattern[i], mask[i]))
}

/// The 31 numerators of a query against an entry: lane `k` is the inner
/// product modulo 2^16 of the query rotated by `k - 15` columns with the
/// entry.
pub open spec fn numerators(query: Seq<u16>, entry: Seq<u16>) -> Seq<u16> {
    Seq::new(31, |k: int| ring_dot(rotate_seq(query, k - 15), entry))
}

/// The 31 denominators of a query mask against an entry mask: lane `k` is
/// the number of positions set in both the query mask rotated by `k - 15`
/// columns and the entry mask.
pub open spec fn mask_denominators(query: Seq<bool>, entry: Seq<bool>) -> Seq<u16> {
    Seq::new(31, |k: int| count_true(seq_and(rotate_seq(query, k - 15), entry)) as u16)
}

/// The distance that a lane decodes to: the unequal bits are half of the
/// denominator minus the numerator, taken modulo 2^16.
pub open spec fn decoded_lane(numerator: u16, denominator: u16) -> Fraction {
    Fraction { numerator: (reduce(denominator - numerator) / 2) as u16, denominator }
}

/// The distances that 31 numerators and denominators decode to.
pub open spec fn decoded_lanes(numerators: Seq<u16>, denominators: Seq<u16>) -> Seq<Fraction> {
    Seq::new(31, |k: int| decoded_lane(numerators[k], denominators[k]))
}

/// Whether a lane is consistent: the denominator minus the numerator,
/// modulo 2^16, is even, and its half is no more than the denominator.
pub open spec fn lane_consistent(numerator: u16, denominator: u16) -> bool {
    reduce(denominator - numerator) % 2 == 0 && reduce(denominator - numerator) / 2 <= denominator
}

/// Encodes a template: one where the mask is set and the pattern clear,
/// minus one where both are set, zero where the mask is clear.
pub fn encode(template: &Template) -> (encoded: EncodedBits)
    ensures
        encoded@ == encoding(template.pattern@, template.mask@),
{
    // Masked-out pattern bits count as clear.
    let pattern = template.pattern.bitand(&template.mask);

    let pattern = EncodedBits::from(&pattern);
    let mask = EncodedBits::from(&template.mask);

    // mask - 2 * pattern
    let encoded = mask.sub(&pattern).sub(&pattern);
    assert(encoded@ =~= encoding(template.pattern@, template.mask@));
    encoded
}

/// A query with its 31 rotations, ready to be multiplied with entries.
pub struct DistanceEngine {
    rotations: Vec<EncodedBits>,
}

impl DistanceEngine {
    /// The query that the engine was made for.
    pub closed spec fn query(&self) -> Seq<u16> {
        self.rotations@[15]@
    }

    /// The engine holds the 31 rotations of its query, by -15 to 15 columns.
    pub closed spec fn wf(&self) -> bool {
        &&& self.rotations@.len() == 31
        &&& forall|k: int|
            0 <= k < 31 ==> (#[trigger] self.rotations@[k])@ == rotate_seq(self.query(), k - 15)
    }

    /// Rotates the query by -15 to 15 columns, once for all entries.
    pub fn new(query: &EncodedBits) -> (engine: Self)
        ensures
            engine.wf(),
            engine.query() == query@,
    {
        let mut rotations: Vec<EncodedBits> = Vec::with_capacity(31);
        let mut r: i32 = -15;
        while r <= 15
            invariant
                -15 <= r <= 16,
                rotations@.len() == r + 15,
                forall|k: int|
                    0 <= k < r + 15 ==> (#[trigger] rotations@[k])@ == rotate_seq(query@, k - 15),
            decreases 16 - r,
        {
            rotations.push(query.rotated(r));
            r += 1;
        }
        proof {
            lemma_rotate_seq_zero(query@);
        }
        Self { rotations }
    }

    /// The 31 numerators of the query against one entry.
    pub fn process(&self, entry: &EncodedBits) -> (lanes: [u16; 31])
        requires
            self.wf(),
        ensures
            lanes@ == numerators(self.query(), entry@),
    {
        let mut lanes = [0u16; 31];
        let mut k: usize = 0;
        while k < 31
            invariant
                0 <= k <= 31,
                self.wf(),
                forall|j: int|
                    0 <= j < k ==> lanes@[j] == ring_dot(rotate_seq(self.query(), j - 15), entry@),
            decreases 31 - k,
        {
            lanes[k] = self.rotations[k].dot(entry);
            k += 1;
        }
        assert(lanes@ =~= numerators(self.query(), entry@));
        lanes
    }

    /// The numerators of the query against every entry of `db`: `out[i]`
    /// receives those against `db[i]`.
    pub fn batch_process(&self, out: &mut [[u16; 31]], db: &[EncodedBits])
        requires
            self.wf(),
            old(out)@.len() == db@.len(),
        ensures
            final(out)@.len() == db@.len(),
            forall|i: int|
                0 <= i < db@.len() ==> (#[trigger] final(out)@[i])@ == numerators(
                    self.query(),
                    db@[i]@,
                ),
    {
        let n = db.len();
        let mut i: usize = 0;
        while i < n
            invariant
                0 <= i <= n,
                n == db@.len(),
                out@.len() == n,
                self.wf(),
                forall|j: int|
                    0 <= j < i ==> (#[trigger] out@[j])@ == numerators(self.query(), db@[j]@),
            decreases n - i,
        {
            out[i] = self.process(&db[i]);
            i += 1;
        }
    }
}

/// A query mask with its 31 rotations, ready to be counted against entry
/// masks.
pub struct MasksEngine {
    rotations: Vec<Bits>,
}

impl MasksEngine {
    /// The query mask that the engine was made for.
    pub closed spec fn query(&self) -> Seq<bool> {
        self.rotations@[15]@
    }

    /// The engine holds the 31 rotations of its query mask, by -15 to 15
    /// columns.
    pub closed spec fn wf(&self) -> bool {
        &&& self.rotations@.len() == 31
        &&& forall|k: int|
            0 <= k < 31 ==> (#[trigger] self.rotations@[k])@ == rotate_seq(self.query(), k - 15)
    }

    /// Rotates the query mask by -15 to 15 columns, once for all entries.
    pub fn new(query: &Bits) -> (engine: Self)
        ensures
            engine.wf(),
            engine.query() == query@,
    {
        let mut rotations: Vec<Bits> = Vec::with_capacity(31);
        let mut r: i32 = -15;
        while r <= 15
            invariant
                -15 <= r <= 16,
                rotations@.len() == r + 15,
                forall|k: int|
                    0 <= k < r + 15 ==> (#[trigger] rotations@[k])@ == rotate_seq(query@, k - 15),
            decreases 16 - r,
        {
            rotations.push(query.rotated(r));
            r += 1;
        }
        proof {
            lemma_rotate_seq_zero(query@);
        }
        Self { rotations }
    }

    /// The 31 denominators of the query mask against one entry mask.
    pub fn process(&self, entry: &Bits) -> (lanes: [u16; 31])
        requires
            self.wf(),
        ensures
            lanes@ == mask_denominators(self.query(), entry@),
    {
        let mut lanes = [0u16; 31];
        let mut k: usize = 0;
        while k < 31
            invariant
                0 <= k <= 31,
                self.wf(),
                forall|j: int|
                    0 <= j < k ==> lanes@[j] == count_true(
                        seq_and(rotate_seq(self.query(), j - 15), entry@),
                    ),
            decreases 31 - k,
        {
            lanes[k] = self.rotations[k].dot(entry);
            k += 1;
        }
        assert(lanes@ =~= mask_denominators(self.query(), entry@));
        lanes
    }

    /// The denominators of the query mask against every entry of `db`:
    /// `out[i]` receives those against `db[i]`.
    pub fn batch_process(&self, out: &mut [[u16; 31]], db: &[Bits])
        requires
            self.wf(),
            old(out)@.len() == db@.len(),
        ensures
            final(out)@.len() == db@.len(),
            forall|i: int|
                0 <= i < db@.len() ==> (#[trigger] final(out)@[i])@ == mask_denominators(
                    self.query(),
                    db@[i]@,
                ),
    {
        let n = db.len();
        let mut i: usize = 0;
        while i < n
            invariant
                0 <= i <= n,
                n == db@.len(),
                out@.len() == n,
                self.wf(),
                forall|j: int|
                    0 <= j < i ==> (#[trigger] out@[j])@ == mask_denominators(
                        self.query(),
                        db@[j]@,
                    ),
            decreases n - i,
        {
            out[i] = self.process(&db[i]);
            i += 1;
        }
    }
}

/// The 31 numerators of an encoded query against one encoded entry.
pub fn distances(query: &EncodedBits, entry: &EncodedBits) -> (lanes: [u16; 31])
    ensures
        lanes@ == numerators(query@, entry@),
{
    let engine = DistanceEngine::new(query);
    engine.process(entry)
}

/// The 31 denominators of a query mask against one entry mask.
pub fn denominators(query: &Bits, entry: &Bits) -> (lanes: [u16; 31])
    ensures
        lanes@ == mask_denominators(query@, entry@),
{
    let engine = MasksEngine::new(query);
    engine.process(entry)
}

/// Decodes 31 numerators and denominators and takes the smallest distance
/// over the rotations. `None` where every denominator is zero.
pub fn decode_distance(distances: &[u16; 31], denominators: &[u16; 31]) -> (least: Option<
    Fraction,
>)
    ensures
        least == min_of(decoded_lanes(distances@, denominators@), 31),
{
    let mut least: Option<Fraction> = None;
    let mut k: usize = 0;
    while k < 31
        invariant
            0 <= k <= 31,
            least == min_of(decoded_lanes(distances@, denominators@), k as nat),
        decreases 31 - k,
    {
        let n = distances[k];
        let d = denominators[k];
        let lane = Fraction { numerator: d.wrapping_sub(n) / 2, denominator: d };
        assert(lane == decoded_lanes(distances@, denominators@)[k as int]);
        least = Fraction::fold_min(least, lane);
        k += 1;
    }
    least
}

} // verus!
