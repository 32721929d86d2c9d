//! Iris templates and their distance in the clear.

use crate::bits::{
    count_true, lemma_count_limb, lemma_limb_bit_and, lemma_limb_bit_xor, limb_bit,
    seq_and, Bits, LIMBS,
};
use crate::fraction::{min_of, Fraction};
use crate::rotation::rotate_seq;
use vstd::prelude::*;

verus! {

/// An iris template: the pattern bits, and the mask that says which of them
/// are valid.
#[derive(Clone, Copy, PartialEq, Eq, PartialOrd, Ord, Debug)]
pub struct Template {
    pub pattern: Bits,
    pub mask: Bits,
}

/// The positions that both masks hold valid and at which the patterns differ.
pub open spec fn unequal_bits(
    pattern_a: Seq<bool>,
    mask_a: Seq<bool>,
    pattern_b: Seq<bool>,
    mask_b: Seq<bool>,
) -> Seq<bool> {
    Seq::new(12800, |i: int| mask_a[i] && mask_b[i] && pattern_a[i] != pattern_b[i])
}

/// The positions that both masks hold valid and at which the patterns agree.
pub open spec fn equal_bits(
    pattern_a: Seq<bool>,
    mask_a: Seq<bool>,
    pattern_b: Seq<bool>,
    mask_b: Seq<bool>,
) -> Seq<bool> {
    Seq::new(12800, |i: int| mask_a[i] && mask_b[i] && pattern_a[i] == pattern_b[i])
}

impl Default for Template {
    fn default() -> (template: Self)
        ensures
            template.pattern@ == Seq::new(12800, |i: int| false),
            template.mask@ == Seq::new(12800, |i: int| false),
    {
        Template { pattern: Bits::default(), mask: Bits::default() }
    }
}

impl Template {
    /// The fractional Hamming distance to `other` as a pair of counts: the
    /// positions valid in both at which the patterns differ, out of the
    /// positions valid in both.
    pub open spec fn hamming(&self, other: &Self) -> Fraction {
        Fraction {
            numerator: count_true(
                unequal_bits(self.pattern@, self.mask@, other.pattern@, other.mask@),
            ) as u16,
            denominator: count_true(seq_and(self.mask@, other.mask@)) as u16,
        }
    }

    /// The distances to `other` of this template rotated by -15 to 15
    /// columns: lane `k` belongs to the rotation by `k - 15`.
    pub open spec fn rotation_lanes(&self, other: &Self) -> Seq<Fraction> {
        Seq::new(
            31,
            |k: int|
                Fraction {
                    numerator: count_true(
                        unequal_bits(
                            rotate_seq(self.pattern@, k - 15),
                            rotate_seq(self.mask@, k - 15),
                            other.pattern@,
                            other.mask@,
                        ),
                    ) as u16,
                    denominator: count_true(
                        seq_and(rotate_seq(self.mask@, k - 15), other.mask@),
                    ) as u16,
                },
        )
    }

    /// A template drawn by the thread's random generator.
    pub fn random() -> (drawn: Self) {
        Template { pattern: Bits::random(), mask: Bits::random() }
    }

    /// Rotates pattern and mask by `amount` columns, in place.
    pub fn rotate(&mut self, amount: i32)
        requires
            -15 <= amount <= 15,
        ensures
            final(self).pattern@ == rotate_seq(old(self).pattern@, amount as int),
            final(self).mask@ == rotate_seq(old(self).mask@, amount as int),
    {
        self.mask.rotate(amount);
        self.pattern.rotate(amount);
    }

    /// A copy with pattern and mask rotated by `amount` columns.
    pub fn rotated(&self, amount: i32) -> (copy: Self)
        requires
            -15 <= amount <= 15,
        ensures
            copy.pattern@ == rotate_seq(self.pattern@, amount as int),
            copy.mask@ == rotate_seq(self.mask@, amount as int),
    {
        let mut copy = *self;
        copy.rotate(amount);
        copy
    }

    /// The smallest fractional Hamming distance to `other` over the
    /// rotations of this template by -15 to 15 columns. `None` where no
    /// rotation leaves a position valid in both.
    pub fn distance(&self, other: &Self) -> (least: Option<Fraction>)
        ensures
            least == min_of(self.rotation_lanes(other), 31),
    {
        let mut least: Option<Fraction> = None;
        let mut r: i32 = -15;
        while r <= 15
            invariant
                -15 <= r <= 16,
                least == min_of(self.rotation_lanes(other), (r + 15) as nat),
            decreases 16 - r,
        {
            let lane = self.rotated(r).fraction_hamming(other);
            assert(lane == self.rotation_lanes(other)[r + 15]);
            least = Fraction::fold_min(least, lane);
            r += 1;
        }
        least
    }

    /// The fractional Hamming distance to `other`: the number of positions
    /// valid in both at which the patterns differ, and the number of
    /// positions valid in both.
    pub fn fraction_hamming(&self, other: &Self) -> (distance: Fraction)
        ensures
            distance == self.hamming(other),
            distance.numerator <= distance.denominator <= 12800,
    {
        let ghost unequal = unequal_bits(self.pattern@, self.mask@, other.pattern@, other.mask@);
        let ghost both = seq_and(self.mask@, other.mask@);
        let mut num: u16 = 0;
        let mut den: u16 = 0;
        let mut i: usize = 0;
        while i < LIMBS
            invariant
                0 <= i <= 200,
                unequal == unequal_bits(self.pattern@, self.mask@, other.pattern@, other.mask@),
                both == seq_and(self.mask@, other.mask@),
                num == count_true(unequal.take(64 * i)),
                den == count_true(both.take(64 * i)),
                num <= den <= 64 * i,
            decreases 200 - i,
        {
            let m = self.mask.0[i] & other.mask.0[i];
            let p = (self.pattern.0[i] ^ other.pattern.0[i]) & m;
            proof {
                let (ap, am) = (self.pattern.0@[i as int], self.mask.0@[i as int]);
                let (bp, bm) = (other.pattern.0@[i as int], other.mask.0@[i as int]);
                assert forall|k: int| 64 * i <= k < 64 * i + 64 implies #[trigger] both[k]
                    == limb_bit(m, (k - 64 * i) as u64) by {
                    assert(k / 64 == i && k % 64 == k - 64 * i);
                    lemma_limb_bit_and(am, bm, (k % 64) as u64);
                }
                assert forall|k: int| 64 * i <= k < 64 * i + 64 implies #[trigger] unequal[k]
                    == limb_bit(p, (k - 64 * i) as u64) by {
                    assert(k / 64 == i && k % 64 == k - 64 * i);
                    lemma_limb_bit_and(am, bm, (k % 64) as u64);
                    lemma_limb_bit_xor(ap, bp, (k % 64) as u64);
                    lemma_limb_bit_and((ap ^ bp) as u64, m, (k % 64) as u64);
                }
                lemma_count_limb(both, i as int, m);
                lemma_count_limb(unequal, i as int, p);
                lemma_submask_ones((ap ^ bp) as u64, m);
            }
            num = num + p.count_ones() as u16;
            den = den + m.count_ones() as u16;
            i += 1;
        }
        assert(unequal.take(12800) =~= unequal);
        assert(both.take(12800) =~= both);
        Fraction { numerator: num, denominator: den }
    }

    /// The 3,200 bytes of the template as it is sent: the pattern, then the
    /// mask.
    pub fn to_bytes(&self) -> (bytes: [u8; 3200])
        ensures
            bytes@ == self.pattern.bytes() + self.mask.bytes(),
    {
        let pattern = self.pattern.to_bytes();
        let mask = self.mask.to_bytes();
        let mut bytes = [0u8; 3200];
        let mut i: usize = 0;
        while i < 1600
            invariant
                0 <= i <= 1600,
                forall|k: int| 0 <= k < i ==> bytes@[k] == pattern@[k],
                forall|k: int| 0 <= k < i ==> bytes@[1600 + k] == mask@[k],
            decreases 1600 - i,
        {
            bytes[i] = pattern[i];
            bytes[1600 + i] = mask[i];
            i += 1;
        }
        assert(bytes@ =~= self.pattern.bytes() + self.mask.bytes());
        bytes
    }

    /// The template that is sent as the given bytes.
    pub fn from_bytes(bytes: &[u8; 3200]) -> (template: Self)
        ensures
            template.pattern.bytes() + template.mask.bytes() == bytes@,
    {
        let mut pattern = [0u8; 1600];
        let mut mask = [0u8; 1600];
        let mut i: usize = 0;
        while i < 1600
            invariant
                0 <= i <= 1600,
                forall|k: int| 0 <= k < i ==> pattern@[k] == bytes@[k],
                forall|k: int| 0 <= k < i ==> mask@[k] == bytes@[1600 + k],
            decreases 1600 - i,
        {
            pattern[i] = bytes[i];
            mask[i] = bytes[1600 + i];
            i += 1;
        }
        let template = Template {
            pattern: Bits::from_bytes(&pattern),
            mask: Bits::from_bytes(&mask),
        };
        assert(template.pattern.bytes() + template.mask.bytes() =~= bytes@);
        template
    }
}

proof fn lemma_submask_low_bits(p: u64, m: u64, n: nat)
    requires
        n <= 64,
        forall|k: u64| k < 64 && #[trigger] limb_bit(p, k) ==> limb_bit(m, k),
    ensures
        crate::bits::count_low_bits(p, n) <= crate::bits::count_low_bits(m, n),
    decreases n,
{
    if n > 0 {
        lemma_submask_low_bits(p, m, (n - 1) as nat);
    }
}

proof fn lemma_and_is_submask(x: u64, m: u64, k: u64)
    by (bit_vector)
    requires
        k < 64,
    ensures
        limb_bit(x & m, k) ==> limb_bit(m, k),
{
}

/// A limb that is masked by `m` has no more bits set than `m`.
proof fn lemma_submask_ones(x: u64, m: u64)
    ensures
        crate::bits::limb_ones(x & m) <= crate::bits::limb_ones(m),
{
    let p = x & m;
    assert forall|k: u64| k < 64 && #[trigger] limb_bit(p, k) implies limb_bit(m, k) by {
        lemma_and_is_submask(x, m, k);
    }
    lemma_submask_low_bits(p, m, 64);
}

} // verus!
