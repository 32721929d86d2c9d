//! Secret codes: vectors of 12,800 integers modulo 2^16 that only ever
//! leave their holder as shares.

use crate::arch::dot_u16;
use crate::bits::Bits;
use crate::ring::{
    add_words, bits_as_words, mul_words, neg_words, random_words, ring_add, ring_dot, ring_mul,
    ring_neg, ring_sub, ring_sum, ring_zero, rotate_words, sub_words, sum_words, vectors_sum,
    words_bytes, words_from_bytes, words_to_bytes,
};
use crate::rotation::rotate_seq;
use crate::BITS;
use vstd::prelude::*;

verus! {

/// A vector of 12,800 integers modulo 2^16, laid out as 64 rows of 200
/// columns. It holds a secret, or one additive share of it.
#[derive(Clone, Copy, PartialEq, Eq, PartialOrd, Ord, Debug)]
pub struct SecretBits(pub [u16; BITS]);

impl View for SecretBits {
    type V = Seq<u16>;

    open spec fn view(&self) -> Seq<u16> {
        self.0@
    }
}

impl Default for SecretBits {
    fn default() -> (zero: Self)
        ensures
            zero@ == ring_zero(12800),
    {
        let zero = SecretBits([0u16; BITS]);
        assert(zero@ =~= ring_zero(12800));
        zero
    }
}

impl SecretBits {
    /// The views of a sequence of vectors.
    pub open spec fn views(vectors: Seq<SecretBits>) -> Seq<Seq<u16>> {
        Seq::new(vectors.len(), |i: int| vectors[i]@)
    }

    /// A vector drawn by the thread's random generator.
    pub fn random() -> (drawn: Self) {
        SecretBits(random_words())
    }

    /// The vector that holds one where the bit is set and zero elsewhere.
    pub fn from(value: &Bits) -> (words: Self)
        ensures
            words@ == bits_as_words(value@),
    {
        let mut words = [0u16; BITS];
        let mut i: usize = 0;
        while i < BITS
            invariant
                0 <= i <= 12800,
                forall|j: int| 0 <= j < i ==> words@[j] == crate::ring::bit_word(value@[j]),
            decreases 12800 - i,
        {
            words[i] = if value.index(i) {
                1
            } else {
                0
            };
            i += 1;
        }
        assert(words@ =~= bits_as_words(value@));
        SecretBits(words)
    }

    /// Splits the vector into `n` additive shares: `n - 1` random vectors and
    /// the one that makes the shares sum to this vector.
    pub fn share(&self, n: usize) -> (shares: Vec<SecretBits>)
        requires
            n > 0,
        ensures
            shares@.len() == n,
            vectors_sum(Self::views(shares@), n as nat) == self@,
    {
        let mut randoms: Vec<SecretBits> = Vec::new();
        let mut i: usize = 1;
        while i < n
            invariant
                1 <= i <= n,
                randoms@.len() == i - 1,
            decreases n - i,
        {
            randoms.push(SecretBits::random());
            i += 1;
        }
        self.share_from(randoms)
    }

    /// Completes the given vectors to a set of shares of this vector: the
    /// result holds them, in their order, and one more, which is this vector
    /// minus their sum.
    pub fn share_from(&self, randoms: Vec<SecretBits>) -> (shares: Vec<SecretBits>)
        ensures
            shares@.len() == randoms@.len() + 1,
            forall|i: int| 0 <= i < randoms@.len() ==> shares@[i] == randoms@[i],
            shares@[randoms@.len() as int]@ == ring_sub(
                self@,
                vectors_sum(Self::views(randoms@), randoms@.len()),
            ),
            vectors_sum(Self::views(shares@), shares@.len()) == self@,
    {
        let mut shares = randoms;
        let count = shares.len();
        let mut sum = SecretBits([0u16; BITS]);
        assert(sum@ =~= ring_zero(12800));
        let mut i: usize = 0;
        while i < count
            invariant
                0 <= i <= count,
                count == shares@.len(),
                shares@ == randoms@,
                sum@ == vectors_sum(Self::views(shares@), i as nat),
            decreases count - i,
        {
            sum.add_assign(&shares[i]);
            i += 1;
        }
        let mut last = *self;
        last.sub_assign(&sum);
        shares.push(last);
        proof {
            crate::ring::lemma_sum_of_prefix(
                Self::views(randoms@),
                Self::views(shares@),
                count as nat,
                12800,
            );
            crate::ring::lemma_sub_add(self@, sum@);
        }
        shares
    }

    /// Rotates every row by `amount` columns, in place.
    pub fn rotate(&mut self, amount: i32)
        requires
            -200 <= amount <= 200,
        ensures
            final(self)@ == rotate_seq(old(self)@, amount as int),
    {
        rotate_words(&mut self.0, amount);
    }

    /// A copy with every row rotated by `amount` columns.
    pub fn rotated(&self, amount: i32) -> (copy: Self)
        requires
            -200 <= amount <= 200,
        ensures
            copy@ == rotate_seq(self@, amount as int),
    {
        let mut copy = *self;
        copy.rotate(amount);
        copy
    }

    /// The sum of the elements modulo 2^16.
    pub fn sum(&self) -> (sum: u16)
        ensures
            sum == ring_sum(self@),
    {
        sum_words(&self.0)
    }

    /// The inner product with `other` modulo 2^16.
    pub fn dot(&self, other: &Self) -> (product: u16)
        ensures
            product == ring_dot(self@, other@),
    {
        dot_u16(&self.0, &other.0)
    }

    /// The negation modulo 2^16, element by element.
    pub fn neg(&self) -> (result: Self)
        ensures
            result@ == ring_neg(self@),
    {
        let mut result = *self;
        neg_words(&mut result.0);
        result
    }

    /// The sum with `rhs` modulo 2^16, element by element.
    pub fn add(&self, rhs: &Self) -> (result: Self)
        ensures
            result@ == ring_add(self@, rhs@),
    {
        let mut result = *self;
        result.add_assign(rhs);
        result
    }

    /// The difference with `rhs` modulo 2^16, element by element.
    pub fn sub(&self, rhs: &Self) -> (result: Self)
        ensures
            result@ == ring_sub(self@, rhs@),
    {
        let mut result = *self;
        result.sub_assign(rhs);
        result
    }

    /// The product with `rhs` modulo 2^16, element by element.
    pub fn mul(&self, rhs: &Self) -> (result: Self)
        ensures
            result@ == ring_mul(self@, rhs@),
    {
        let mut result = *self;
        result.mul_assign(rhs);
        result
    }

    /// Adds `rhs` modulo 2^16, element by element.
    pub fn add_assign(&mut self, rhs: &Self)
        ensures
            final(self)@ == ring_add(old(self)@, rhs@),
    {
        add_words(&mut self.0, &rhs.0);
    }

    /// Subtracts `rhs` modulo 2^16, element by element.
    pub fn sub_assign(&mut self, rhs: &Self)
        ensures
            final(self)@ == ring_sub(old(self)@, rhs@),
    {
        sub_words(&mut self.0, &rhs.0);
    }

    /// Multiplies by `rhs` modulo 2^16, element by element.
    pub fn mul_assign(&mut self, rhs: &Self)
        ensures
            final(self)@ == ring_mul(old(self)@, rhs@),
    {
        mul_words(&mut self.0, &rhs.0);
    }

    /// The 25,600 bytes of the vector as it is stored: two for each element,
    /// the low one first.
    pub fn to_bytes(&self) -> (bytes: Vec<u8>)
        ensures
            bytes@ == words_bytes(self@),
    {
        words_to_bytes(&self.0)
    }

    /// The vector that is stored as the given bytes, if there are 25,600 of
    /// them.
    pub fn from_bytes(bytes: &[u8]) -> (vector: Option<Self>)
        ensures
            vector is Some <==> bytes@.len() == 25600,
            vector is Some ==> words_bytes(vector->Some_0@) == bytes@,
    {
        match words_from_bytes(bytes) {
            Some(words) => Some(SecretBits(words)),
            None => None,
        }
    }
}

} // verus!
