//! Vectors over the integers modulo 2^16: the meaning of the arithmetic on
//! encoded codes and on shares.

use crate::random::random_bytes;
use crate::rotation::{rotate_seq, source_index};
use crate::BITS;
use vstd::prelude::*;

verus! {

/// The residue of `x` modulo 2^16.
pub open spec fn reduce(x: int) -> u16 {
    (x % 0x10000) as u16
}

/// A residue modulo 2^16 read as a signed number of 16 bits.
pub open spec fn signed16(x: u16) -> int {
    if x >= 0x8000 {
        x - 0x10000
    } else {
        x as int
    }
}

/// The sum of the first `n` elements of `s`, as an integer.
pub open spec fn sum_to(s: Seq<u16>, n: nat) -> int
    decreases n,
{
    if n == 0 {
        0
    } else {
        sum_to(s, (n - 1) as nat) + s[n - 1]
    }
}

/// The inner product of the first `n` elements of `a` and `b`, as an integer.
pub open spec fn dot_to(a: Seq<u16>, b: Seq<u16>, n: nat) -> int
    decreases n,
{
    if n == 0 {
        0
    } else {
        dot_to(a, b, (n - 1) as nat) + a[n - 1] * b[n - 1]
    }
}

/// The sum of all elements of `s` modulo 2^16.
pub open spec fn ring_sum(s: Seq<u16>) -> u16 {
    reduce(sum_to(s, s.len()))
}

/// The inner product of `a` and `b` modulo 2^16.
pub open spec fn ring_dot(a: Seq<u16>, b: Seq<u16>) -> u16 {
    reduce(dot_to(a, b, a.len()))
}

/// The sum of two vectors modulo 2^16, element by element.
pub open spec fn ring_add(a: Seq<u16>, b: Seq<u16>) -> Seq<u16> {
    Seq::new(a.len(), |i: int| reduce(a[i] + b[i]))
}

/// The difference of two vectors modulo 2^16, element by element.
pub open spec fn ring_sub(a: Seq<u16>, b: Seq<u16>) -> Seq<u16> {
    Seq::new(a.len(), |i: int| reduce(a[i] - b[i]))
}

/// The product of two vectors modulo 2^16, element by element.
pub open spec fn ring_mul(a: Seq<u16>, b: Seq<u16>) -> Seq<u16> {
    Seq::new(a.len(), |i: int| reduce(a[i] * b[i]))
}

/// The negation of a vector modulo 2^16, element by element.
pub open spec fn ring_neg(a: Seq<u16>) -> Seq<u16> {
    Seq::new(a.len(), |i: int| reduce(-a[i]))
}

/// The vector of `n` zeros.
pub open spec fn ring_zero(n: nat) -> Seq<u16> {
    Seq::new(n, |i: int| 0u16)
}

/// One is the word of a set bit, zero that of a clear one.
pub open spec fn bit_word(bit: bool) -> u16 {
    if bit {
        1
    } else {
        0
    }
}

/// A bit sequence as a vector: one where the bit is set, zero elsewhere.
pub open spec fn bits_as_words(bits: Seq<bool>) -> Seq<u16> {
    Seq::new(bits.len(), |i: int| bit_word(bits[i]))
}

/// Adding a product to a running inner product, both modulo 2^16, is
/// reducing the sum of the integers.
pub proof fn lemma_accumulate_product(total: int, x: u16, y: u16)
    ensures
        vstd::wrapping::u16_specs::wrapping_add(
            reduce(total),
            vstd::wrapping::u16_specs::wrapping_mul(x, y),
        ) == reduce(total + x * y),
        vstd::wrapping::u16_specs::wrapping_mul(x, y) == reduce(x * y),
{
    let p: int = x * y;
    assert(0 <= p) by (nonlinear_arith)
        requires
            p == x * y,
            0 <= x,
            0 <= y,
    ;
    assert((x as nat * y as nat) == p) by (nonlinear_arith)
        requires
            p == x * y,
    ;
    assert(((total % 0x10000) + (p % 0x10000)) % 0x10000 == (total + p) % 0x10000);
}

/// Adding an element to a running sum, both modulo 2^16, is reducing the sum
/// of the integers.
pub proof fn lemma_accumulate(total: int, x: u16)
    ensures
        vstd::wrapping::u16_specs::wrapping_add(reduce(total), x) == reduce(total + x),
{
    assert(((total % 0x10000) + x) % 0x10000 == (total + x) % 0x10000);
}

/// Wrapping addition is addition modulo 2^16.
pub proof fn lemma_wrapping_add(x: u16, y: u16)
    ensures
        vstd::wrapping::u16_specs::wrapping_add(x, y) == reduce(x + y),
{
}

/// The sum modulo 2^16, element by element, of the first `n` of the given
/// vectors of `len` elements.
pub open spec fn sum_of(vectors: Seq<Seq<u16>>, n: nat, len: nat) -> Seq<u16>
    decreases n,
{
    if n == 0 {
        ring_zero(len)
    } else {
        ring_add(sum_of(vectors, (n - 1) as nat, len), vectors[n - 1])
    }
}

/// The sum modulo 2^16, element by element, of the first `n` of the given
/// vectors of 12,800 elements.
pub open spec fn vectors_sum(vectors: Seq<Seq<u16>>, n: nat) -> Seq<u16> {
    sum_of(vectors, n, 12800)
}

/// The bytes of a vector as it is stored and sent: two bytes for each
/// element, the low one first.
pub open spec fn words_bytes(words: Seq<u16>) -> Seq<u8> {
    Seq::new(
        2 * words.len(),
        |k: int|
            if k % 2 == 0 {
                (words[k / 2] % 256) as u8
            } else {
                (words[k / 2] / 256) as u8
            },
    )
}

/// A vector of 12,800 words drawn by the thread's random generator.
pub(crate) fn random_words() -> (words: [u16; BITS]) {
    let bytes = random_bytes(2 * BITS);
    words_of_bytes(bytes.as_slice())
}

/// `bytemuck::cast` on the little-endian form of a word: its low byte, then
/// its high byte.
#[verifier::external_body]
pub(crate) fn word_to_bytes(word: u16) -> (bytes: [u8; 2])
    ensures
        bytes@[0] == word % 256,
        bytes@[1] == word / 256,
{
    bytemuck::cast(word.to_le())
}

/// `bytemuck::cast` read as a little-endian word: the word with the given
/// low and high byte.
#[verifier::external_body]
pub(crate) fn word_from_bytes(bytes: [u8; 2]) -> (word: u16)
    ensures
        word == bytes@[0] + 256 * bytes@[1],
{
    u16::from_le(bytemuck::cast(bytes))
}

/// Moves the elements of every row so that column `c` receives what column
/// `(c + offset) % 200` held.
fn shift_rows(words: &mut [u16; BITS], offset: usize)
    requires
        offset <= 200,
    ensures
        forall|i: int|
            0 <= i < 12800 ==> final(words)@[i] == old(words)@[(i / 200) * 200 + (i % 200 + offset)
                % 200],
{
    let before = *words;
    let mut i: usize = 0;
    while i < BITS
        invariant
            0 <= i <= 12800,
            offset <= 200,
            before@ == old(words)@,
            forall|j: int|
                0 <= j < i ==> words@[j] == before@[(j / 200) * 200 + (j % 200 + offset) % 200],
        decreases 12800 - i,
    {
        let row = i / 200;
        let col = i % 200;
        words[i] = before[row * 200 + (col + offset) % 200];
        i += 1;
    }
}

/// Rotates every row of a vector by `amount` columns, in place.
pub fn rotate_words(words: &mut [u16; BITS], amount: i32)
    requires
        -200 <= amount <= 200,
    ensures
        final(words)@ == rotate_seq(old(words)@, amount as int),
{
    let ghost before = words@;
    if amount < 0 {
        let left = (-amount) as usize;
        shift_rows(words, left);
    } else if amount > 0 {
        let right = amount as usize;
        shift_rows(words, 200 - right);
    }
    proof {
        assert forall|i: int| 0 <= i < 12800 implies words@[i] == before[source_index(
            i,
            amount as int,
        )] by {
            let c = i % 200;
            if amount < 0 {
                assert((c + (-amount)) % 200 == (c - amount) % 200);
            } else if amount > 0 {
                assert((c + (200 - amount)) % 200 == (c - amount) % 200);
            } else {
                assert((c - 0) % 200 == c);
            }
        }
        assert(words@ =~= rotate_seq(before, amount as int));
    }
}

/// The sum of the elements of a vector modulo 2^16.
pub fn sum_words(words: &[u16; BITS]) -> (sum: u16)
    ensures
        sum == ring_sum(words@),
{
    let mut sum: u16 = 0;
    let mut i: usize = 0;
    while i < BITS
        invariant
            0 <= i <= 12800,
            sum == reduce(sum_to(words@, i as nat)),
        decreases 12800 - i,
    {
        proof {
            lemma_accumulate(sum_to(words@, i as nat), words@[i as int]);
        }
        sum = sum.wrapping_add(words[i]);
        i += 1;
    }
    sum
}

/// Negates every element of a vector modulo 2^16.
pub fn neg_words(words: &mut [u16; BITS])
    ensures
        final(words)@ == ring_neg(old(words)@),
{
    let ghost before = words@;
    let mut i: usize = 0;
    while i < BITS
        invariant
            0 <= i <= 12800,
            forall|j: int| 0 <= j < i ==> words@[j] == reduce(-before[j]),
            forall|j: int| i <= j < 12800 ==> words@[j] == before[j],
        decreases 12800 - i,
    {
        words[i] = 0u16.wrapping_sub(words[i]);
        i += 1;
    }
    assert(words@ =~= ring_neg(before));
}

/// Adds `rhs` to a vector modulo 2^16, element by element.
pub fn add_words(words: &mut [u16; BITS], rhs: &[u16; BITS])
    ensures
        final(words)@ == ring_add(old(words)@, rhs@),
{
    let ghost before = words@;
    let mut i: usize = 0;
    while i < BITS
        invariant
            0 <= i <= 12800,
            forall|j: int| 0 <= j < i ==> words@[j] == reduce(before[j] + rhs@[j]),
            forall|j: int| i <= j < 12800 ==> words@[j] == before[j],
        decreases 12800 - i,
    {
        words[i] = words[i].wrapping_add(rhs[i]);
        i += 1;
    }
    assert(words@ =~= ring_add(before, rhs@));
}

/// Subtracts `rhs` from a vector modulo 2^16, element by element.
pub fn sub_words(words: &mut [u16; BITS], rhs: &[u16; BITS])
    ensures
        final(words)@ == ring_sub(old(words)@, rhs@),
{
    let ghost before = words@;
    let mut i: usize = 0;
    while i < BITS
        invariant
            0 <= i <= 12800,
            forall|j: int| 0 <= j < i ==> words@[j] == reduce(before[j] - rhs@[j]),
            forall|j: int| i <= j < 12800 ==> words@[j] == before[j],
        decreases 12800 - i,
    {
        words[i] = words[i].wrapping_sub(rhs[i]);
        i += 1;
    }
    assert(words@ =~= ring_sub(before, rhs@));
}

/// Multiplies a vector by `rhs` modulo 2^16, element by element.
pub fn mul_words(words: &mut [u16; BITS], rhs: &[u16; BITS])
    ensures
        final(words)@ == ring_mul(old(words)@, rhs@),
{
    let ghost before = words@;
    let mut i: usize = 0;
    while i < BITS
        invariant
            0 <= i <= 12800,
            forall|j: int| 0 <= j < i ==> words@[j] == reduce(before[j] * rhs@[j]),
            forall|j: int| i <= j < 12800 ==> words@[j] == before[j],
        decreases 12800 - i,
    {
        proof {
            lemma_accumulate_product(0, words@[i as int], rhs@[i as int]);
        }
        words[i] = words[i].wrapping_mul(rhs[i]);
        i += 1;
    }
    assert(words@ =~= ring_mul(before, rhs@));
}

/// The bytes of a vector, two for each element, the low one first.
pub fn words_to_bytes(words: &[u16; BITS]) -> (bytes: Vec<u8>)
    ensures
        bytes@ == words_bytes(words@),
{
    let mut bytes: Vec<u8> = Vec::with_capacity(2 * BITS);
    let mut i: usize = 0;
    while i < BITS
        invariant
            0 <= i <= 12800,
            bytes@.len() == 2 * i,
            forall|k: int| 0 <= k < 2 * i ==> bytes@[k] == words_bytes(words@)[k],
        decreases 12800 - i,
    {
        let pair = word_to_bytes(words[i]);
        bytes.push(pair[0]);
        bytes.push(pair[1]);
        i += 1;
    }
    assert(bytes@ =~= words_bytes(words@));
    bytes
}

/// The vector whose 25,600 bytes are the ones given.
pub fn words_of_bytes(bytes: &[u8]) -> (words: [u16; BITS])
    requires
        bytes@.len() == 25600,
    ensures
        words_bytes(words@) == bytes@,
{
    let mut words = [0u16; BITS];
    let mut i: usize = 0;
    while i < BITS
        invariant
            0 <= i <= 12800,
            bytes@.len() == 25600,
            forall|j: int| 0 <= j < i ==> words@[j] == bytes@[2 * j] + 256 * bytes@[2 * j + 1],
        decreases 12800 - i,
    {
        let pair = [bytes[2 * i], bytes[2 * i + 1]];
        words[i] = word_from_bytes(pair);
        i += 1;
    }
    assert(words_bytes(words@) =~= bytes@);
    words
}

/// The vector whose bytes are the ones given, if there are 25,600 of them.
pub fn words_from_bytes(bytes: &[u8]) -> (words: Option<[u16; BITS]>)
    ensures
        words is Some <==> bytes@.len() == 25600,
        words is Some ==> words_bytes(words->Some_0@) == bytes@,
{
    if bytes.len() != 2 * BITS {
        return None;
    }
    Some(words_of_bytes(bytes))
}

/// The sum of the first `n` vectors depends on the first `n` vectors alone.
pub proof fn lemma_sum_of_prefix(a: Seq<Seq<u16>>, b: Seq<Seq<u16>>, n: nat, len: nat)
    requires
        n <= a.len(),
        n <= b.len(),
        forall|i: int| 0 <= i < n ==> a[i] == b[i],
    ensures
        sum_of(a, n, len) == sum_of(b, n, len),
    decreases n,
{
    if n > 0 {
        lemma_sum_of_prefix(a, b, (n - 1) as nat, len);
    }
}

/// Adding back what was subtracted gives the vector that one started from.
pub proof fn lemma_sub_add(a: Seq<u16>, b: Seq<u16>)
    requires
        a.len() == b.len(),
    ensures
        ring_add(b, ring_sub(a, b)) == a,
{
    assert(ring_add(b, ring_sub(a, b)) =~= a);
}

} // verus!
