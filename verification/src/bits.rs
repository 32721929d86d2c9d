//! Packed bit vectors of 12,800 bits.

use crate::arch::dot_bool;
use crate::random::random_bytes;
use crate::rotation::{lemma_source_index_in_row, rotate_seq, source_index};
use vstd::prelude::*;

verus! {

/// Limbs of 64 bits in a bit vector.
pub const LIMBS: usize = 200;

/// A bit vector of 12,800 bits, packed into limbs with the least significant
/// bit first.
#[derive(Clone, Copy, PartialEq, Eq, PartialOrd, Ord, Debug)]
pub struct Bits(pub [u64; LIMBS]);

/// Bit `k` of a limb, counted from the least significant one.
pub open spec fn limb_bit(limb: u64, k: u64) -> bool {
    (limb >> k) & 1 == 1
}

/// Byte `j` of a limb, counted from the least significant one.
pub open spec fn limb_byte(limb: u64, j: u64) -> u8 {
    ((limb >> (8 * j) as u64) & 0xff) as u8
}

/// The bits that a sequence of limbs packs: bit `i` is bit `i % 64` of limb
/// `i / 64`.
pub open spec fn bits_of(limbs: Seq<u64>) -> Seq<bool> {
    Seq::new(64 * limbs.len(), |i: int| limb_bit(limbs[i / 64], (i % 64) as u64))
}

/// The bytes that a sequence of limbs packs: byte `k` is byte `k % 8` of limb
/// `k / 8`.
pub open spec fn bytes_of(limbs: Seq<u64>) -> Seq<u8> {
    Seq::new(8 * limbs.len(), |k: int| limb_byte(limbs[k / 8], (k % 8) as u64))
}

/// How many elements of `s` are true.
pub open spec fn count_true(s: Seq<bool>) -> nat
    decreases s.len(),
{
    if s.len() == 0 {
        0
    } else {
        count_true(s.drop_last()) + if s.last() {
            1nat
        } else {
            0nat
        }
    }
}

/// How many of the lowest `n` bits of a limb are set.
pub open spec fn count_low_bits(limb: u64, n: nat) -> nat
    decreases n,
{
    if n == 0 {
        0
    } else {
        count_low_bits(limb, (n - 1) as nat) + if limb_bit(limb, (n - 1) as u64) {
            1nat
        } else {
            0nat
        }
    }
}

/// How many bits of a limb are set.
pub open spec fn limb_ones(limb: u64) -> nat {
    count_low_bits(limb, 64)
}

/// `u64::count_ones` returns the number of ones in the binary representation
/// of its argument.
pub assume_specification[ u64::count_ones ](limb: u64) -> (ones: u32)
    ensures
        ones == limb_ones(limb),
;

/// The conjunction of two bit sequences, element by element.
pub open spec fn seq_and(a: Seq<bool>, b: Seq<bool>) -> Seq<bool> {
    Seq::new(a.len(), |i: int| a[i] && b[i])
}

/// The disjunction of two bit sequences, element by element.
pub open spec fn seq_or(a: Seq<bool>, b: Seq<bool>) -> Seq<bool> {
    Seq::new(a.len(), |i: int| a[i] || b[i])
}

/// The exclusive disjunction of two bit sequences, element by element.
pub open spec fn seq_xor(a: Seq<bool>, b: Seq<bool>) -> Seq<bool> {
    Seq::new(a.len(), |i: int| a[i] != b[i])
}

/// The negation of a bit sequence, element by element.
pub open spec fn seq_not(a: Seq<bool>) -> Seq<bool> {
    Seq::new(a.len(), |i: int| !a[i])
}

/// A bit of a conjunction is the conjunction of the bits.
pub proof fn lemma_limb_bit_and(x: u64, y: u64, k: u64)
    by (bit_vector)
    requires
        k < 64,
    ensures
        limb_bit(x & y, k) == (limb_bit(x, k) && limb_bit(y, k)),
{
}

/// A bit of a disjunction is the disjunction of the bits.
pub proof fn lemma_limb_bit_or(x: u64, y: u64, k: u64)
    by (bit_vector)
    requires
        k < 64,
    ensures
        limb_bit(x | y, k) == (limb_bit(x, k) || limb_bit(y, k)),
{
}

/// A bit of an exclusive disjunction is set where the bits differ.
pub proof fn lemma_limb_bit_xor(x: u64, y: u64, k: u64)
    by (bit_vector)
    requires
        k < 64,
    ensures
        limb_bit(x ^ y, k) == (limb_bit(x, k) != limb_bit(y, k)),
{
}

/// A bit of a complement is the inverted bit.
pub proof fn lemma_limb_bit_not(x: u64, k: u64)
    by (bit_vector)
    requires
        k < 64,
    ensures
        limb_bit(!x, k) == !limb_bit(x, k),
{
}

/// No bit of zero is set.
pub proof fn lemma_limb_bit_zero(k: u64)
    by (bit_vector)
    requires
        k < 64,
    ensures
        !limb_bit(0, k),
{
}

/// A bit of a byte of a limb is a bit of the limb.
pub proof fn lemma_limb_byte_bit(limb: u64, j: u64, b: u8)
    by (bit_vector)
    requires
        j < 8,
        b < 8,
    ensures
        byte_bit(limb_byte(limb, j), b) == limb_bit(limb, (8 * j + b as u64) as u64),
{
}

/// Two limbs with the same bytes are the same limb.
pub proof fn lemma_limb_bytes_equal(x: u64, y: u64)
    by (bit_vector)
    requires
        limb_byte(x, 0) == limb_byte(y, 0),
        limb_byte(x, 1) == limb_byte(y, 1),
        limb_byte(x, 2) == limb_byte(y, 2),
        limb_byte(x, 3) == limb_byte(y, 3),
        limb_byte(x, 4) == limb_byte(y, 4),
        limb_byte(x, 5) == limb_byte(y, 5),
        limb_byte(x, 6) == limb_byte(y, 6),
        limb_byte(x, 7) == limb_byte(y, 7),
    ensures
        x == y,
{
}

proof fn lemma_count_limb_prefix(s: Seq<bool>, l: int, limb: u64, k: nat)
    requires
        0 <= l,
        64 * (l + 1) <= s.len(),
        k <= 64,
        forall|i: int|
            64 * l <= i < 64 * l + 64 ==> #[trigger] s[i] == limb_bit(limb, (i - 64 * l) as u64),
    ensures
        count_true(s.take(64 * l + k)) == count_true(s.take(64 * l)) + count_low_bits(limb, k),
    decreases k,
{
    if k > 0 {
        lemma_count_limb_prefix(s, l, limb, (k - 1) as nat);
        let t = s.take(64 * l + k);
        assert(t.drop_last() =~= s.take(64 * l + k - 1));
        assert(t.last() == s[64 * l + k - 1]);
    }
}

/// Counting the true elements of one more limb's worth of bits adds the
/// number of bits set in that limb.
pub proof fn lemma_count_limb(s: Seq<bool>, l: int, limb: u64)
    requires
        0 <= l,
        64 * (l + 1) <= s.len(),
        forall|i: int|
            64 * l <= i < 64 * l + 64 ==> #[trigger] s[i] == limb_bit(limb, (i - 64 * l) as u64),
    ensures
        count_true(s.take(64 * (l + 1))) == count_true(s.take(64 * l)) + limb_ones(limb),
        limb_ones(limb) <= 64,
{
    lemma_count_limb_prefix(s, l, limb, 64);
    lemma_count_low_bits_bound(limb, 64);
}

proof fn lemma_count_low_bits_bound(limb: u64, n: nat)
    ensures
        count_low_bits(limb, n) <= n,
    decreases n,
{
    if n > 0 {
        lemma_count_low_bits_bound(limb, (n - 1) as nat);
    }
}

/// Bit `j` of a byte, counted from the least significant one.
pub open spec fn byte_bit(b: u8, j: u8) -> bool {
    (b >> j) & 1 == 1
}

/// The bit in column `c` of a row of 25 bytes.
pub open spec fn row_bit(row: Seq<u8>, c: int) -> bool {
    byte_bit(row[c / 8], (c % 8) as u8)
}

proof fn lemma_shift_up(x: u8, y: u8, r: u8, j: u8)
    by (bit_vector)
    requires
        1 <= r <= 7,
        j < 8,
    ensures
        byte_bit((x << r) | (y >> (8 - r) as u8), j) == (if j >= r {
            byte_bit(x, (j - r) as u8)
        } else {
            byte_bit(y, (j + 8 - r) as u8)
        }),
{
}

proof fn lemma_shift_down(x: u8, y: u8, s: u8, j: u8)
    by (bit_vector)
    requires
        1 <= s <= 7,
        j < 8,
    ensures
        byte_bit((x >> s) | (y << (8 - s) as u8), j) == (if j + s < 8 {
            byte_bit(x, (j + s) as u8)
        } else {
            byte_bit(y, (j + s - 8) as u8)
        }),
{
}

/// Whether `new` is the row `old` rotated by `amount` columns: the bit in
/// column `c` of `new` is the bit that `old` had in column `c - amount`,
/// counted modulo 200.
pub open spec fn row_rotated(new: Seq<u8>, old: Seq<u8>, amount: int) -> bool {
    forall|c: int| 0 <= c < 200 ==> row_bit(new, c) == row_bit(old, (c - amount) % 200)
}

proof fn lemma_bits_moved_up(new: Seq<u8>, old: Seq<u8>, s: u8)
    requires
        new.len() == 25,
        old.len() == 25,
        1 <= s <= 7,
        forall|j: int|
            0 <= j < 25 ==> new[j] == (old[j] << s) | (old[(j + 24) % 25] >> (8 - s) as u8),
    ensures
        row_rotated(new, old, s as int),
{
    assert forall|c: int| 0 <= c < 200 implies row_bit(new, c) == row_bit(old, (c - s) % 200) by {
        let k = c / 8;
        let j = (c % 8) as u8;
        lemma_shift_up(old[k], old[(k + 24) % 25], s, j);
        if j >= s {
            assert((c - s) % 200 == c - s);
            assert((c - s) / 8 == k && (c - s) % 8 == j - s);
        } else if k >= 1 {
            assert((c - s) % 200 == c - s);
            assert((c - s) / 8 == k - 1 && (c - s) % 8 == j + 8 - s);
            assert((k + 24) % 25 == k - 1);
        } else {
            assert((c - s) % 200 == c - s + 200);
            assert((c - s + 200) / 8 == 24 && (c - s + 200) % 8 == j + 8 - s);
        }
    }
}

proof fn lemma_bits_moved_down(new: Seq<u8>, old: Seq<u8>, s: u8)
    requires
        new.len() == 25,
        old.len() == 25,
        1 <= s <= 7,
        forall|j: int|
            0 <= j < 25 ==> new[j] == (old[j] >> s) | (old[(j + 1) % 25] << (8 - s) as u8),
    ensures
        row_rotated(new, old, -(s as int)),
{
    assert forall|c: int| 0 <= c < 200 implies row_bit(new, c) == row_bit(old, (c + s) % 200) by {
        let k = c / 8;
        let j = (c % 8) as u8;
        lemma_shift_down(old[k], old[(k + 1) % 25], s, j);
        if j + s < 8 {
            assert((c + s) % 200 == c + s);
            assert((c + s) / 8 == k && (c + s) % 8 == j + s);
        } else if k < 24 {
            assert((c + s) % 200 == c + s);
            assert((c + s) / 8 == k + 1 && (c + s) % 8 == j + s - 8);
            assert((k + 1) % 25 == k + 1);
        } else {
            assert((c + s) % 200 == c + s - 200);
            assert((c + s - 200) / 8 == 0 && (c + s - 200) % 8 == j + s - 8);
        }
    }
}

proof fn lemma_bytes_moved_up(new: Seq<u8>, old: Seq<u8>)
    requires
        new.len() == 25,
        old.len() == 25,
        forall|j: int| 0 <= j < 25 ==> new[j] == old[(j + 24) % 25],
    ensures
        row_rotated(new, old, 8),
{
    assert forall|c: int| 0 <= c < 200 implies row_bit(new, c) == row_bit(old, (c - 8) % 200) by {
        let k = c / 8;
        if c >= 8 {
            assert((c - 8) % 200 == c - 8);
            assert((c - 8) / 8 == k - 1 && (c - 8) % 8 == c % 8);
            assert((k + 24) % 25 == k - 1);
        } else {
            assert((c - 8) % 200 == c + 192);
            assert((c + 192) / 8 == 24 && (c + 192) % 8 == c % 8);
        }
    }
}

proof fn lemma_bytes_moved_down(new: Seq<u8>, old: Seq<u8>)
    requires
        new.len() == 25,
        old.len() == 25,
        forall|j: int| 0 <= j < 25 ==> new[j] == old[(j + 1) % 25],
    ensures
        row_rotated(new, old, -8),
{
    assert forall|c: int| 0 <= c < 200 implies row_bit(new, c) == row_bit(old, (c + 8) % 200) by {
        let k = c / 8;
        if c + 8 < 200 {
            assert((c + 8) % 200 == c + 8);
            assert((c + 8) / 8 == k + 1 && (c + 8) % 8 == c % 8);
            assert((k + 1) % 25 == k + 1);
        } else {
            assert((c + 8) % 200 == c - 192);
            assert((c - 192) / 8 == 0 && (c - 192) % 8 == c % 8);
            assert(k == 24);
        }
    }
}

proof fn lemma_row_rotated_twice(new: Seq<u8>, middle: Seq<u8>, old: Seq<u8>, a: int, b: int)
    requires
        row_rotated(middle, old, a),
        row_rotated(new, middle, b),
    ensures
        row_rotated(new, old, a + b),
{
    assert forall|c: int| 0 <= c < 200 implies row_bit(new, c) == row_bit(old, (c - (a + b)) % 200) by {
        let m = (c - b) % 200;
        assert(row_bit(new, c) == row_bit(middle, m));
        assert(row_bit(middle, m) == row_bit(old, (m - a) % 200));
        assert((m - a) % 200 == (c - (a + b)) % 200);
    }
}

/// Moves the 25 bytes of a row one place up, the last one to the front.
fn bytes_up(a: &mut [u8; 25])
    ensures
        forall|j: int| 0 <= j < 25 ==> final(a)@[j] == old(a)@[(j + 24) % 25],
{
    let ghost before = a@;
    let last = a[24];
    let mut k: usize = 24;
    while k > 0
        invariant
            0 <= k <= 24,
            before == old(a)@,
            forall|j: int| k < j < 25 ==> a@[j] == before[j - 1],
            forall|j: int| 0 <= j <= k ==> a@[j] == before[j],
        decreases k,
    {
        a[k] = a[k - 1];
        k -= 1;
    }
    a[0] = last;
}

/// Moves the 25 bytes of a row one place down, the first one to the back.
fn bytes_down(a: &mut [u8; 25])
    ensures
        forall|j: int| 0 <= j < 25 ==> final(a)@[j] == old(a)@[(j + 1) % 25],
{
    let ghost before = a@;
    let first = a[0];
    let mut k: usize = 0;
    while k < 24
        invariant
            0 <= k <= 24,
            before == old(a)@,
            forall|j: int| 0 <= j < k ==> a@[j] == before[j + 1],
            forall|j: int| k <= j < 25 ==> a@[j] == before[j],
        decreases 24 - k,
    {
        a[k] = a[k + 1];
        k += 1;
    }
    a[24] = first;
}

/// Shifts every byte of a row up by `s` bits and carries the bits that leave
/// a byte into the next one, those of the last byte into the first.
fn bits_up(a: &mut [u8; 25], s: u8)
    requires
        1 <= s <= 7,
    ensures
        forall|j: int|
            0 <= j < 25 ==> final(a)@[j] == (old(a)@[j] << s) | (old(a)@[(j + 24) % 25] >> (8
                - s) as u8),
{
    let ghost before = a@;
    let r: u8 = 8 - s;
    let mut carry: u8 = a[24] >> r;
    let mut k: usize = 0;
    while k < 25
        invariant
            0 <= k <= 25,
            1 <= s <= 7,
            r == 8 - s,
            before == old(a)@,
            carry == before[(k as int + 24) % 25] >> r,
            forall|j: int| 0 <= j < k ==> a@[j] == (before[j] << s) | (before[(j + 24) % 25] >> r),
            forall|j: int| k <= j < 25 ==> a@[j] == before[j],
        decreases 25 - k,
    {
        let old = a[k];
        a[k] = (old << s) | carry;
        carry = old >> r;
        k += 1;
    }
}

/// Shifts every byte of a row down by `s` bits and carries the bits that
/// leave a byte into the one before, those of the first byte into the last.
fn bits_down(a: &mut [u8; 25], s: u8)
    requires
        1 <= s <= 7,
    ensures
        forall|j: int|
            0 <= j < 25 ==> final(a)@[j] == (old(a)@[j] >> s) | (old(a)@[(j + 1) % 25] << (8
                - s) as u8),
{
    let ghost before = a@;
    let l: u8 = 8 - s;
    let mut carry: u8 = a[0] << l;
    let mut k: usize = 25;
    while k > 0
        invariant
            0 <= k <= 25,
            1 <= s <= 7,
            l == 8 - s,
            before == old(a)@,
            carry == before[(k as int) % 25] << l,
            forall|j: int| k <= j < 25 ==> a@[j] == (before[j] >> s) | (before[(j + 1) % 25] << l),
            forall|j: int| 0 <= j < k ==> a@[j] == before[j],
        decreases k,
    {
        k -= 1;
        let old = a[k];
        a[k] = (old >> s) | carry;
        carry = old << l;
    }
}

/// Rotates one row of 200 bits, held in 25 bytes, by `amount` columns.
///
/// A rotation by more than eight columns is a rotation by eight, which moves
/// whole bytes, followed by the rest. A rotation by fewer than eight columns
/// shifts every byte and carries the bits that leave it into its neighbour.
pub fn rotate_row(a: &mut [u8; 25], amount: i32)
    requires
        -15 <= amount <= 15,
    ensures
        row_rotated(final(a)@, old(a)@, amount as int),
    decreases (if amount < -8 || amount > 8 { 1nat } else { 0nat }),
{
    let ghost before = a@;
    if amount < -8 {
        rotate_row(a, -8);
        let ghost middle = a@;
        rotate_row(a, amount + 8);
        proof {
            lemma_row_rotated_twice(a@, middle, before, -8, amount + 8);
        }
    } else if amount == -8 {
        bytes_down(a);
        proof {
            lemma_bytes_moved_down(a@, before);
        }
    } else if amount < 0 {
        let s: u8 = (-amount) as u8;
        bits_down(a, s);
        proof {
            lemma_bits_moved_down(a@, before, s);
        }
    } else if amount == 0 {
        proof {
            assert forall|c: int| 0 <= c < 200 implies row_bit(a@, c) == row_bit(
                before,
                (c - 0) % 200,
            ) by {
                assert((c - 0) % 200 == c);
            }
        }
    } else if amount < 8 {
        let s: u8 = amount as u8;
        bits_up(a, s);
        proof {
            lemma_bits_moved_up(a@, before, s);
        }
    } else if amount == 8 {
        bytes_up(a);
        proof {
            lemma_bytes_moved_up(a@, before);
        }
    } else {
        rotate_row(a, 8);
        let ghost middle = a@;
        rotate_row(a, amount - 8);
        proof {
            lemma_row_rotated_twice(a@, middle, before, 8, amount - 8);
        }
    }
}

proof fn lemma_limb_bit_mask(x: u64, k: u64)
    by (bit_vector)
    requires
        k < 64,
    ensures
        (x & (1u64 << k) != 0) == limb_bit(x, k),
{
}

/// Bit `i` of a packed vector is bit `i % 8` of its byte `i / 8`.
pub proof fn lemma_bit_in_bytes(limbs: Seq<u64>, i: int)
    requires
        0 <= i < 64 * limbs.len(),
    ensures
        bits_of(limbs)[i] == row_bit(bytes_of(limbs), i),
{
    let k = i / 8;
    let j = (k % 8) as u64;
    let b = (i % 8) as u8;
    assert(k / 8 == i / 64);
    assert(8 * (k % 8) + i % 8 == i % 64);
    lemma_limb_byte_bit(limbs[i / 64], j, b);
}

/// `bytemuck::cast` on the little-endian form of a limb: the eight bytes of
/// the limb, the least significant one first.
#[verifier::external_body]
fn limb_to_bytes(limb: u64) -> (bytes: [u8; 8])
    ensures
        forall|j: int| 0 <= j < 8 ==> bytes@[j] == limb_byte(limb, j as u64),
{
    bytemuck::cast(limb.to_le())
}

/// `bytemuck::cast` read as a little-endian limb: the limb whose eight bytes,
/// the least significant one first, are the ones given.
#[verifier::external_body]
fn limb_from_bytes(bytes: [u8; 8]) -> (limb: u64)
    ensures
        forall|j: int| 0 <= j < 8 ==> limb_byte(limb, j as u64) == bytes@[j],
{
    u64::from_le(bytemuck::cast(bytes))
}

impl View for Bits {
    type V = Seq<bool>;

    /// The 12,800 bits, bit `i` being bit `i % 64` of limb `i / 64`.
    open spec fn view(&self) -> Seq<bool> {
        bits_of(self.0@)
    }
}

impl Default for Bits {
    fn default() -> (bits: Self)
        ensures
            bits@ == Seq::new(12800, |i: int| false),
    {
        let bits = Bits([0u64; LIMBS]);
        proof {
            assert forall|i: int| 0 <= i < 12800 implies !bits@[i] by {
                lemma_limb_bit_zero((i % 64) as u64);
            }
            assert(bits@ =~= Seq::new(12800, |i: int| false));
        }
        bits
    }
}

impl Bits {
    /// The 1,600 bytes of the vector, byte `k` being byte `k % 8` of limb
    /// `k / 8`.
    pub open spec fn bytes(&self) -> Seq<u8> {
        bytes_of(self.0@)
    }

    /// A vector drawn by the thread's random generator.
    pub fn random() -> (drawn: Self) {
        let bytes = random_bytes(1600);
        Bits::from_slice(bytes.as_slice())
    }

    /// The bit at position `index`.
    pub fn index(&self, index: usize) -> (bit: bool)
        requires
            index < 12800,
        ensures
            bit == self@[index as int],
    {
        let limb = self.0[index / 64];
        let k: u64 = (index % 64) as u64;
        proof {
            lemma_limb_bit_mask(limb, k);
        }
        limb & (1u64 << k) != 0
    }

    /// The vector as bytes, in the order in which it is stored and sent.
    pub fn to_bytes(&self) -> (bytes: [u8; 1600])
        ensures
            bytes@ == self.bytes(),
    {
        let mut out = [0u8; 1600];
        let mut i: usize = 0;
        while i < LIMBS
            invariant
                0 <= i <= 200,
                forall|k: int| 0 <= k < 8 * i ==> out@[k] == self.bytes()[k],
            decreases 200 - i,
        {
            let b = limb_to_bytes(self.0[i]);
            let mut j: usize = 0;
            while j < 8
                invariant
                    0 <= j <= 8,
                    0 <= i < 200,
                    forall|k: int| 0 <= k < 8 * i + j ==> out@[k] == self.bytes()[k],
                    forall|j: int| 0 <= j < 8 ==> b@[j] == limb_byte(self.0@[i as int], j as u64),
                decreases 8 - j,
            {
                out[8 * i + j] = b[j];
                proof {
                    assert((8 * i + j) / 8 == i && (8 * i + j) % 8 == j);
                }
                j += 1;
            }
            i += 1;
        }
        assert(out@ =~= self.bytes());
        out
    }

    /// The vector that is stored or sent as these bytes.
    pub fn from_bytes(bytes: &[u8; 1600]) -> (bits: Self)
        ensures
            bits.bytes() == bytes@,
    {
        let mut limbs = [0u64; LIMBS];
        let mut i: usize = 0;
        while i < LIMBS
            invariant
                0 <= i <= 200,
                forall|k: int| 0 <= k < 8 * i ==> bytes_of(limbs@)[k] == bytes@[k],
            decreases 200 - i,
        {
            let mut chunk = [0u8; 8];
            let mut j: usize = 0;
            while j < 8
                invariant
                    0 <= j <= 8,
                    0 <= i < 200,
                    forall|m: int| 0 <= m < j ==> chunk@[m] == bytes@[8 * i + m],
                decreases 8 - j,
            {
                chunk[j] = bytes[8 * i + j];
                j += 1;
            }
            let ghost before = limbs@;
            limbs[i] = limb_from_bytes(chunk);
            proof {
                assert forall|k: int| 0 <= k < 8 * (i + 1) implies bytes_of(limbs@)[k]
                    == bytes@[k] by {
                    if k < 8 * i {
                        assert(bytes_of(before)[k] == bytes@[k]);
                        assert(k / 8 != i);
                    } else {
                        let m = k % 8;
                        assert(k / 8 == i);
                        assert(k == 8 * i + m);
                        assert(limb_byte(limbs@[i as int], m as u64) == chunk@[m]);
                    }
                }
            }
            i += 1;
        }
        let bits = Bits(limbs);
        assert(bits.bytes() =~= bytes@);
        bits
    }

    /// The vector that is stored or sent as the 1,600 bytes of a slice.
    pub fn from_slice(bytes: &[u8]) -> (bits: Self)
        requires
            bytes@.len() == 1600,
        ensures
            bits.bytes() == bytes@,
    {
        let mut array = [0u8; 1600];
        let mut i: usize = 0;
        while i < 1600
            invariant
                0 <= i <= 1600,
                bytes@.len() == 1600,
                forall|k: int| 0 <= k < i ==> array@[k] == bytes@[k],
            decreases 1600 - i,
        {
            array[i] = bytes[i];
            i += 1;
        }
        assert(array@ =~= bytes@);
        Bits::from_bytes(&array)
    }

    /// Rotates every row by `amount` columns, in place.
    pub fn rotate(&mut self, amount: i32)
        requires
            -15 <= amount <= 15,
        ensures
            final(self)@ == rotate_seq(old(self)@, amount as int),
    {
        let ghost before = self.bytes();
        let mut bytes = self.to_bytes();
        let mut row: usize = 0;
        while row < 64
            invariant
                0 <= row <= 64,
                -15 <= amount <= 15,
                before.len() == 1600,
                forall|i: int|
                    0 <= i < 200 * row ==> row_bit(bytes@, i) == row_bit(
                        before,
                        source_index(i, amount as int),
                    ),
                forall|k: int| 25 * row <= k < 1600 ==> bytes@[k] == before[k],
            decreases 64 - row,
        {
            let mut chunk = [0u8; 25];
            let mut j: usize = 0;
            while j < 25
                invariant
                    0 <= j <= 25,
                    0 <= row < 64,
                    forall|m: int| 0 <= m < j ==> chunk@[m] == bytes@[25 * row + m],
                decreases 25 - j,
            {
                chunk[j] = bytes[25 * row + j];
                j += 1;
            }
            let ghost taken = chunk@;
            rotate_row(&mut chunk, amount);
            let ghost earlier = bytes@;
            let mut j: usize = 0;
            while j < 25
                invariant
                    0 <= j <= 25,
                    0 <= row < 64,
                    earlier.len() == 1600,
                    forall|m: int| 0 <= m < j ==> bytes@[25 * row + m] == chunk@[m],
                    forall|k: int|
                        0 <= k < 1600 && !(25 * row <= k < 25 * row + j) ==> bytes@[k] == earlier[k],
                decreases 25 - j,
            {
                bytes[25 * row + j] = chunk[j];
                j += 1;
            }
            proof {
                assert forall|i: int| 0 <= i < 200 * (row + 1) implies row_bit(bytes@, i)
                    == row_bit(before, source_index(i, amount as int)) by {
                    if i < 200 * row {
                        assert(i / 8 < 25 * row);
                        assert(row_bit(earlier, i) == row_bit(before, source_index(i, amount as int)));
                    } else {
                        let c = i - 200 * row;
                        let d = (c - amount) % 200;
                        lemma_source_index_in_row(i, amount as int);
                        assert(i / 200 == row && i % 200 == c);
                        assert(source_index(i, amount as int) == 200 * row + d);
                        assert(i / 8 == 25 * row + c / 8 && i % 8 == c % 8);
                        assert((200 * row + d) / 8 == 25 * row + d / 8 && (200 * row + d) % 8 == d
                            % 8);
                        assert(row_bit(chunk@, c) == row_bit(taken, d));
                    }
                }
            }
            row += 1;
        }
        let ghost old_bits = self@;
        let ghost old_limbs = self.0@;
        *self = Bits::from_bytes(&bytes);
        proof {
            assert forall|i: int| 0 <= i < 12800 implies self@[i] == rotate_seq(
                old_bits,
                amount as int,
            )[i] by {
                let src = source_index(i, amount as int);
                lemma_source_index_in_row(i, amount as int);
                lemma_bit_in_bytes(self.0@, i);
                lemma_bit_in_bytes(old_limbs, src);
            }
            assert(self@ =~= rotate_seq(old_bits, amount as int));
        }
    }

    /// The complement: every bit inverted.
    pub fn not(&self) -> (result: Self)
        ensures
            result@ == seq_not(self@),
    {
        let mut result = Bits([0u64; LIMBS]);
        let mut i: usize = 0;
        while i < LIMBS
            invariant
                0 <= i <= 200,
                forall|j: int| 0 <= j < i ==> result.0@[j] == !self.0@[j],
            decreases 200 - i,
        {
            result.0[i] = !self.0[i];
            i += 1;
        }
        proof {
            assert forall|i: int| 0 <= i < 12800 implies result@[i] == !self@[i] by {
                lemma_limb_bit_not(self.0@[i / 64], (i % 64) as u64);
            }
            assert(result@ =~= seq_not(self@));
        }
        result
    }

    /// The conjunction with `rhs`, bit by bit.
    pub fn bitand(&self, rhs: &Self) -> (result: Self)
        ensures
            result@ == seq_and(self@, rhs@),
    {
        let mut result = *self;
        result.bitand_assign(rhs);
        result
    }

    /// The disjunction with `rhs`, bit by bit.
    pub fn bitor(&self, rhs: &Self) -> (result: Self)
        ensures
            result@ == seq_or(self@, rhs@),
    {
        let mut result = *self;
        result.bitor_assign(rhs);
        result
    }

    /// The exclusive disjunction with `rhs`, bit by bit.
    pub fn bitxor(&self, rhs: &Self) -> (result: Self)
        ensures
            result@ == seq_xor(self@, rhs@),
    {
        let mut result = *self;
        result.bitxor_assign(rhs);
        result
    }

    /// Replaces the vector by its conjunction with `rhs`.
    pub fn bitand_assign(&mut self, rhs: &Self)
        ensures
            final(self)@ == seq_and(old(self)@, rhs@),
    {
        let ghost before = self.0@;
        let mut i: usize = 0;
        while i < LIMBS
            invariant
                0 <= i <= 200,
                forall|j: int| 0 <= j < i ==> self.0@[j] == before[j] & rhs.0@[j],
                forall|j: int| i <= j < 200 ==> self.0@[j] == before[j],
            decreases 200 - i,
        {
            self.0[i] = self.0[i] & rhs.0[i];
            i += 1;
        }
        proof {
            assert forall|i: int| 0 <= i < 12800 implies self@[i] == (bits_of(before)[i]
                && rhs@[i]) by {
                lemma_limb_bit_and(before[i / 64], rhs.0@[i / 64], (i % 64) as u64);
            }
            assert(self@ =~= seq_and(bits_of(before), rhs@));
        }
    }

    /// Replaces the vector by its disjunction with `rhs`.
    pub fn bitor_assign(&mut self, rhs: &Self)
        ensures
            final(self)@ == seq_or(old(self)@, rhs@),
    {
        let ghost before = self.0@;
        let mut i: usize = 0;
        while i < LIMBS
            invariant
                0 <= i <= 200,
                forall|j: int| 0 <= j < i ==> self.0@[j] == before[j] | rhs.0@[j],
                forall|j: int| i <= j < 200 ==> self.0@[j] == before[j],
            decreases 200 - i,
        {
            self.0[i] = self.0[i] | rhs.0[i];
            i += 1;
        }
        proof {
            assert forall|i: int| 0 <= i < 12800 implies self@[i] == (bits_of(before)[i]
                || rhs@[i]) by {
                lemma_limb_bit_or(before[i / 64], rhs.0@[i / 64], (i % 64) as u64);
            }
            assert(self@ =~= seq_or(bits_of(before), rhs@));
        }
    }

    /// Replaces the vector by its exclusive disjunction with `rhs`.
    pub fn bitxor_assign(&mut self, rhs: &Self)
        ensures
            final(self)@ == seq_xor(old(self)@, rhs@),
    {
        let ghost before = self.0@;
        let mut i: usize = 0;
        while i < LIMBS
            invariant
                0 <= i <= 200,
                forall|j: int| 0 <= j < i ==> self.0@[j] == before[j] ^ rhs.0@[j],
                forall|j: int| i <= j < 200 ==> self.0@[j] == before[j],
            decreases 200 - i,
        {
            self.0[i] = self.0[i] ^ rhs.0[i];
            i += 1;
        }
        proof {
            assert forall|i: int| 0 <= i < 12800 implies self@[i] == (bits_of(before)[i]
                != rhs@[i]) by {
                lemma_limb_bit_xor(before[i / 64], rhs.0@[i / 64], (i % 64) as u64);
            }
            assert(self@ =~= seq_xor(bits_of(before), rhs@));
        }
    }

    /// The number of bits that are set.
    pub fn count_ones(&self) -> (ones: u32)
        ensures
            ones == count_true(self@),
            ones <= 12800,
    {
        let mut ones: u32 = 0;
        let mut i: usize = 0;
        while i < LIMBS
            invariant
                0 <= i <= 200,
                ones == count_true(self@.take(64 * i)),
                ones <= 64 * i,
            decreases 200 - i,
        {
            proof {
                lemma_count_limb(self@, i as int, self.0@[i as int]);
            }
            ones = ones + self.0[i].count_ones();
            i += 1;
        }
        assert(self@.take(12800) =~= self@);
        ones
    }

    /// The number of positions at which both vectors have a set bit.
    pub fn dot(&self, other: &Self) -> (ones: u16)
        ensures
            ones == count_true(seq_and(self@, other@)),
            ones <= 12800,
    {
        dot_bool(&self.0, &other.0)
    }

    /// A copy with every row rotated by `amount` columns.
    pub fn rotated(&self, amount: i32) -> (copy: Self)
        requires
            -15 <= amount <= 15,
        ensures
            copy@ == rotate_seq(self@, amount as int),
    {
        let mut copy = *self;
        copy.rotate(amount);
        copy
    }
}

} // verus!
