//! What holds of rotation, encoding and inner products, for all inputs.

use crate::bits::{
    byte_bit, count_true, lemma_limb_byte_bit, lemma_limb_bytes_equal, limb_bit, limb_byte,
    seq_and, Bits,
};
use crate::encoded_bits::EncodedBits;
use crate::secret_bits::SecretBits;
use crate::fraction::{
    closer, lemma_closer_chain, lemma_min_of, lemma_not_closer_chain, min_of, Fraction,
};
use crate::protocol::{beats, best_after, reconstructed, spec_tile_count, tuples_at, Best};
use crate::ring::{
    bits_as_words, dot_to, reduce, ring_add, ring_dot, ring_zero, signed16, sum_of, vectors_sum,
};
use crate::rotation::{
    lemma_rotate_seq_inverse, lemma_source_index_bound, lemma_source_index_compose, rotate_seq,
};
use crate::template::{equal_bits, unequal_bits, Template};
use crate::{decoded_lane, decoded_lanes, encoded_word, encoding, mask_denominators, numerators};
use vstd::prelude::*;

verus! {

proof fn lemma_byte_extensional(x: u8, y: u8)
    by (bit_vector)
    requires
        byte_bit(x, 0) == byte_bit(y, 0),
        byte_bit(x, 1) == byte_bit(y, 1),
        byte_bit(x, 2) == byte_bit(y, 2),
        byte_bit(x, 3) == byte_bit(y, 3),
        byte_bit(x, 4) == byte_bit(y, 4),
        byte_bit(x, 5) == byte_bit(y, 5),
        byte_bit(x, 6) == byte_bit(y, 6),
        byte_bit(x, 7) == byte_bit(y, 7),
    ensures
        x == y,
{
}

proof fn lemma_limb_byte_extensional(x: u64, y: u64, j: u64)
    requires
        j < 8,
        forall|k: u64| k < 64 ==> limb_bit(x, k) == limb_bit(y, k),
    ensures
        limb_byte(x, j) == limb_byte(y, j),
{
    assert forall|b: u8| b < 8 implies byte_bit(limb_byte(x, j), b) == byte_bit(
        limb_byte(y, j),
        b,
    ) by {
        lemma_limb_byte_bit(x, j, b);
        lemma_limb_byte_bit(y, j, b);
    }
    lemma_byte_extensional(limb_byte(x, j), limb_byte(y, j));
}

/// Two bit vectors with the same bits are the same vector.
pub proof fn lemma_bits_extensional(a: Bits, b: Bits)
    requires
        a@ == b@,
    ensures
        a == b,
{
    assert forall|l: int| 0 <= l < 200 implies a.0@[l] == b.0@[l] by {
        let (x, y) = (a.0@[l], b.0@[l]);
        assert forall|k: u64| k < 64 implies limb_bit(x, k) == limb_bit(y, k) by {
            let i = 64 * l + k;
            assert(i / 64 == l && i % 64 == k);
            assert(a@[i] == limb_bit(x, k));
            assert(b@[i] == limb_bit(y, k));
        }
        lemma_limb_byte_extensional(x, y, 0);
        lemma_limb_byte_extensional(x, y, 1);
        lemma_limb_byte_extensional(x, y, 2);
        lemma_limb_byte_extensional(x, y, 3);
        lemma_limb_byte_extensional(x, y, 4);
        lemma_limb_byte_extensional(x, y, 5);
        lemma_limb_byte_extensional(x, y, 6);
        lemma_limb_byte_extensional(x, y, 7);
        lemma_limb_bytes_equal(x, y);
    }
    assert(a.0@ =~= b.0@);
    assert(a.0 == b.0);
}

/// Rotating a bit vector by `r` columns and then by `-r` gives it back.
pub proof fn law_bits_rotation_inverse(b: Bits, there: Bits, back: Bits, r: int)
    requires
        -15 <= r <= 15,
        there@ == rotate_seq(b@, r),
        back@ == rotate_seq(there@, -r),
    ensures
        back == b,
{
    lemma_rotate_seq_inverse(b@, r);
    lemma_bits_extensional(back, b);
}

/// Rotating an encoded vector by `r` columns and then by `-r` gives it back.
pub proof fn law_encoded_rotation_inverse(
    e: EncodedBits,
    there: EncodedBits,
    back: EncodedBits,
    r: int,
)
    requires
        -15 <= r <= 15,
        there@ == rotate_seq(e@, r),
        back@ == rotate_seq(there@, -r),
    ensures
        back == e,
{
    lemma_rotate_seq_inverse(e@, r);
    assert(back.0@ =~= e.0@);
    assert(back.0 == e.0);
}

/// Rotating a secret vector by `r` columns and then by `-r` gives it back.
pub proof fn law_secret_rotation_inverse(e: SecretBits, there: SecretBits, back: SecretBits, r: int)
    requires
        -15 <= r <= 15,
        there@ == rotate_seq(e@, r),
        back@ == rotate_seq(there@, -r),
    ensures
        back == e,
{
    lemma_rotate_seq_inverse(e@, r);
    assert(back.0@ =~= e.0@);
    assert(back.0 == e.0);
}

/// Rotating a template by `r` columns and then by `-r` gives it back.
pub proof fn law_template_rotation_inverse(t: Template, there: Template, back: Template, r: int)
    requires
        -15 <= r <= 15,
        there.pattern@ == rotate_seq(t.pattern@, r),
        there.mask@ == rotate_seq(t.mask@, r),
        back.pattern@ == rotate_seq(there.pattern@, -r),
        back.mask@ == rotate_seq(there.mask@, -r),
    ensures
        back == t,
{
    law_bits_rotation_inverse(t.pattern, there.pattern, back.pattern, r);
    law_bits_rotation_inverse(t.mask, there.mask, back.mask, r);
}

/// Turning a rotated bit vector into words gives the rotated words of the
/// bit vector.
pub proof fn law_words_of_rotated_bits(b: Bits, r: int)
    requires
        -15 <= r <= 15,
    ensures
        bits_as_words(rotate_seq(b@, r)) == rotate_seq(bits_as_words(b@), r),
{
    assert forall|i: int| 0 <= i < 12800 implies bits_as_words(rotate_seq(b@, r))[i] == rotate_seq(
        bits_as_words(b@),
        r,
    )[i] by {
        lemma_source_index_bound(i, r);
    }
    assert(bits_as_words(rotate_seq(b@, r)) =~= rotate_seq(bits_as_words(b@), r));
}

/// Encoding a rotated template gives the rotated encoding of the template.
pub proof fn law_encoding_of_rotated(t: Template, r: int)
    requires
        -15 <= r <= 15,
    ensures
        encoding(rotate_seq(t.pattern@, r), rotate_seq(t.mask@, r)) == rotate_seq(
            encoding(t.pattern@, t.mask@),
            r,
        ),
{
    lemma_encoding_of_rotated(t.pattern@, t.mask@, r);
}

/// Encoding commutes with rotation, for bit sequences of full length.
pub proof fn lemma_encoding_of_rotated(pattern: Seq<bool>, mask: Seq<bool>, r: int)
    requires
        pattern.len() == 12800,
        mask.len() == 12800,
    ensures
        encoding(rotate_seq(pattern, r), rotate_seq(mask, r)) == rotate_seq(
            encoding(pattern, mask),
            r,
        ),
{
    let left = encoding(rotate_seq(pattern, r), rotate_seq(mask, r));
    let right = rotate_seq(encoding(pattern, mask), r);
    assert forall|i: int| 0 <= i < 12800 implies left[i] == right[i] by {
        lemma_source_index_bound(i, r);
    }
    assert(left =~= right);
}

/// Every element of an encoding is zero, one or 0xffff. It is zero exactly
/// where the mask is clear, and 0xffff exactly where mask and pattern are
/// both set.
pub proof fn law_encoding_values(t: Template, i: int)
    requires
        0 <= i < 12800,
    ensures
        ({
            let word = encoding(t.pattern@, t.mask@)[i];
            &&& (word == 0 || word == 1 || word == 0xffff)
            &&& (word == 0 <==> !t.mask@[i])
            &&& (word == 0xffff <==> t.mask@[i] && t.pattern@[i])
        }),
{
}

proof fn lemma_term(pa: bool, ma: bool, pb: bool, mb: bool)
    ensures
        ({
            let product = encoded_word(pa, ma) * encoded_word(pb, mb);
            let sign: int = if !(ma && mb) {
                0
            } else if pa == pb {
                1
            } else {
                -1
            };
            product % 0x10000 == sign % 0x10000
        }),
{
    assert(0xffff * 0xffff == 0xfffe_0001int) by (nonlinear_arith);
}

proof fn lemma_counts_to(
    pa: Seq<bool>,
    ma: Seq<bool>,
    pb: Seq<bool>,
    mb: Seq<bool>,
    n: nat,
)
    requires
        pa.len() == 12800,
        ma.len() == 12800,
        pb.len() == 12800,
        mb.len() == 12800,
        n <= 12800,
    ensures
        reduce(dot_to(encoding(pa, ma), encoding(pb, mb), n)) == reduce(
            count_true(equal_bits(pa, ma, pb, mb).take(n as int)) - count_true(
                unequal_bits(pa, ma, pb, mb).take(n as int),
            ),
        ),
        count_true(seq_and(ma, mb).take(n as int)) == count_true(
            equal_bits(pa, ma, pb, mb).take(n as int),
        ) + count_true(unequal_bits(pa, ma, pb, mb).take(n as int)),
        count_true(seq_and(ma, mb).take(n as int)) <= n,
    decreases n,
{
    let equal = equal_bits(pa, ma, pb, mb);
    let unequal = unequal_bits(pa, ma, pb, mb);
    let both = seq_and(ma, mb);
    if n > 0 {
        let m = (n - 1) as nat;
        lemma_counts_to(pa, ma, pb, mb, m);
        assert(equal.take(n as int).drop_last() =~= equal.take(m as int));
        assert(unequal.take(n as int).drop_last() =~= unequal.take(m as int));
        assert(both.take(n as int).drop_last() =~= both.take(m as int));
        lemma_term(pa[m as int], ma[m as int], pb[m as int], mb[m as int]);
        let before = dot_to(encoding(pa, ma), encoding(pb, mb), m);
        let product = encoded_word(pa[m as int], ma[m as int]) * encoded_word(
            pb[m as int],
            mb[m as int],
        );
        let counted = count_true(equal.take(m as int)) - count_true(unequal.take(m as int));
        let sign: int = if !(ma[m as int] && mb[m as int]) {
            0
        } else if pa[m as int] == pb[m as int] {
            1
        } else {
            -1
        };
        assert(dot_to(encoding(pa, ma), encoding(pb, mb), n) == before + product);
        assert((before + product) % 0x10000 == (counted + sign) % 0x10000) by {
            assert(before % 0x10000 == counted % 0x10000);
            assert(product % 0x10000 == sign % 0x10000);
        }
    } else {
        assert(equal.take(0) =~= Seq::<bool>::empty());
        assert(unequal.take(0) =~= Seq::<bool>::empty());
        assert(both.take(0) =~= Seq::<bool>::empty());
    }
}

/// The inner product of two encodings counts agreement: over the positions
/// valid in both masks it is, modulo 2^16, the number of equal pattern bits
/// minus the number of unequal ones, and those two numbers add up to the
/// number of positions valid in both.
pub proof fn lemma_dot_counts(pa: Seq<bool>, ma: Seq<bool>, pb: Seq<bool>, mb: Seq<bool>)
    requires
        pa.len() == 12800,
        ma.len() == 12800,
        pb.len() == 12800,
        mb.len() == 12800,
    ensures
        signed16(ring_dot(encoding(pa, ma), encoding(pb, mb))) == count_true(
            equal_bits(pa, ma, pb, mb),
        ) - count_true(unequal_bits(pa, ma, pb, mb)),
        count_true(seq_and(ma, mb)) == count_true(equal_bits(pa, ma, pb, mb)) + count_true(
            unequal_bits(pa, ma, pb, mb),
        ),
        count_true(seq_and(ma, mb)) <= 12800,
{
    lemma_counts_to(pa, ma, pb, mb, 12800);
    assert(equal_bits(pa, ma, pb, mb).take(12800) =~= equal_bits(pa, ma, pb, mb));
    assert(unequal_bits(pa, ma, pb, mb).take(12800) =~= unequal_bits(pa, ma, pb, mb));
    assert(seq_and(ma, mb).take(12800) =~= seq_and(ma, mb));
}

/// The inner product of the encodings of two templates, read as a signed
/// number of 16 bits, is the number of equal bits minus the number of unequal
/// bits over the positions valid in both. The number of positions valid in
/// both minus that inner product is twice the number of unequal bits: not
/// negative, and even.
pub proof fn law_dot_product_identity(a: Template, b: Template)
    ensures
        ({
            let numerator = signed16(
                ring_dot(encoding(a.pattern@, a.mask@), encoding(b.pattern@, b.mask@)),
            );
            let denominator = count_true(seq_and(a.mask@, b.mask@));
            let equal = count_true(equal_bits(a.pattern@, a.mask@, b.pattern@, b.mask@));
            let unequal = count_true(unequal_bits(a.pattern@, a.mask@, b.pattern@, b.mask@));
            &&& numerator == equal - unequal
            &&& denominator == equal + unequal
            &&& denominator - numerator == 2 * unequal
            &&& denominator - numerator >= 0
            &&& (denominator - numerator) % 2 == 0
        }),
{
    lemma_dot_counts(a.pattern@, a.mask@, b.pattern@, b.mask@);
}

proof fn lemma_dot_to_zero(x: Seq<u16>, len: nat, n: nat)
    requires
        n <= len,
    ensures
        dot_to(x, ring_zero(len), n) == 0,
    decreases n,
{
    if n > 0 {
        lemma_dot_to_zero(x, len, (n - 1) as nat);
        assert(x[n - 1] * 0 == 0) by (nonlinear_arith);
    }
}

proof fn lemma_dot_to_add(x: Seq<u16>, a: Seq<u16>, b: Seq<u16>, n: nat)
    requires
        n <= a.len(),
        a.len() == b.len(),
    ensures
        reduce(dot_to(x, ring_add(a, b), n)) == reduce(dot_to(x, a, n) + dot_to(x, b, n)),
    decreases n,
{
    if n > 0 {
        let m = (n - 1) as nat;
        lemma_dot_to_add(x, a, b, m);
        let xi = x[m as int] as int;
        let ai = a[m as int] as int;
        let bi = b[m as int] as int;
        let sum = reduce(ai + bi) as int;
        assert(sum == (ai + bi) % 0x10000);
        vstd::arithmetic::div_mod::lemma_mul_mod_noop_right(xi, ai + bi, 0x10000);
        assert(xi * (ai + bi) == xi * ai + xi * bi) by (nonlinear_arith);
        let before = dot_to(x, ring_add(a, b), m);
        let split = dot_to(x, a, m) + dot_to(x, b, m);
        assert(ring_add(a, b)[m as int] == sum);
        assert(dot_to(x, ring_add(a, b), n) == before + xi * sum);
        assert(dot_to(x, a, n) + dot_to(x, b, n) == split + xi * ai + xi * bi);
        assert((before + xi * sum) % 0x10000 == (split + xi * ai + xi * bi) % 0x10000) by {
            assert(before % 0x10000 == split % 0x10000);
            assert((xi * sum) % 0x10000 == (xi * ai + xi * bi) % 0x10000);
        }
    }
}

/// The shares of a numerator add up to the numerator: the lane-wise sum of
/// the inner products of a vector with `n` vectors is its inner product with
/// their sum, all modulo 2^16.
pub proof fn lemma_dot_linear(x: Seq<u16>, shares: Seq<Seq<u16>>, n: nat)
    requires
        n <= shares.len(),
        x.len() == 12800,
        forall|s: int| 0 <= s < shares.len() ==> (#[trigger] shares[s]).len() == 12800,
    ensures
        vectors_sum(shares, n).len() == 12800,
        reduce(sum_dots(x, shares, n)) == ring_dot(x, vectors_sum(shares, n)),
    decreases n,
{
    if n == 0 {
        lemma_dot_to_zero(x, 12800, 12800);
    } else {
        let m = (n - 1) as nat;
        lemma_dot_linear(x, shares, m);
        let before = vectors_sum(shares, m);
        let share = shares[m as int];
        assert(share.len() == 12800);
        lemma_dot_to_add(x, before, share, 12800);
        let a = sum_dots(x, shares, m);
        let b = dot_to(x, share, 12800);
        let c = dot_to(x, before, 12800);
        let d = dot_to(x, ring_add(before, share), 12800);
        assert(vectors_sum(shares, n) == ring_add(before, share));
        assert(sum_dots(x, shares, n) == a + reduce(b));
        assert((a + b % 0x10000) % 0x10000 == d % 0x10000) by {
            assert(a % 0x10000 == c % 0x10000);
            assert(d % 0x10000 == (c + b) % 0x10000);
        }
    }
}

/// The sum, as an integer, of the inner products modulo 2^16 of `x` with the
/// first `n` of the given vectors.
pub open spec fn sum_dots(x: Seq<u16>, shares: Seq<Seq<u16>>, n: nat) -> int
    decreases n,
{
    if n == 0 {
        0
    } else {
        sum_dots(x, shares, (n - 1) as nat) + ring_dot(x, shares[n - 1])
    }
}

/// The tuples of numerators that the holders of the given shares compute for
/// one query.
pub open spec fn share_numerators(query: Seq<u16>, shares: Seq<Seq<u16>>) -> Seq<Seq<u16>> {
    Seq::new(shares.len(), |s: int| numerators(query, shares[s]))
}

proof fn lemma_lane_sum(query: Seq<u16>, shares: Seq<Seq<u16>>, n: nat, k: int)
    requires
        n <= shares.len(),
        0 <= k < 31,
    ensures
        sum_of(share_numerators(query, shares), n, 31).len() == 31,
        sum_of(share_numerators(query, shares), n, 31)[k] == reduce(
            sum_dots(rotate_seq(query, k - 15), shares, n),
        ),
    decreases n,
{
    if n > 0 {
        lemma_lane_sum(query, shares, (n - 1) as nat, k);
    }
}

/// What the resolver puts together is the distance in the clear.
///
/// Take a query template and an entry template, and any vectors that sum to
/// the encoding of the entry. Let every holder of such a vector compute its
/// 31 numerators against the encoded query, and let the resolver compute the
/// 31 denominators from the two masks. Then the lane-wise sum of the
/// numerators, decoded with the denominators, gives in lane `k` the number of
/// unequal bits and of compared bits between the query rotated by `k - 15`
/// columns and the entry; every lane is consistent; and the smallest decoded
/// distance is the smallest distance over the rotations.
pub proof fn law_reconstruction(query: Template, entry: Template, shares: Seq<Seq<u16>>)
    requires
        forall|s: int| 0 <= s < shares.len() ==> (#[trigger] shares[s]).len() == 12800,
        vectors_sum(shares, shares.len()) == encoding(entry.pattern@, entry.mask@),
    ensures
        ({
            let summed = sum_of(
                share_numerators(encoding(query.pattern@, query.mask@), shares),
                shares.len(),
                31,
            );
            let denominators = mask_denominators(query.mask@, entry.mask@);
            &&& decoded_lanes(summed, denominators) == query.rotation_lanes(&entry)
            &&& forall|k: int|
                0 <= k < 31 ==> crate::lane_consistent(#[trigger] summed[k], denominators[k])
            &&& min_of(decoded_lanes(summed, denominators), 31) == min_of(
                query.rotation_lanes(&entry),
                31,
            )
        }),
{
    let q = encoding(query.pattern@, query.mask@);
    let e = encoding(entry.pattern@, entry.mask@);
    let summed = sum_of(share_numerators(q, shares), shares.len(), 31);
    let denominators = mask_denominators(query.mask@, entry.mask@);
    assert forall|k: int| 0 <= k < 31 implies decoded_lane(#[trigger] summed[k], denominators[k])
        == query.rotation_lanes(&entry)[k] && crate::lane_consistent(
        summed[k],
        denominators[k],
    ) by {
        let r = k - 15;
        let (rp, rm) = (rotate_seq(query.pattern@, r), rotate_seq(query.mask@, r));
        lemma_lane_sum(q, shares, shares.len(), k);
        lemma_dot_linear(rotate_seq(q, r), shares, shares.len());
        lemma_encoding_of_rotated(query.pattern@, query.mask@, r);
        lemma_dot_counts(rp, rm, entry.pattern@, entry.mask@);
        let equal = count_true(equal_bits(rp, rm, entry.pattern@, entry.mask@));
        let unequal = count_true(unequal_bits(rp, rm, entry.pattern@, entry.mask@));
        assert(summed[k] == ring_dot(encoding(rp, rm), e));
        assert(signed16(summed[k]) == equal - unequal);
        assert(denominators[k] == equal + unequal);
        assert(reduce(denominators[k] - summed[k]) == 2 * unequal);
    }
    assert(decoded_lanes(summed, denominators) =~= query.rotation_lanes(&entry));
}

/// Taking in the entries batch by batch finds the same closest entry as
/// taking them in all at once: every entry counts once, in its place.
pub proof fn law_batches_compose(
    best: Best,
    offset: int,
    first: Seq<Option<Fraction>>,
    second: Seq<Option<Fraction>>,
    n: nat,
)
    requires
        n <= second.len(),
    ensures
        best_after(
            best_after(best, offset, first, first.len()),
            offset + first.len(),
            second,
            n,
        ) == best_after(best, offset, first + second, first.len() + n),
    decreases n,
{
    let all = first + second;
    if n == 0 {
        lemma_best_after_prefix(best, offset, first, all, first.len());
    } else {
        law_batches_compose(best, offset, first, second, (n - 1) as nat);
        assert(all[first.len() + n - 1] == second[n - 1]);
    }
}

proof fn lemma_best_after_prefix(
    best: Best,
    offset: int,
    a: Seq<Option<Fraction>>,
    b: Seq<Option<Fraction>>,
    n: nat,
)
    requires
        n <= a.len(),
        n <= b.len(),
        forall|i: int| 0 <= i < n ==> a[i] == b[i],
    ensures
        best_after(best, offset, a, n) == best_after(best, offset, b, n),
    decreases n,
{
    if n > 0 {
        lemma_best_after_prefix(best, offset, a, b, (n - 1) as nat);
    }
}

/// The tiles cover the database: every entry lies in exactly one tile, the
/// one numbered by its index divided by the tile size, and the tiles follow
/// each other in the order of the entries.
pub proof fn law_tiles_cover(count: int, i: int, t: int)
    requires
        0 <= i < count,
    ensures
        0 <= i / 20_000 < spec_tile_count(count),
        (t * 20_000 <= i < t * 20_000 + 20_000) <==> t == i / 20_000,
{
}

/// The kernel is a function of its inputs: two outputs that hold, for every
/// entry, the numerators of the query against it are the same output.
pub proof fn law_kernel_deterministic(
    query: Seq<u16>,
    db: Seq<EncodedBits>,
    first: Seq<[u16; 31]>,
    second: Seq<[u16; 31]>,
)
    requires
        first.len() == db.len(),
        second.len() == db.len(),
        forall|i: int| 0 <= i < db.len() ==> (#[trigger] first[i])@ == numerators(query, db[i]@),
        forall|i: int| 0 <= i < db.len() ==> (#[trigger] second[i])@ == numerators(query, db[i]@),
    ensures
        first == second,
{
    assert forall|i: int| 0 <= i < db.len() implies first[i] == second[i] by {
        assert(first[i]@ == second[i]@);
        assert(first[i] =~= second[i]);
    }
    assert(first =~= second);
}

/// The shares of a vector sum to it: whatever the first `n - 1` shares are,
/// with the last one being the vector minus their sum, the sum of all `n`
/// modulo 2^16 is the vector.
pub proof fn law_shares_sum(vector: Seq<u16>, shares: Seq<Seq<u16>>, n: nat)
    requires
        n >= 1,
        shares.len() == n,
        vector.len() == 12800,
        forall|s: int| 0 <= s < n ==> (#[trigger] shares[s]).len() == 12800,
        shares[n - 1] == crate::ring::ring_sub(vector, vectors_sum(shares, (n - 1) as nat)),
    ensures
        vectors_sum(shares, n) == vector,
{
    lemma_sum_len(shares, (n - 1) as nat);
    crate::ring::lemma_sub_add(vector, vectors_sum(shares, (n - 1) as nat));
}

proof fn lemma_sum_len(shares: Seq<Seq<u16>>, n: nat)
    ensures
        vectors_sum(shares, n).len() == 12800,
    decreases n,
{
    if n > 0 {
        lemma_sum_len(shares, (n - 1) as nat);
    }
}

/// Rotating a code by `a` columns and then by `b` columns is rotating it by
/// `a + b` columns.
pub proof fn law_rotations_compose<T>(s: Seq<T>, a: int, b: int)
    requires
        s.len() == 12800,
    ensures
        rotate_seq(rotate_seq(s, a), b) == rotate_seq(s, a + b),
{
    assert forall|i: int| 0 <= i < 12800 implies rotate_seq(rotate_seq(s, a), b)[i] == rotate_seq(
        s,
        a + b,
    )[i] by {
        lemma_source_index_bound(i, b);
        lemma_source_index_compose(i, b, a);
    }
    assert(rotate_seq(rotate_seq(s, a), b) =~= rotate_seq(s, a + b));
}

/// The distance that the resolver puts together for an entry is the
/// distance in the clear.
///
/// Take a batch in which, for entry `i`, every participant holds the
/// numerators of the encoded query against its share of the entry, and the
/// resolver holds the denominators of the two masks. If the shares sum to
/// the encoding of the entry, the distance put together for entry `i` is the
/// smallest distance between the entry and the rotations of the query.
pub proof fn law_resolver_entry(
    query: Template,
    entry: Template,
    entry_shares: Seq<Seq<u16>>,
    denominators: Seq<[u16; 31]>,
    batches: Seq<Vec<[u16; 31]>>,
    i: int,
)
    requires
        0 <= i < denominators.len(),
        batches.len() == entry_shares.len(),
        forall|s: int| 0 <= s < entry_shares.len() ==> (#[trigger] entry_shares[s]).len() == 12800,
        vectors_sum(entry_shares, entry_shares.len()) == encoding(entry.pattern@, entry.mask@),
        forall|s: int|
            0 <= s < batches.len() ==> i < (#[trigger] batches[s])@.len() && batches[s]@[i]@
                == numerators(encoding(query.pattern@, query.mask@), entry_shares[s]),
        denominators[i]@ == mask_denominators(query.mask@, entry.mask@),
    ensures
        reconstructed(denominators, batches, i) == min_of(query.rotation_lanes(&entry), 31),
{
    law_reconstruction(query, entry, entry_shares);
    assert(tuples_at(batches, i) =~= share_numerators(
        encoding(query.pattern@, query.mask@),
        entry_shares,
    ));
}

/// The entry that the resolver keeps is the first of the closest ones.
///
/// After the first `n` distances, taken in from nothing, there is no best
/// distance exactly where no entry has a distance. Otherwise the best is the
/// distance of the entry at the index kept, no entry has a smaller distance,
/// and every entry before that index has a larger distance or none.
pub proof fn law_best_is_first_minimum(distances: Seq<Option<Fraction>>, n: nat)
    requires
        n <= distances.len(),
        n < usize::MAX,
        forall|i: int|
            0 <= i < n ==> ((#[trigger] distances[i]) matches Some(f) ==> f.denominator > 0),
    ensures
        ({
            let best = best_after(Best { index: usize::MAX, distance: None }, 0, distances, n);
            &&& best.distance is None <==> forall|i: int|
                0 <= i < n ==> (#[trigger] distances[i]) is None
            &&& best.distance is None ==> best.index == usize::MAX
            &&& best.distance matches Some(least) ==> {
                &&& least.denominator > 0
                &&& best.index < n
                &&& distances[best.index as int] == Some(least)
                &&& forall|j: int|
                    0 <= j < n ==> ((#[trigger] distances[j]) matches Some(f) ==> !closer(
                        f,
                        least,
                    ))
                &&& forall|j: int|
                    0 <= j < best.index ==> ((#[trigger] distances[j]) matches Some(f) ==> closer(
                        least,
                        f,
                    ))
            }
        }),
    decreases n,
{
    let start = Best { index: usize::MAX, distance: None };
    if n > 0 {
        let m = (n - 1) as nat;
        law_best_is_first_minimum(distances, m);
        let before = best_after(start, 0, distances, m);
        let next = distances[m as int];
        let best = best_after(start, 0, distances, n);
        if beats(next, before.distance) {
            let least = next->Some_0;
            assert(best == Best { index: m as usize, distance: next });
            match before.distance {
                None => {},
                Some(b) => {
                    assert forall|j: int| 0 <= j < n implies ((#[trigger] distances[j]) matches Some(
                        f,
                    ) ==> !closer(f, least)) by {
                        if j < m {
                            if let Some(f) = distances[j] {
                                lemma_not_closer_chain(f, b, least);
                            }
                        }
                    }
                    assert forall|j: int| 0 <= j < m implies ((#[trigger] distances[j]) matches Some(
                        f,
                    ) ==> closer(least, f)) by {
                        if let Some(f) = distances[j] {
                            lemma_closer_chain(least, b, f);
                        }
                    }
                },
            }
        } else {
            assert(best == before);
        }
    }
}

/// A distance that the resolver puts together has a denominator above zero.
pub proof fn law_reconstructed_denominator(
    denominators: Seq<[u16; 31]>,
    batches: Seq<Vec<[u16; 31]>>,
    i: int,
)
    ensures
        reconstructed(denominators, batches, i) matches Some(f) ==> f.denominator > 0,
{
    lemma_min_of(
        crate::decoded_lanes(
            crate::ring::sum_of(tuples_at(batches, i), batches.len(), 31),
            denominators[i]@,
        ),
        31,
    );
}

proof fn lemma_same_limb_byte(a: Bits, b: Bits, l: int, j: int)
    requires
        a.bytes() == b.bytes(),
        0 <= l < 200,
        0 <= j < 8,
    ensures
        limb_byte(a.0@[l], j as u64) == limb_byte(b.0@[l], j as u64),
{
    let k = 8 * l + j;
    assert(k / 8 == l && k % 8 == j);
    assert(a.bytes()[k] == limb_byte(a.0@[l], j as u64));
    assert(b.bytes()[k] == limb_byte(b.0@[l], j as u64));
}

/// Two bit vectors that are stored as the same bytes are the same vector.
pub proof fn law_bits_bytes_injective(a: Bits, b: Bits)
    requires
        a.bytes() == b.bytes(),
    ensures
        a == b,
{
    assert forall|l: int| 0 <= l < 200 implies a.0@[l] == b.0@[l] by {
        let (x, y) = (a.0@[l], b.0@[l]);
        lemma_same_limb_byte(a, b, l, 0);
        lemma_same_limb_byte(a, b, l, 1);
        lemma_same_limb_byte(a, b, l, 2);
        lemma_same_limb_byte(a, b, l, 3);
        lemma_same_limb_byte(a, b, l, 4);
        lemma_same_limb_byte(a, b, l, 5);
        lemma_same_limb_byte(a, b, l, 6);
        lemma_same_limb_byte(a, b, l, 7);
        lemma_limb_bytes_equal(x, y);
    }
    assert(a.0@ =~= b.0@);
    assert(a.0 == b.0);
}

/// Two vectors that are stored as the same bytes are the same vector.
pub proof fn law_words_bytes_injective(a: EncodedBits, b: EncodedBits)
    requires
        crate::ring::words_bytes(a@) == crate::ring::words_bytes(b@),
    ensures
        a == b,
{
    assert forall|i: int| 0 <= i < 12800 implies a@[i] == b@[i] by {
        let (low, high) = (2 * i, 2 * i + 1);
        assert(low / 2 == i && low % 2 == 0 && high / 2 == i && high % 2 == 1);
        let (x, y) = (a@[i], b@[i]);
        assert(crate::ring::words_bytes(a@)[low] == (x % 256) as u8);
        assert(crate::ring::words_bytes(b@)[low] == (y % 256) as u8);
        assert(crate::ring::words_bytes(a@)[high] == (x / 256) as u8);
        assert(crate::ring::words_bytes(b@)[high] == (y / 256) as u8);
        assert(x % 256 == y % 256 && x / 256 == y / 256);
        assert(x == 256 * (x / 256) + x % 256);
    }
    assert(a.0@ =~= b.0@);
    assert(a.0 == b.0);
}

} // verus!
