//! Portable kernels: the meaning that every other kernel has to match.

use crate::bits::{
    bits_of, count_true, lemma_count_limb, lemma_limb_bit_and, seq_and, LIMBS,
};
use crate::ring::{dot_to, lemma_accumulate_product, reduce, ring_dot};
use crate::BITS;
use vstd::prelude::*;

verus! {

/// The number of positions at which both packed bit vectors have a set bit.
pub fn dot_bool(a: &[u64; LIMBS], b: &[u64; LIMBS]) -> (ones: u16)
    ensures
        ones == count_true(seq_and(bits_of(a@), bits_of(b@))),
        ones <= 12800,
{
    let ghost both = seq_and(bits_of(a@), bits_of(b@));
    let mut ones: u16 = 0;
    let mut i: usize = 0;
    while i < LIMBS
        invariant
            0 <= i <= 200,
            both == seq_and(bits_of(a@), bits_of(b@)),
            ones == count_true(both.take(64 * i)),
            ones <= 64 * i,
        decreases 200 - i,
    {
        let limb = a[i] & b[i];
        proof {
            assert forall|k: int| 64 * i <= k < 64 * i + 64 implies #[trigger] both[k]
                == crate::bits::limb_bit(limb, (k - 64 * i) as u64) by {
                assert(k / 64 == i && k % 64 == k - 64 * i);
                lemma_limb_bit_and(a@[i as int], b@[i as int], (k % 64) as u64);
            }
            lemma_count_limb(both, i as int, limb);
        }
        ones = ones.wrapping_add(limb.count_ones() as u16);
        i += 1;
    }
    assert(both.take(12800) =~= both);
    ones
}

/// The inner product of two vectors modulo 2^16.
pub fn dot_u16(a: &[u16; BITS], b: &[u16; BITS]) -> (product: u16)
    ensures
        product == ring_dot(a@, b@),
{
    let mut product: u16 = 0;
    let mut i: usize = 0;
    while i < BITS
        invariant
            0 <= i <= 12800,
            product == reduce(dot_to(a@, b@, i as nat)),
        decreases 12800 - i,
    {
        proof {
            lemma_accumulate_product(dot_to(a@, b@, i as nat), a@[i as int], b@[i as int]);
        }
        product = product.wrapping_add(a[i].wrapping_mul(b[i]));
        i += 1;
    }
    product
}

/// The modulus of the prime field that `dot_field` computes in.
pub const PRIME: u16 = 0xffef;

/// Elements in one code, the common dimension of the two matrices.
pub const CODE: usize = 12800;

/// Row `i` of a matrix with rows of 12,800 elements, stored row after row.
pub open spec fn code_row(m: Seq<u16>, i: int) -> Seq<u16> {
    m.subrange(i * 12800, (i + 1) * 12800)
}

proof fn lemma_cell_in_range(i: int, j: int, rows: int, cols: int)
    by (nonlinear_arith)
    requires
        0 <= i < rows,
        0 <= j < cols,
    ensures
        0 <= i * cols + j < rows * cols,
        i * cols + j + 1 <= rows * cols,
{
}

proof fn lemma_row_prefix(i: int, i2: int, j2: int, cols: int)
    by (nonlinear_arith)
    requires
        0 <= i2 < i,
        0 <= j2 < cols,
    ensures
        i2 * cols + j2 < i * cols,
{
}

/// What the cell for query `j` and entry `i` holds after `dot_ring`.
pub open spec fn ring_cell(q: Seq<u16>, d: Seq<u16>, i: int, j: int) -> u16 {
    ring_dot(code_row(q, j), code_row(d, i))
}

/// What the cell for query `j` and entry `i` holds after `dot_field`.
pub open spec fn field_cell(q: Seq<u16>, d: Seq<u16>, i: int, j: int) -> u16 {
    (dot_to(code_row(q, j), code_row(d, i), 12800) % 0xffef) as u16
}

/// The product of a batch of queries with a database, modulo 2^16.
///
/// `q` holds the queries and `d` the entries, each as rows of 12,800
/// elements. The cell of `c` at `i * queries + j` receives the inner product
/// of query `j` with entry `i`.
pub fn dot_ring(c: &mut [u16], q: &[u16], d: &[u16])
    requires
        q@.len() % 12800 == 0,
        d@.len() % 12800 == 0,
        old(c)@.len() == (q@.len() / 12800) * (d@.len() / 12800),
    ensures
        final(c)@.len() == old(c)@.len(),
        forall|i: int, j: int|
            0 <= i < d@.len() / 12800 && 0 <= j < q@.len() / 12800 ==> #[trigger] final(c)@[i * (
            q@.len() / 12800) + j] == ring_cell(q@, d@, i, j),
{
    let n_batch = q.len() / CODE;
    let n_db = d.len() / CODE;
    let cells = c.len();
    let mut i: usize = 0;
    while i < n_db
        invariant
            0 <= i <= n_db,
            n_batch == q@.len() / 12800,
            n_db == d@.len() / 12800,
            q@.len() % 12800 == 0,
            d@.len() % 12800 == 0,
            q@.len() <= usize::MAX,
            d@.len() <= usize::MAX,
            c@.len() == cells,
            c@.len() == n_batch * n_db,
            c@.len() == old(c)@.len(),
            forall|i2: int, j2: int|
                0 <= i2 < i && 0 <= j2 < n_batch ==> #[trigger] c@[i2 * n_batch + j2] == ring_cell(
                    q@,
                    d@,
                    i2,
                    j2,
                ),
        decreases n_db - i,
    {
        let mut j: usize = 0;
        while j < n_batch
            invariant
                0 <= i < n_db,
                0 <= j <= n_batch,
                    n_batch == q@.len() / 12800,
                n_db == d@.len() / 12800,
                q@.len() % 12800 == 0,
                d@.len() % 12800 == 0,
                q@.len() <= usize::MAX,
                d@.len() <= usize::MAX,
                c@.len() == cells,
                c@.len() == n_batch * n_db,
                c@.len() == old(c)@.len(),
                forall|i2: int, j2: int|
                    0 <= i2 < i && 0 <= j2 < n_batch ==> #[trigger] c@[i2 * n_batch + j2]
                        == ring_cell(q@, d@, i2, j2),
                forall|j2: int|
                    0 <= j2 < j ==> #[trigger] c@[i * n_batch + j2] == ring_cell(q@, d@, i as int, j2),
            decreases n_batch - j,
        {
            let ghost qs = code_row(q@, j as int);
            let ghost ds = code_row(d@, i as int);
            let mut accumulator: u16 = 0;
            let mut k: usize = 0;
            while k < CODE
                invariant
                    0 <= i < n_db,
                    0 <= j < n_batch,
                    0 <= k <= 12800,
                            n_batch == q@.len() / 12800,
                    n_db == d@.len() / 12800,
                    q@.len() % 12800 == 0,
                    d@.len() % 12800 == 0,
                    q@.len() <= usize::MAX,
                    d@.len() <= usize::MAX,
                    qs == code_row(q@, j as int),
                    ds == code_row(d@, i as int),
                    accumulator == reduce(dot_to(qs, ds, k as nat)),
                decreases 12800 - k,
            {
                let qjk = q[j * CODE + k];
                let dik = d[i * CODE + k];
                proof {
                    assert(qs[k as int] == qjk);
                    assert(ds[k as int] == dik);
                    lemma_accumulate_product(dot_to(qs, ds, k as nat), qjk, dik);
                }
                accumulator = accumulator.wrapping_add(qjk.wrapping_mul(dik));
                k += 1;
            }
            proof {
                lemma_cell_in_range(i as int, j as int, n_db as int, n_batch as int);
                assert(n_batch * n_db == n_db * n_batch) by (nonlinear_arith);
            }
            let ghost before = c@;
            c[i * n_batch + j] = accumulator;
            proof {
                assert forall|i2: int, j2: int| 0 <= i2 < i && 0 <= j2 < n_batch implies #[trigger] c@[i2
                    * n_batch + j2] == ring_cell(q@, d@, i2, j2) by {
                    lemma_row_prefix(i as int, i2, j2, n_batch as int);
                    assert(before[i2 * n_batch + j2] == ring_cell(q@, d@, i2, j2));
                }
                assert forall|j2: int| 0 <= j2 < j + 1 implies #[trigger] c@[i * n_batch + j2]
                    == ring_cell(q@, d@, i as int, j2) by {
                    if j2 < j {
                        assert(before[i * n_batch + j2] == ring_cell(q@, d@, i as int, j2));
                    }
                }
            }
            j += 1;
        }
        i += 1;
    }
}

proof fn lemma_product_bound(x: u16, y: u16)
    by (nonlinear_arith)
    ensures
        0 <= x * y <= 0xfffe_0001,
        (x as nat) * (y as nat) == x * y,
{
}

/// The product of a batch of queries with a database, modulo the prime
/// 0xffef.
///
/// `q` holds the queries and `d` the entries, each as rows of 12,800
/// elements. The cell of `c` at `i * queries + j` receives the inner product
/// of query `j` with entry `i`.
pub fn dot_field(c: &mut [u16], q: &[u16], d: &[u16])
    requires
        q@.len() % 12800 == 0,
        d@.len() % 12800 == 0,
        old(c)@.len() == (q@.len() / 12800) * (d@.len() / 12800),
    ensures
        final(c)@.len() == old(c)@.len(),
        forall|i: int, j: int|
            0 <= i < d@.len() / 12800 && 0 <= j < q@.len() / 12800 ==> #[trigger] final(c)@[i * (
            q@.len() / 12800) + j] == field_cell(q@, d@, i, j),
{
    let n_batch = q.len() / CODE;
    let n_db = d.len() / CODE;
    let cells = c.len();
    let mut i: usize = 0;
    while i < n_db
        invariant
            0 <= i <= n_db,
            n_batch == q@.len() / 12800,
            n_db == d@.len() / 12800,
            q@.len() % 12800 == 0,
            d@.len() % 12800 == 0,
            q@.len() <= usize::MAX,
            d@.len() <= usize::MAX,
            c@.len() == cells,
            c@.len() == n_batch * n_db,
            c@.len() == old(c)@.len(),
            forall|i2: int, j2: int|
                0 <= i2 < i && 0 <= j2 < n_batch ==> #[trigger] c@[i2 * n_batch + j2] == field_cell(
                    q@,
                    d@,
                    i2,
                    j2,
                ),
        decreases n_db - i,
    {
        let mut j: usize = 0;
        while j < n_batch
            invariant
                0 <= i < n_db,
                0 <= j <= n_batch,
                    n_batch == q@.len() / 12800,
                n_db == d@.len() / 12800,
                q@.len() % 12800 == 0,
                d@.len() % 12800 == 0,
                q@.len() <= usize::MAX,
                d@.len() <= usize::MAX,
                c@.len() == cells,
                c@.len() == n_batch * n_db,
                c@.len() == old(c)@.len(),
                forall|i2: int, j2: int|
                    0 <= i2 < i && 0 <= j2 < n_batch ==> #[trigger] c@[i2 * n_batch + j2]
                        == field_cell(q@, d@, i2, j2),
                forall|j2: int|
                    0 <= j2 < j ==> #[trigger] c@[i * n_batch + j2] == field_cell(q@, d@, i as int, j2),
            decreases n_batch - j,
        {
            let ghost qs = code_row(q@, j as int);
            let ghost ds = code_row(d@, i as int);
            let mut accumulator: u64 = 0;
            let mut k: usize = 0;
            while k < CODE
                invariant
                    0 <= i < n_db,
                    0 <= j < n_batch,
                    0 <= k <= 12800,
                            n_batch == q@.len() / 12800,
                    n_db == d@.len() / 12800,
                    q@.len() % 12800 == 0,
                    d@.len() % 12800 == 0,
                    q@.len() <= usize::MAX,
                    d@.len() <= usize::MAX,
                    qs == code_row(q@, j as int),
                    ds == code_row(d@, i as int),
                    accumulator == dot_to(qs, ds, k as nat),
                    accumulator <= k * 0xfffe_0001,
                decreases 12800 - k,
            {
                let qjk = q[j * CODE + k];
                let dik = d[i * CODE + k];
                proof {
                    assert(qs[k as int] == qjk);
                    assert(ds[k as int] == dik);
                    lemma_product_bound(qjk, dik);
                }
                accumulator = accumulator.wrapping_add((qjk as u32).wrapping_mul(dik as u32) as u64);
                k += 1;
            }
            proof {
                lemma_cell_in_range(i as int, j as int, n_db as int, n_batch as int);
                assert(n_batch * n_db == n_db * n_batch) by (nonlinear_arith);
            }
            let ghost before = c@;
            c[i * n_batch + j] = (accumulator % (PRIME as u64)) as u16;
            proof {
                assert forall|i2: int, j2: int| 0 <= i2 < i && 0 <= j2 < n_batch implies #[trigger] c@[i2
                    * n_batch + j2] == field_cell(q@, d@, i2, j2) by {
                    lemma_row_prefix(i as int, i2, j2, n_batch as int);
                    assert(before[i2 * n_batch + j2] == field_cell(q@, d@, i2, j2));
                }
                assert forall|j2: int| 0 <= j2 < j + 1 implies #[trigger] c@[i * n_batch + j2]
                    == field_cell(q@, d@, i as int, j2) by {
                    if j2 < j {
                        assert(before[i * n_batch + j2] == field_cell(q@, d@, i as int, j2));
                    }
                }
            }
            j += 1;
        }
        i += 1;
    }
}

} // verus!
