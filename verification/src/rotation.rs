//! The index arithmetic of row rotation.
//!
//! A code is laid out as 64 rows of 200 columns, row after row. Rotating by
//! `amount` moves every element `amount` columns toward higher column
//! indices inside its row, wrapping at column 200; a negative amount moves
//! toward lower column indices.

use vstd::prelude::*;

verus! {

/// The position that the element at position `i` of a rotated code came from.
pub open spec fn source_index(i: int, amount: int) -> int {
    (i / 200) * 200 + (i % 200 - amount) % 200
}

/// The sequence `s` with every row rotated by `amount` columns.
pub open spec fn rotate_seq<T>(s: Seq<T>, amount: int) -> Seq<T> {
    Seq::new(s.len(), |i: int| s[source_index(i, amount)])
}

/// A source position lies in the same row as the position it feeds.
pub proof fn lemma_source_index_in_row(i: int, amount: int)
    requires
        0 <= i,
    ensures
        0 <= source_index(i, amount),
        source_index(i, amount) / 200 == i / 200,
        source_index(i, amount) % 200 == (i % 200 - amount) % 200,
{
    let row = i / 200;
    let col = (i % 200 - amount) % 200;
    assert(0 <= col < 200);
    assert((row * 200 + col) / 200 == row && (row * 200 + col) % 200 == col) by (nonlinear_arith)
        requires
            0 <= col < 200,
            0 <= row,
    ;
}

/// Rotating by `b` and then by `a` reads from where rotating by `a + b` reads.
pub proof fn lemma_source_index_compose(i: int, a: int, b: int)
    requires
        0 <= i,
    ensures
        source_index(source_index(i, a), b) == source_index(i, a + b),
{
    lemma_source_index_in_row(i, a);
    let c = i % 200;
    assert(((c - a) % 200 - b) % 200 == (c - (a + b)) % 200);
}

/// Rotating by zero reads every element from its own position.
pub proof fn lemma_source_index_zero(i: int)
    requires
        0 <= i,
    ensures
        source_index(i, 0) == i,
{
}

/// Rotating a code of full length by `amount` and then by `-amount` gives it back.
pub proof fn lemma_rotate_seq_inverse<T>(s: Seq<T>, amount: int)
    requires
        s.len() == 12800,
    ensures
        rotate_seq(rotate_seq(s, amount), -amount) =~= s,
{
    assert forall|i: int| 0 <= i < 12800 implies rotate_seq(rotate_seq(s, amount), -amount)[i]
        == s[i] by {
        lemma_source_index_in_row(i, -amount);
        lemma_source_index_compose(i, -amount, amount);
        lemma_source_index_zero(i);
        lemma_source_index_bound(i, -amount);
    }
}

/// A source position of a position inside a code lies inside the code.
pub proof fn lemma_source_index_bound(i: int, amount: int)
    requires
        0 <= i < 12800,
    ensures
        0 <= source_index(i, amount) < 12800,
{
    lemma_source_index_in_row(i, amount);
}

/// Rotating by zero changes nothing.
pub proof fn lemma_rotate_seq_zero<T>(s: Seq<T>)
    ensures
        rotate_seq(s, 0) =~= s,
{
}

} // verus!
