//! The decisions of the resolver and of a participant: how a database is cut
//! into tiles, how numerators travel as bytes, how the resolver puts the
//! shares of the numerators together, and how it keeps the closest entry.

use crate::bits::Bits;
use crate::encoded_bits::EncodedBits;
use crate::fraction::{closer, min_of, Fraction};
use crate::ring::{
    lemma_wrapping_add, ring_add, ring_zero, sum_of, word_from_bytes, word_to_bytes,
};
use crate::template::Template;
use crate::{decode_distance, decoded_lanes, lane_consistent, DistanceEngine, MasksEngine};
use vstd::prelude::*;

verus! {

/// Entries in one tile. Resolver and participants cut the database into the
/// same tiles.
pub const BATCH_SIZE: usize = 20_000;

/// Bytes of one tuple of 31 numerators on the wire.
pub const TUPLE_BYTES: usize = 62;

/// The number of tiles that a database of `count` entries is cut into.
pub open spec fn spec_tile_count(count: int) -> int {
    (count + 19_999) / 20_000
}

/// The number of tiles that a database of `count` entries is cut into.
pub fn tile_count(count: usize) -> (tiles: usize)
    ensures
        tiles == spec_tile_count(count as int),
{
    if count % BATCH_SIZE == 0 {
        count / BATCH_SIZE
    } else {
        count / BATCH_SIZE + 1
    }
}

/// The entries of tile `tile` of a database of `count` entries: those from
/// `start` up to, not including, `end`.
pub fn tile_bounds(count: usize, tile: usize) -> (bounds: (usize, usize))
    requires
        tile < spec_tile_count(count as int),
    ensures
        bounds.0 == tile * 20_000,
        bounds.1 == if bounds.0 + 20_000 <= count {
            bounds.0 + 20_000
        } else {
            count as int
        },
        bounds.0 < bounds.1 <= count,
{
    let start = tile * BATCH_SIZE;
    let end = if count - start >= BATCH_SIZE {
        start + BATCH_SIZE
    } else {
        count
    };
    (start, end)
}

/// The number of whole tuples in a batch of `batch` tuples of which the last
/// `unread` bytes never arrived: the whole tuples among the bytes that did.
pub fn complete_tuples(batch: usize, unread: usize) -> (whole: usize)
    requires
        batch * 62 <= usize::MAX,
        unread <= batch * 62,
    ensures
        whole == (batch * 62 - unread) / 62,
{
    let incomplete = if unread % TUPLE_BYTES == 0 {
        unread / TUPLE_BYTES
    } else {
        unread / TUPLE_BYTES + 1
    };
    batch - incomplete
}

/// Whether a stream that ended with `unread` bytes of a batch missing ended
/// inside a tuple.
pub fn ended_inside_tuple(unread: usize) -> (partial: bool)
    ensures
        partial == (unread % 62 != 0),
{
    unread % TUPLE_BYTES != 0
}

/// The number of records of `record` bytes in a file of `len` bytes, if the
/// file holds whole records only.
pub fn record_count(len: usize, record: usize) -> (count: Option<usize>)
    requires
        record > 0,
    ensures
        count is Some <==> len % record == 0,
        count matches Some(n) ==> n == len / record,
{
    if len % record == 0 {
        Some(len / record)
    } else {
        None
    }
}

/// The bytes of a sequence of tuples of 31 numerators: tuple after tuple,
/// lane after lane, the low byte of a numerator before its high byte.
pub open spec fn tuples_bytes(tuples: Seq<Seq<u16>>) -> Seq<u8> {
    Seq::new(
        62 * tuples.len(),
        |p: int|
            {
                let word = tuples[p / 62][(p % 62) / 2];
                if p % 2 == 0 {
                    (word % 256) as u8
                } else {
                    (word / 256) as u8
                }
            },
    )
}

/// The tuples of numerators as sequences.
pub open spec fn tuple_views(tuples: Seq<[u16; 31]>) -> Seq<Seq<u16>> {
    Seq::new(tuples.len(), |i: int| tuples[i]@)
}

/// The bytes that carry the given tuples of numerators.
pub fn tuples_to_bytes(tuples: &[[u16; 31]]) -> (bytes: Vec<u8>)
    ensures
        bytes@ == tuples_bytes(tuple_views(tuples@)),
{
    let n = tuples.len();
    let mut bytes: Vec<u8> = Vec::new();
    let mut i: usize = 0;
    while i < n
        invariant
            0 <= i <= n,
            n == tuples@.len(),
            bytes@.len() == 62 * i,
            forall|p: int| 0 <= p < 62 * i ==> bytes@[p] == tuples_bytes(tuple_views(tuples@))[p],
        decreases n - i,
    {
        let mut k: usize = 0;
        while k < 31
            invariant
                0 <= i < n,
                0 <= k <= 31,
                n == tuples@.len(),
                bytes@.len() == 62 * i + 2 * k,
                forall|p: int| 0 <= p < 62 * i + 2 * k ==> bytes@[p] == tuples_bytes(tuple_views(tuples@))[p],
            decreases 31 - k,
        {
            let pair = word_to_bytes(tuples[i][k]);
            proof {
                let p = 62 * i + 2 * k;
                assert(p / 62 == i && (p % 62) / 2 == k && p % 2 == 0);
                assert((p + 1) / 62 == i && ((p + 1) % 62) / 2 == k && (p + 1) % 2 == 1);
            }
            bytes.push(pair[0]);
            bytes.push(pair[1]);
            k += 1;
        }
        i += 1;
    }
    assert(bytes@ =~= tuples_bytes(tuple_views(tuples@)));
    bytes
}

/// The whole tuples of numerators that the given bytes carry. Bytes after
/// the last whole tuple are left out.
pub fn tuples_from_bytes(bytes: &[u8]) -> (tuples: Vec<[u16; 31]>)
    ensures
        tuples@.len() == bytes@.len() / 62,
        tuples_bytes(tuple_views(tuples@)) == bytes@.subrange(0, 62 * (bytes@.len() / 62) as int),
{
    let n = bytes.len() / TUPLE_BYTES;
    let mut tuples: Vec<[u16; 31]> = Vec::with_capacity(n);
    let mut i: usize = 0;
    while i < n
        invariant
            0 <= i <= n,
            n == bytes@.len() / 62,
            bytes@.len() <= usize::MAX,
            tuples@.len() == i,
            forall|j: int, k: int|
                0 <= j < i && 0 <= k < 31 ==> (#[trigger] tuples@[j]@[k]) == bytes@[62 * j + 2 * k]
                    + 256 * bytes@[62 * j + 2 * k + 1],
        decreases n - i,
    {
        let mut tuple = [0u16; 31];
        let mut k: usize = 0;
        while k < 31
            invariant
                0 <= i < n,
                0 <= k <= 31,
                n == bytes@.len() / 62,
                bytes@.len() <= usize::MAX,
                forall|m: int|
                    0 <= m < k ==> tuple@[m] == bytes@[62 * i + 2 * m] + 256 * bytes@[62 * i + 2 * m
                        + 1],
            decreases 31 - k,
        {
            let pair = [bytes[62 * i + 2 * k], bytes[62 * i + 2 * k + 1]];
            tuple[k] = word_from_bytes(pair);
            k += 1;
        }
        tuples.push(tuple);
        i += 1;
    }
    proof {
        let whole = bytes@.subrange(0, 62 * n as int);
        assert forall|p: int| 0 <= p < 62 * n implies tuples_bytes(tuple_views(tuples@))[p] == whole[p] by {
            let j = p / 62;
            let k = (p % 62) / 2;
            assert(0 <= j < n && 0 <= k < 31);
            assert(tuples@[j]@[k] == bytes@[62 * j + 2 * k] + 256 * bytes@[62 * j + 2 * k + 1]);
            assert(p == 62 * j + 2 * k + p % 2);
        }
        assert(tuples_bytes(tuple_views(tuples@)) =~= whole);
    }
    tuples
}

/// The tuples that the participants hold for entry `i` of a batch, one for
/// each participant.
pub open spec fn tuples_at(shares: Seq<Vec<[u16; 31]>>, i: int) -> Seq<Seq<u16>> {
    Seq::new(shares.len(), |s: int| shares[s]@[i]@)
}

/// The length of the shortest of the batches: that of the denominators and
/// those of the participants.
pub open spec fn shortest(denominators: nat, shares: Seq<Vec<[u16; 31]>>, n: nat) -> nat
    decreases n,
{
    if n == 0 {
        denominators
    } else {
        let rest = shortest(denominators, shares, (n - 1) as nat);
        if shares[n - 1]@.len() < rest {
            shares[n - 1]@.len()
        } else {
            rest
        }
    }
}

/// The shortest batch is no longer than any batch.
pub proof fn lemma_shortest(denominators: nat, shares: Seq<Vec<[u16; 31]>>, n: nat)
    requires
        n <= shares.len(),
    ensures
        shortest(denominators, shares, n) <= denominators,
        forall|s: int| 0 <= s < n ==> shortest(denominators, shares, n) <= (#[trigger] shares[s])@.len(),
        shortest(denominators, shares, n) == denominators || exists|s: int|
            0 <= s < n && shortest(denominators, shares, n) == (#[trigger] shares[s])@.len(),
    decreases n,
{
    if n > 0 {
        lemma_shortest(denominators, shares, (n - 1) as nat);
    }
}

/// The number of entries that every batch holds: the length of the shortest
/// one.
pub fn batch_length(denominators: &Vec<[u16; 31]>, shares: &Vec<Vec<[u16; 31]>>) -> (size: usize)
    ensures
        size == shortest(denominators@.len(), shares@, shares@.len()),
        size <= denominators@.len(),
        forall|s: int| 0 <= s < shares@.len() ==> size <= (#[trigger] shares@[s])@.len(),
{
    let mut size = denominators.len();
    let mut s: usize = 0;
    while s < shares.len()
        invariant
            0 <= s <= shares@.len(),
            size == shortest(denominators@.len(), shares@, s as nat),
        decreases shares@.len() - s,
    {
        if shares[s].len() < size {
            size = shares[s].len();
        }
        s += 1;
    }
    proof {
        lemma_shortest(denominators@.len(), shares@, shares@.len());
    }
    size
}

/// The numerators of entry `i`: the sum modulo 2^16, lane by lane, of the
/// tuples that the participants hold for it.
pub fn sum_numerators(shares: &Vec<Vec<[u16; 31]>>, i: usize) -> (numerator: [u16; 31])
    requires
        forall|s: int| 0 <= s < shares@.len() ==> i < (#[trigger] shares@[s])@.len(),
    ensures
        numerator@ == sum_of(tuples_at(shares@, i as int), shares@.len(), 31),
{
    let mut numerator = [0u16; 31];
    assert(numerator@ =~= ring_zero(31));
    let mut s: usize = 0;
    while s < shares.len()
        invariant
            0 <= s <= shares@.len(),
            forall|s: int| 0 <= s < shares@.len() ==> i < (#[trigger] shares@[s])@.len(),
            numerator@ == sum_of(tuples_at(shares@, i as int), s as nat, 31),
        decreases shares@.len() - s,
    {
        let share = shares[s][i];
        let ghost before = numerator@;
        let mut k: usize = 0;
        while k < 31
            invariant
                0 <= k <= 31,
                before.len() == 31,
                forall|j: int| 0 <= j < k ==> numerator@[j] == crate::ring::reduce(before[j] + share@[j]),
                forall|j: int| k <= j < 31 ==> numerator@[j] == before[j],
            decreases 31 - k,
        {
            proof {
                lemma_wrapping_add(numerator@[k as int], share@[k as int]);
            }
            numerator[k] = numerator[k].wrapping_add(share[k]);
            k += 1;
        }
        assert(numerator@ =~= ring_add(before, share@));
        assert(tuples_at(shares@, i as int)[s as int] == share@);
        s += 1;
    }
    numerator
}

/// The distance that the resolver puts together for entry `i` of a batch.
pub open spec fn reconstructed(
    denominators: Seq<[u16; 31]>,
    shares: Seq<Vec<[u16; 31]>>,
    i: int,
) -> Option<Fraction> {
    min_of(
        decoded_lanes(sum_of(tuples_at(shares, i), shares.len(), 31), denominators[i]@),
        31,
    )
}

/// The distances of the first `size` entries of a batch, each put together
/// from its denominators and the sum of the shares of its numerators.
pub fn reconstruct(
    denominators: &Vec<[u16; 31]>,
    shares: &Vec<Vec<[u16; 31]>>,
    size: usize,
) -> (distances: Vec<Option<Fraction>>)
    requires
        size <= denominators@.len(),
        forall|s: int| 0 <= s < shares@.len() ==> size <= (#[trigger] shares@[s])@.len(),
    ensures
        distances@.len() == size,
        forall|i: int|
            0 <= i < size ==> #[trigger] distances@[i] == reconstructed(denominators@, shares@, i),
{
    let mut distances: Vec<Option<Fraction>> = Vec::with_capacity(size);
    let mut i: usize = 0;
    while i < size
        invariant
            0 <= i <= size,
            size <= denominators@.len(),
            forall|s: int| 0 <= s < shares@.len() ==> size <= (#[trigger] shares@[s])@.len(),
            distances@.len() == i,
            forall|j: int|
                0 <= j < i ==> #[trigger] distances@[j] == reconstructed(denominators@, shares@, j),
        decreases size - i,
    {
        let numerator = sum_numerators(shares, i);
        distances.push(decode_distance(&numerator, &denominators[i]));
        i += 1;
    }
    distances
}

/// The closest entry so far: its index in the database and its distance.
/// With no distance, no entry had a position to compare, and the index says
/// nothing.
#[derive(Clone, Copy, PartialEq, Eq, Debug)]
pub struct Best {
    pub index: usize,
    pub distance: Option<Fraction>,
}

/// Whether distance `next` beats the best distance so far. An entry without
/// a distance beats nothing, and any distance beats none.
pub open spec fn beats(next: Option<Fraction>, best: Option<Fraction>) -> bool {
    match next {
        None => false,
        Some(f) => match best {
            None => true,
            Some(b) => closer(f, b),
        },
    }
}

/// The closest entry after the first `n` of the given distances, which
/// belong to the entries from `offset` on, starting from `best`. Of entries
/// at the same distance the first one stays.
pub open spec fn best_after(best: Best, offset: int, distances: Seq<Option<Fraction>>, n: nat) -> Best
    decreases n,
{
    if n == 0 {
        best
    } else {
        let before = best_after(best, offset, distances, (n - 1) as nat);
        if beats(distances[n - 1], before.distance) {
            Best { index: (offset + n - 1) as usize, distance: distances[n - 1] }
        } else {
            before
        }
    }
}

/// The state of the resolver while it answers one query.
#[derive(Clone, Copy, PartialEq, Eq, Debug)]
pub struct Resolver {
    /// Entries seen so far.
    pub seen: usize,
    /// The closest of them.
    pub best: Best,
}

/// What the resolver does after a batch.
#[derive(Clone, Copy, PartialEq, Eq, Debug)]
pub enum Action {
    /// Wait for the next batch.
    Continue,
    /// Every producer has ended: report the closest entry, out of `seen`.
    Report { best: Best, seen: usize },
}

impl Resolver {
    /// The state before the first batch: nothing seen, no distance, and the
    /// largest index there is.
    pub fn new() -> (resolver: Self)
        ensures
            resolver.seen == 0,
            resolver.best == (Best { index: usize::MAX, distance: None }),
    {
        Resolver { seen: 0, best: Best { index: usize::MAX, distance: None } }
    }

    /// Takes in the distances of the next entries, in their order.
    pub fn absorb(&mut self, distances: &Vec<Option<Fraction>>)
        requires
            old(self).seen + distances@.len() <= usize::MAX,
        ensures
            final(self).seen == old(self).seen + distances@.len(),
            final(self).best == best_after(
                old(self).best,
                old(self).seen as int,
                distances@,
                distances@.len(),
            ),
    {
        let offset = self.seen;
        let ghost start = self.best;
        let mut j: usize = 0;
        while j < distances.len()
            invariant
                0 <= j <= distances@.len(),
                offset + distances@.len() <= usize::MAX,
                self.seen == offset,
                self.best == best_after(start, offset as int, distances@, j as nat),
            decreases distances@.len() - j,
        {
            let better = match distances[j] {
                None => false,
                Some(f) => match self.best.distance {
                    None => true,
                    Some(b) => f.closer_than(&b),
                },
            };
            if better {
                self.best = Best { index: offset + j, distance: distances[j] };
            }
            j += 1;
        }
        self.seen = offset + distances.len();
    }

    /// Takes in one batch: the denominators of the next entries and, from
    /// each participant, its shares of their numerators. Only the entries
    /// that every batch holds count. A batch without such an entry ends the
    /// query.
    pub fn step(&mut self, denominators: &Vec<[u16; 31]>, shares: &Vec<Vec<[u16; 31]>>) -> (action:
        Action)
        requires
            old(self).seen + denominators@.len() <= usize::MAX,
        ensures
            ({
                let size = shortest(denominators@.len(), shares@, shares@.len());
                let distances = Seq::new(
                    size,
                    |i: int| reconstructed(denominators@, shares@, i),
                );
                &&& final(self).seen == old(self).seen + size
                &&& final(self).best == best_after(
                    old(self).best,
                    old(self).seen as int,
                    distances,
                    size,
                )
                &&& size == 0 ==> action == (Action::Report {
                    best: old(self).best,
                    seen: old(self).seen,
                })
                &&& size > 0 ==> action == Action::Continue
            }),
    {
        let size = batch_length(denominators, shares);
        if size == 0 {
            return Action::Report { best: self.best, seen: self.seen };
        }
        let distances = reconstruct(denominators, shares, size);
        assert(distances@ =~= Seq::new(
            size as nat,
            |i: int| reconstructed(denominators@, shares@, i),
        ));
        self.absorb(&distances);
        Action::Continue
    }
}

/// The numerators of a query against every entry of a tile.
pub open spec fn tile_numerators(query: Seq<u16>, tile: Seq<EncodedBits>) -> Seq<Seq<u16>> {
    Seq::new(tile.len(), |i: int| crate::numerators(query, tile[i]@))
}

/// The bytes that a participant sends for one tile: the numerators of the
/// query against every entry of the tile, in their order.
pub fn participant_tile(engine: &DistanceEngine, tile: &[EncodedBits]) -> (reply: Vec<u8>)
    requires
        engine.wf(),
    ensures
        reply@ == tuples_bytes(tile_numerators(engine.query(), tile@)),
{
    let mut tuples: Vec<[u16; 31]> = Vec::with_capacity(tile.len());
    let mut i: usize = 0;
    while i < tile.len()
        invariant
            0 <= i <= tile@.len(),
            engine.wf(),
            tuples@.len() == i,
            forall|j: int|
                0 <= j < i ==> (#[trigger] tuples@[j])@ == crate::numerators(
                    engine.query(),
                    tile@[j]@,
                ),
        decreases tile@.len() - i,
    {
        tuples.push(engine.process(&tile[i]));
        i += 1;
    }
    assert(tuple_views(tuples@) =~= tile_numerators(engine.query(), tile@));
    tuples_to_bytes(tuples.as_slice())
}

/// The denominators that the resolver computes for one tile of masks.
pub fn resolver_tile(engine: &MasksEngine, tile: &[Bits]) -> (denominators: Vec<[u16; 31]>)
    requires
        engine.wf(),
    ensures
        denominators@.len() == tile@.len(),
        forall|i: int|
            0 <= i < tile@.len() ==> (#[trigger] denominators@[i])@ == crate::mask_denominators(
                engine.query(),
                tile@[i]@,
            ),
{
    let mut denominators: Vec<[u16; 31]> = Vec::with_capacity(tile.len());
    let mut i: usize = 0;
    while i < tile.len()
        invariant
            0 <= i <= tile@.len(),
            engine.wf(),
            denominators@.len() == i,
            forall|j: int|
                0 <= j < i ==> (#[trigger] denominators@[j])@ == crate::mask_denominators(
                    engine.query(),
                    tile@[j]@,
                ),
        decreases tile@.len() - i,
    {
        denominators.push(engine.process(&tile[i]));
        i += 1;
    }
    denominators
}

/// Why a query is given up.
#[derive(Clone, Copy, PartialEq, Eq, Debug)]
pub enum ProtocolError {
    /// A request does not hold the 3,200 bytes of a template.
    ShortRequest,
    /// The numerator and the denominator of lane `lane` cannot belong to the
    /// same pair of templates.
    Inconsistent { lane: usize },
}

/// The template that a request carries. A request of any other length than
/// 3,200 bytes is refused.
pub fn read_request(bytes: &[u8]) -> (result: Result<Template, ProtocolError>)
    ensures
        result is Ok <==> bytes@.len() == 3200,
        result matches Ok(template) ==> template.pattern.bytes() + template.mask.bytes()
            == bytes@,
        result matches Err(e) ==> e == ProtocolError::ShortRequest,
{
    if bytes.len() != 3200 {
        return Err(ProtocolError::ShortRequest);
    }
    let mut request = [0u8; 3200];
    let mut i: usize = 0;
    while i < 3200
        invariant
            0 <= i <= 3200,
            bytes@.len() == 3200,
            forall|k: int| 0 <= k < i ==> request@[k] == bytes@[k],
        decreases 3200 - i,
    {
        request[i] = bytes[i];
        i += 1;
    }
    assert(request@ =~= bytes@);
    Ok(Template::from_bytes(&request))
}

/// Decodes 31 numerators and denominators as `decode_distance` does, after
/// making sure that every lane is consistent. The first lane that is not is
/// reported.
pub fn decode_checked(distances: &[u16; 31], denominators: &[u16; 31]) -> (result: Result<
    Option<Fraction>,
    ProtocolError,
>)
    ensures
        match result {
            Ok(least) => {
                &&& forall|k: int|
                    0 <= k < 31 ==> lane_consistent(#[trigger] distances@[k], denominators@[k])
                &&& least == min_of(decoded_lanes(distances@, denominators@), 31)
            },
            Err(ProtocolError::Inconsistent { lane }) => {
                &&& lane < 31
                &&& !lane_consistent(distances@[lane as int], denominators@[lane as int])
                &&& forall|k: int|
                    0 <= k < lane ==> lane_consistent(#[trigger] distances@[k], denominators@[k])
            },
            Err(ProtocolError::ShortRequest) => false,
        },
{
    let mut k: usize = 0;
    while k < 31
        invariant
            0 <= k <= 31,
            forall|j: int| 0 <= j < k ==> lane_consistent(#[trigger] distances@[j], denominators@[j]),
        decreases 31 - k,
    {
        let d = denominators[k];
        let difference = d.wrapping_sub(distances[k]);
        if difference % 2 != 0 || difference / 2 > d {
            return Err(ProtocolError::Inconsistent { lane: k });
        }
        k += 1;
    }
    Ok(decode_distance(distances, denominators))
}

} // verus!
