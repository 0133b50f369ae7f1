//! The counter accumulator: a running count of points per stream.

use std::collections::HashMap;
use vstd::prelude::*;
use vstd::slice::slice_to_vec;

use crate::batch::{batch_of, touches, StreamUpdate, StreamUpdater};
use crate::digest::{
    aggregate_of, compute_merkle_tree, leaf_bytes, sha256, sha256_of, Leaf, MerkleTreeDigest,
    Point, StreamID,
};

verus! {

broadcast use vstd::std_specs::hash::group_hash_axioms;

/// The big-endian bytes of `x`.
pub open spec fn be32(x: u32) -> Seq<u8> {
    seq![(x >> 24u32) as u8, (x >> 16u32) as u8, (x >> 8u32) as u8, x as u8]
}

/// The running count of `id` in `m`; zero for a stream never seen.
pub open spec fn count_in(m: Map<u32, u32>, id: u32) -> int {
    if m.contains_key(id) {
        m[id] as int
    } else {
        0
    }
}

/// The running counts after each entry of the batch adds its number of points.
pub open spec fn counts_after(m: Map<u32, u32>, batch: Seq<(StreamID, Seq<Point>)>) -> Map<u32, u32>
    decreases batch.len(),
{
    if batch.len() == 0 {
        m
    } else {
        let prev = counts_after(m, batch.drop_last());
        let id = batch.last().0.0;
        prev.insert(id, (count_in(prev, id) + batch.last().1.len()) as u32)
    }
}

/// Whether no running count leaves the 32-bit range while the batch is applied.
pub open spec fn counts_fit(m: Map<u32, u32>, batch: Seq<(StreamID, Seq<Point>)>) -> bool
    decreases batch.len(),
{
    batch.len() == 0 || {
        &&& counts_fit(m, batch.drop_last())
        &&& count_in(counts_after(m, batch.drop_last()), batch.last().0.0) + batch.last().1.len()
            <= u32::MAX
    }
}

/// The leaf of one entry: the hash of the stream id, the entry's number of
/// points and the new running count, each in big-endian order.
pub open spec fn counter_leaf(id: u32, local: u32, total: u32) -> Seq<u8> {
    sha256_of(be32(id) + be32(local) + be32(total))
}

/// The leaves of the batch's entries, in batch order.
pub open spec fn counter_leaves(m: Map<u32, u32>, batch: Seq<(StreamID, Seq<Point>)>) -> Seq<Seq<u8>>
    decreases batch.len(),
{
    if batch.len() == 0 {
        Seq::empty()
    } else {
        let id = batch.last().0.0;
        let local = batch.last().1.len();
        let total = count_in(counts_after(m, batch.drop_last()), id) + local;
        counter_leaves(m, batch.drop_last()).push(counter_leaf(id, local as u32, total as u32))
    }
}

/// A prefix of a batch whose counts fit has counts that fit.
pub proof fn lemma_counts_fit_prefix(m: Map<u32, u32>, batch: Seq<(StreamID, Seq<Point>)>, k: int)
    requires
        counts_fit(m, batch),
        0 <= k <= batch.len(),
    ensures
        counts_fit(m, batch.take(k)),
    decreases batch.len(),
{
    if k == batch.len() {
        assert(batch.take(k) == batch);
    } else {
        assert(batch.take(k) == batch.drop_last().take(k));
        lemma_counts_fit_prefix(m, batch.drop_last(), k);
    }
}

/// A batch with a prefix whose counts do not fit does not fit either.
proof fn lemma_counts_fit_extend(m: Map<u32, u32>, batch: Seq<(StreamID, Seq<Point>)>, k: int)
    requires
        0 <= k <= batch.len(),
        !counts_fit(m, batch.take(k)),
    ensures
        !counts_fit(m, batch),
{
    if counts_fit(m, batch) {
        lemma_counts_fit_prefix(m, batch, k);
    }
}

/// Appends the big-endian bytes of `x` to `buf`.
fn push_be32(buf: &mut Vec<u8>, x: u32)
    ensures
        final(buf)@ == old(buf)@ + be32(x),
{
    buf.push((x >> 24u32) as u8);
    buf.push((x >> 16u32) as u8);
    buf.push((x >> 8u32) as u8);
    buf.push(x as u8);
    assert(final(buf)@ =~= old(buf)@ + be32(x));
}

/// Tracks, per stream, how many points have ever been applied to it.
pub struct CounterSparseNode {
    pub counts: HashMap<u32, u32>,
}

impl CounterSparseNode {
    /// An accumulator that has seen no stream.
    pub fn new() -> (r: Self)
        ensures
            r.counts@ == Map::<u32, u32>::empty(),
    {
        Self { counts: HashMap::new() }
    }

    /// Whether `update` can apply the batch without a running count leaving
    /// the 32-bit range.
    pub fn can_update(&self, updates: &Vec<StreamUpdate>) -> (r: bool)
        ensures
            r == counts_fit(self.counts@, batch_of(updates@)),
    {
        let ghost batch = batch_of(updates@);
        let mut counts = self.counts.clone();
        let mut i: usize = 0;
        while i < updates.len()
            invariant
                i <= updates@.len(),
                batch == batch_of(updates@),
                counts_fit(self.counts@, batch.take(i as int)),
                counts@ == counts_after(self.counts@, batch.take(i as int)),
            decreases updates@.len() - i,
        {
            let ghost prefix = batch.take(i + 1);
            proof {
                assert(prefix.drop_last() == batch.take(i as int));
            }
            let id = updates[i].0.0;
            let prior: u32 = match counts.get(&id) {
                Some(c) => *c,
                None => 0,
            };
            if updates[i].1.len() > (u32::MAX - prior) as usize {
                proof {
                    lemma_counts_fit_extend(self.counts@, batch, i + 1);
                }
                return false;
            }
            counts.insert(id, prior + updates[i].1.len() as u32);
            i += 1;
        }
        proof {
            assert(batch.take(i as int) == batch);
        }
        true
    }
}

impl StreamUpdater for CounterSparseNode {
    open spec fn admits(&self, batch: Seq<(StreamID, Seq<Point>)>) -> bool {
        counts_fit(self.counts@, batch)
    }

    open spec fn leaves(&self, batch: Seq<(StreamID, Seq<Point>)>) -> Seq<Seq<u8>> {
        counter_leaves(self.counts@, batch)
    }

    proof fn lemma_one_leaf_per_entry(&self, batch: Seq<(StreamID, Seq<Point>)>) {
        lemma_counter_leaf_count(self.counts@, batch);
    }

    fn update(&mut self, updates: Vec<StreamUpdate>) -> (r: MerkleTreeDigest)
        ensures
            final(self).counts@ == counts_after(old(self).counts@, batch_of(updates@)),
    {
        let ghost batch = batch_of(updates@);
        let mut leafs: Vec<Leaf> = Vec::new();
        let mut i: usize = 0;
        while i < updates.len()
            invariant
                i <= updates@.len(),
                batch == batch_of(updates@),
                counts_fit(old(self).counts@, batch),
                self.counts@ == counts_after(old(self).counts@, batch.take(i as int)),
                leaf_bytes(leafs@) == counter_leaves(old(self).counts@, batch.take(i as int)),
            decreases updates@.len() - i,
        {
            let ghost prefix = batch.take(i + 1);
            proof {
                lemma_counts_fit_prefix(old(self).counts@, batch, i + 1);
                assert(prefix.drop_last() == batch.take(i as int));
            }
            let stream_id = updates[i].0;
            let sum: u32 = updates[i].1.len() as u32;
            let prior: u32 = match self.counts.get(&stream_id.0) {
                Some(c) => *c,
                None => 0,
            };
            let counter: u32 = prior + sum;
            self.counts.insert(stream_id.0, counter);

            // Only the updated entry is hashed.
            let mut buf: Vec<u8> = Vec::new();
            push_be32(&mut buf, stream_id.0);
            push_be32(&mut buf, sum);
            push_be32(&mut buf, counter);
            let digest = sha256(buf.as_slice());
            leafs.push(Leaf(slice_to_vec(digest.as_slice())));
            i += 1;
            proof {
                assert(leaf_bytes(leafs@) =~= counter_leaves(old(self).counts@, prefix));
            }
        }
        proof {
            assert(batch.take(i as int) == batch);
        }
        // The aggregate covers only the updated entries.
        compute_merkle_tree(leafs)
    }
}

/// The counter accumulator yields one leaf per entry.
pub proof fn lemma_counter_leaf_count(m: Map<u32, u32>, batch: Seq<(StreamID, Seq<Point>)>)
    ensures
        counter_leaves(m, batch).len() == batch.len(),
    decreases batch.len(),
{
    if batch.len() > 0 {
        lemma_counter_leaf_count(m, batch.drop_last());
    }
}

/// The number of points that the batch's entries for `id` carry, all together.
pub open spec fn points_for(batch: Seq<(StreamID, Seq<Point>)>, id: u32) -> int
    decreases batch.len(),
{
    if batch.len() == 0 {
        0
    } else if batch.last().0.0 == id {
        points_for(batch.drop_last(), id) + batch.last().1.len()
    } else {
        points_for(batch.drop_last(), id)
    }
}

/// A stream's running count after a batch is its count before plus the number
/// of points that the batch carries for it; so it never decreases.
pub proof fn lemma_counter_monotone(m: Map<u32, u32>, batch: Seq<(StreamID, Seq<Point>)>, id: u32)
    requires
        counts_fit(m, batch),
    ensures
        count_in(counts_after(m, batch), id) == count_in(m, id) + points_for(batch, id),
        count_in(counts_after(m, batch), id) >= count_in(m, id),
    decreases batch.len(),
{
    if batch.len() > 0 {
        lemma_counter_monotone(m, batch.drop_last(), id);
    }
}

/// A stream that no entry of the batch names keeps its count, or its absence.
pub proof fn lemma_counter_isolation(m: Map<u32, u32>, batch: Seq<(StreamID, Seq<Point>)>, id: u32)
    requires
        !touches(batch, id),
    ensures
        counts_after(m, batch).contains_key(id) == m.contains_key(id),
        m.contains_key(id) ==> counts_after(m, batch)[id] == m[id],
    decreases batch.len(),
{
    if batch.len() > 0 {
        assert(batch.last() == batch[batch.len() - 1]);
        assert forall|i: int| 0 <= i < batch.drop_last().len() implies (#[trigger] batch.drop_last()[i]).0.0 != id by {
            assert(batch.drop_last()[i] == batch[i]);
        }
        lemma_counter_isolation(m, batch.drop_last(), id);
    }
}

/// Leaf `i` of a batch is derived from entry `i` alone: its stream, its number of
/// points, and that stream's running count once the entry is applied.
pub proof fn lemma_counter_leaf_of_entry(m: Map<u32, u32>, batch: Seq<(StreamID, Seq<Point>)>, i: int)
    requires
        0 <= i < batch.len(),
    ensures
        counter_leaves(m, batch)[i] == counter_leaf(
            batch[i].0.0,
            batch[i].1.len() as u32,
            counts_after(m, batch.take(i + 1))[batch[i].0.0],
        ),
    decreases batch.len(),
{
    lemma_counter_leaf_count(m, batch.drop_last());
    if i == batch.len() - 1 {
        assert(batch.take(i + 1) == batch);
        assert(batch.take(i + 1).drop_last() == batch.drop_last());
    } else {
        assert(batch.drop_last().take(i + 1) == batch.take(i + 1));
        lemma_counter_leaf_of_entry(m, batch.drop_last(), i);
    }
}

/// An empty batch changes no count and yields no leaf, so its aggregate is
/// the hash of the empty input.
pub proof fn lemma_counter_empty_batch(m: Map<u32, u32>)
    ensures
        counts_after(m, Seq::empty()) == m,
        counter_leaves(m, Seq::empty()) == Seq::<Seq<u8>>::empty(),
        aggregate_of(counter_leaves(m, Seq::empty())) == sha256_of(Seq::empty()),
{
}

/// Equal prior counts and equal batches give equal counts and equal aggregates.
pub proof fn lemma_counter_deterministic(
    a: Map<u32, u32>,
    b: Map<u32, u32>,
    x: Seq<(StreamID, Seq<Point>)>,
    y: Seq<(StreamID, Seq<Point>)>,
)
    requires
        a == b,
        x == y,
    ensures
        counts_after(a, x) == counts_after(b, y),
        aggregate_of(counter_leaves(a, x)) == aggregate_of(counter_leaves(b, y)),
{
}

} // verus!
