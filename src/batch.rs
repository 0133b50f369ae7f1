//! Batches of stream updates and the capability shared by the accumulators.

use vstd::prelude::*;

use crate::digest::{aggregate_of, MerkleTreeDigest, Point, StreamID, DIGEST_LEN};

verus! {

/// One stream with the points to fold into it, in order.
pub type StreamUpdate = (StreamID, Vec<Point>);

/// A batch as a value: each entry's stream and its points, in batch order.
pub open spec fn batch_of(updates: Seq<StreamUpdate>) -> Seq<(StreamID, Seq<Point>)> {
    updates.map_values(|u: StreamUpdate| (u.0, u.1@))
}

/// Whether `id` is the stream of some entry of the batch.
pub open spec fn touches(batch: Seq<(StreamID, Seq<Point>)>, id: u32) -> bool {
    exists|i: int| 0 <= i < batch.len() && (#[trigger] batch[i]).0.0 == id
}

/// Accepts a batch of stream updates and returns the digest that summarises it.
pub trait StreamUpdater {
    /// Whether the batch can be applied to this state.
    spec fn admits(&self, batch: Seq<(StreamID, Seq<Point>)>) -> bool;

    /// The leaves that the batch derives from this state, one per entry, in batch order.
    spec fn leaves(&self, batch: Seq<(StreamID, Seq<Point>)>) -> Seq<Seq<u8>>;

    /// Every entry of a batch yields exactly one leaf, whatever number of points it carries.
    proof fn lemma_one_leaf_per_entry(&self, batch: Seq<(StreamID, Seq<Point>)>)
        ensures
            self.leaves(batch).len() == batch.len(),
    ;

    /// Applies the batch and returns the aggregate over its leaves.
    fn update(&mut self, updates: Vec<StreamUpdate>) -> (r: MerkleTreeDigest)
        requires
            old(self).admits(batch_of(updates@)),
        ensures
            r.0@ == aggregate_of(old(self).leaves(batch_of(updates@))),
            r.0@.len() == DIGEST_LEN,
    ;
}

} // verus!
