//! The hash-chain accumulator: a rolling chain head per stream.

use std::collections::HashMap;
use vstd::prelude::*;
use vstd::slice::slice_to_vec;

use crate::batch::{batch_of, touches, StreamUpdate, StreamUpdater};
use crate::digest::{
    aggregate_of, compute_merkle_tree, leaf_bytes, sha256, sha256_of, zero_digest, Leaf, MerkleTreeDigest,
    MyDigest, Point, StreamID,
};

verus! {

broadcast use vstd::std_specs::hash::group_hash_axioms;

/// The chain heads as bytes.
pub open spec fn heads_view(m: Map<u32, MyDigest>) -> Map<u32, Seq<u8>> {
    m.map_values(|d: MyDigest| d.0@)
}

/// The head of `id` in `m`; the all-zero digest for a stream never seen.
pub open spec fn head_in(m: Map<u32, Seq<u8>>, id: u32) -> Seq<u8> {
    if m.contains_key(id) {
        m[id]
    } else {
        zero_digest()
    }
}

/// The head reached from `head` by hashing in each point, left to right.
pub open spec fn chain(head: Seq<u8>, points: Seq<Point>) -> Seq<u8>
    decreases points.len(),
{
    if points.len() == 0 {
        head
    } else {
        sha256_of(chain(head, points.drop_last()) + points.last().0@)
    }
}

/// The chain heads after each entry of the batch folds its points into its stream.
pub open spec fn heads_after(m: Map<u32, Seq<u8>>, batch: Seq<(StreamID, Seq<Point>)>) -> Map<u32, Seq<u8>>
    decreases batch.len(),
{
    if batch.len() == 0 {
        m
    } else {
        let prev = heads_after(m, batch.drop_last());
        let id = batch.last().0.0;
        prev.insert(id, chain(head_in(prev, id), batch.last().1))
    }
}

/// The leaves of the batch's entries: each entry's head once its points are folded in.
pub open spec fn chain_leaves(m: Map<u32, Seq<u8>>, batch: Seq<(StreamID, Seq<Point>)>) -> Seq<Seq<u8>>
    decreases batch.len(),
{
    if batch.len() == 0 {
        Seq::empty()
    } else {
        let prev = heads_after(m, batch.drop_last());
        let id = batch.last().0.0;
        chain_leaves(m, batch.drop_last()).push(chain(head_in(prev, id), batch.last().1))
    }
}

/// Tracks, per stream, the head of a hash chain over every point applied to it.
pub struct HashChainSparseNode {
    pub heads: HashMap<u32, MyDigest>,
}

impl HashChainSparseNode {
    /// An accumulator that has seen no stream.
    pub fn new() -> (r: Self)
        ensures
            r.heads@ == Map::<u32, MyDigest>::empty(),
    {
        Self { heads: HashMap::new() }
    }
}

/// Folds `points`, in order, into `head`.
fn fold_points(head: [u8; 32], points: &Vec<Point>) -> (r: [u8; 32])
    ensures
        r@ == chain(head@, points@),
{
    let mut cur: [u8; 32] = head;
    let mut k: usize = 0;
    while k < points.len()
        invariant
            k <= points@.len(),
            cur@ == chain(head@, points@.take(k as int)),
        decreases points@.len() - k,
    {
        let mut buf: Vec<u8> = slice_to_vec(cur.as_slice());
        let mut j: usize = 0;
        let point: [u8; 32] = points[k].0;
        while j < 32
            invariant
                j <= 32,
                point@.len() == 32,
                buf@ == cur@ + point@.take(j as int),
            decreases 32 - j,
        {
            buf.push(point[j]);
            j += 1;
            assert(point@.take(j as int) == point@.take(j - 1) + seq![point@[j - 1]]);
        }
        assert(point@.take(32) == point@);
        cur = sha256(buf.as_slice());
        k += 1;
        assert(points@.take(k as int).drop_last() == points@.take(k - 1));
    }
    assert(points@.take(k as int) == points@);
    cur
}

impl StreamUpdater for HashChainSparseNode {
    open spec fn admits(&self, batch: Seq<(StreamID, Seq<Point>)>) -> bool {
        true
    }

    open spec fn leaves(&self, batch: Seq<(StreamID, Seq<Point>)>) -> Seq<Seq<u8>> {
        chain_leaves(heads_view(self.heads@), batch)
    }

    proof fn lemma_one_leaf_per_entry(&self, batch: Seq<(StreamID, Seq<Point>)>) {
        lemma_chain_leaf_count(heads_view(self.heads@), batch);
    }

    fn update(&mut self, updates: Vec<StreamUpdate>) -> (r: MerkleTreeDigest)
        ensures
            heads_view(final(self).heads@) == heads_after(heads_view(old(self).heads@), batch_of(updates@)),
    {
        let ghost batch = batch_of(updates@);
        let ghost m0 = heads_view(old(self).heads@);
        let mut leafs: Vec<Leaf> = Vec::new();
        let mut i: usize = 0;
        while i < updates.len()
            invariant
                i <= updates@.len(),
                batch == batch_of(updates@),
                heads_view(self.heads@) == heads_after(m0, batch.take(i as int)),
                leaf_bytes(leafs@) == chain_leaves(m0, batch.take(i as int)),
            decreases updates@.len() - i,
        {
            let ghost prefix = batch.take(i + 1);
            proof {
                assert(prefix.drop_last() == batch.take(i as int));
            }
            let stream_id = updates[i].0;
            let start: [u8; 32] = match self.heads.get(&stream_id.0) {
                Some(d) => d.0,
                None => [0u8; 32],
            };
            proof {
                assert(start@ == head_in(heads_view(self.heads@), stream_id.0));
            }
            let head = fold_points(start, &updates[i].1);
            let ghost before = self.heads@;
            self.heads.insert(stream_id.0, MyDigest(head));
            proof {
                assert(heads_view(self.heads@) =~= heads_view(before).insert(stream_id.0, head@));
            }
            leafs.push(Leaf(slice_to_vec(head.as_slice())));
            i += 1;
            proof {
                assert(leaf_bytes(leafs@) =~= chain_leaves(m0, prefix));
            }
        }
        proof {
            assert(batch.take(i as int) == batch);
        }
        compute_merkle_tree(leafs)
    }
}

/// The hash-chain accumulator yields one leaf per entry.
pub proof fn lemma_chain_leaf_count(m: Map<u32, Seq<u8>>, batch: Seq<(StreamID, Seq<Point>)>)
    ensures
        chain_leaves(m, batch).len() == batch.len(),
    decreases batch.len(),
{
    if batch.len() > 0 {
        lemma_chain_leaf_count(m, batch.drop_last());
    }
}

/// Folding `a` and then `b` into a head reaches the head that folding `a + b` reaches.
pub proof fn lemma_chain_concat(head: Seq<u8>, a: Seq<Point>, b: Seq<Point>)
    ensures
        chain(chain(head, a), b) == chain(head, a + b),
    decreases b.len(),
{
    if b.len() == 0 {
        assert(a + b == a);
    } else {
        assert((a + b).drop_last() == a + b.drop_last());
        assert((a + b).last() == b.last());
        lemma_chain_concat(head, a, b.drop_last());
    }
}

/// Chain heads do not depend on batch boundaries: the points `a` in one batch
/// and then `b` in the next leave stream `s` where `a + b` in one batch leaves it.
pub proof fn lemma_chain_batch_boundary(m: Map<u32, Seq<u8>>, s: StreamID, a: Seq<Point>, b: Seq<Point>)
    ensures
        heads_after(heads_after(m, seq![(s, a)]), seq![(s, b)]) == heads_after(m, seq![(s, a + b)]),
{
    let one = seq![(s, a)];
    let two = seq![(s, b)];
    let both = seq![(s, a + b)];
    assert(one.drop_last() =~= Seq::empty());
    assert(two.drop_last() =~= Seq::empty());
    assert(both.drop_last() =~= Seq::empty());
    lemma_chain_concat(head_in(m, s.0), a, b);
    let mid = heads_after(m, one);
    assert(heads_after(m, Seq::empty()) == m);
    assert(mid == m.insert(s.0, chain(head_in(m, s.0), a)));
    assert(head_in(mid, s.0) == chain(head_in(m, s.0), a));
    assert(heads_after(mid, Seq::empty()) == mid);
    assert(heads_after(mid, two) == mid.insert(s.0, chain(head_in(mid, s.0), b)));
    assert(heads_after(m, both) == m.insert(s.0, chain(head_in(m, s.0), a + b)));
    assert(heads_after(heads_after(m, one), two) =~= heads_after(m, both));
}

/// A stream that no entry of the batch names keeps its head, or its absence.
pub proof fn lemma_chain_isolation(m: Map<u32, Seq<u8>>, batch: Seq<(StreamID, Seq<Point>)>, id: u32)
    requires
        !touches(batch, id),
    ensures
        heads_after(m, batch).contains_key(id) == m.contains_key(id),
        m.contains_key(id) ==> heads_after(m, batch)[id] == m[id],
    decreases batch.len(),
{
    if batch.len() > 0 {
        assert(batch.last() == batch[batch.len() - 1]);
        assert forall|i: int| 0 <= i < batch.drop_last().len() implies (#[trigger] batch.drop_last()[i]).0.0 != id by {
            assert(batch.drop_last()[i] == batch[i]);
        }
        lemma_chain_isolation(m, batch.drop_last(), id);
    }
}

/// Leaf `i` of a batch is derived from entry `i` alone: its stream's head once
/// the entry's points are folded in.
pub proof fn lemma_chain_leaf_of_entry(m: Map<u32, Seq<u8>>, batch: Seq<(StreamID, Seq<Point>)>, i: int)
    requires
        0 <= i < batch.len(),
    ensures
        chain_leaves(m, batch)[i] == heads_after(m, batch.take(i + 1))[batch[i].0.0],
    decreases batch.len(),
{
    lemma_chain_leaf_count(m, batch.drop_last());
    if i == batch.len() - 1 {
        assert(batch.take(i + 1) == batch);
        assert(batch.take(i + 1).drop_last() == batch.drop_last());
    } else {
        assert(batch.drop_last().take(i + 1) == batch.take(i + 1));
        lemma_chain_leaf_of_entry(m, batch.drop_last(), i);
    }
}

/// An empty batch changes no head and yields no leaf, so its aggregate is
/// the hash of the empty input.
pub proof fn lemma_chain_empty_batch(m: Map<u32, Seq<u8>>)
    ensures
        heads_after(m, Seq::empty()) == m,
        chain_leaves(m, Seq::empty()) == Seq::<Seq<u8>>::empty(),
        aggregate_of(chain_leaves(m, Seq::empty())) == sha256_of(Seq::empty()),
{
}

/// Equal prior heads and equal batches give equal heads and equal aggregates.
pub proof fn lemma_chain_deterministic(
    a: Map<u32, Seq<u8>>,
    b: Map<u32, Seq<u8>>,
    x: Seq<(StreamID, Seq<Point>)>,
    y: Seq<(StreamID, Seq<Point>)>,
)
    requires
        a == b,
        x == y,
    ensures
        heads_after(a, x) == heads_after(b, y),
        aggregate_of(chain_leaves(a, x)) == aggregate_of(chain_leaves(b, y)),
{
}

} // verus!
