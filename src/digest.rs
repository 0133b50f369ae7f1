//! Digest values, the SHA-256 primitive and the leaf aggregator.

use sha2::Digest;
use vstd::prelude::*;
use vstd::slice::slice_to_vec;

verus! {

/// The length of the digests used in the merkle tree.
pub const DIGEST_LEN: usize = 32;

/// The aggregate digest of one batch.
#[derive(Debug, Clone)]
pub struct MerkleTreeDigest(pub Vec<u8>);

/// The bytes that one touched stream contributes to a batch's aggregate.
#[derive(Debug, Clone)]
pub struct Leaf(pub Vec<u8>);

/// Identifier of one logical stream.
#[derive(Debug, Copy, Clone, PartialEq, Eq, Hash, Structural)]
pub struct StreamID(pub u32);

/// A fixed-length hash digest.
#[derive(Debug, PartialEq, Eq)]
pub struct MyDigest(pub [u8; 32]);

/// One unit of work appended to a stream: an effects or an event digest.
#[derive(Debug, Clone, Copy)]
pub struct Point(pub [u8; 32]);

/// The SHA-256 digest of a byte string.
pub uninterp spec fn sha256_of(data: Seq<u8>) -> Seq<u8>;

/// Relies on `sha2::Sha256` through `Digest::digest`: the SHA-256 digest of
/// `data`, 32 bytes that depend on the input bytes alone.
#[verifier::external_body]
pub(crate) fn sha256(data: &[u8]) -> (r: [u8; 32])
    ensures
        r@ == sha256_of(data@),
        r@.len() == 32,
{
    sha2::Sha256::digest(data).into()
}

/// The all-zero digest that a never-seen stream starts from.
pub open spec fn zero_digest() -> Seq<u8> {
    Seq::new(32, |i: int| 0u8)
}

/// The bytes of the chunks, one after another.
pub open spec fn concat(chunks: Seq<Seq<u8>>) -> Seq<u8>
    decreases chunks.len(),
{
    if chunks.len() == 0 {
        Seq::empty()
    } else {
        concat(chunks.drop_last()) + chunks.last()
    }
}

/// The bytes of each leaf.
pub open spec fn leaf_bytes(leaves: Seq<Leaf>) -> Seq<Seq<u8>> {
    leaves.map_values(|l: Leaf| l.0@)
}

/// The aggregate over leaves: one hash over all their bytes, in order.
pub open spec fn aggregate_of(leaves: Seq<Seq<u8>>) -> Seq<u8> {
    sha256_of(concat(leaves))
}

/// Appends `bytes` to `buf`.
fn append_bytes(buf: &mut Vec<u8>, bytes: &[u8])
    ensures
        final(buf)@ == old(buf)@ + bytes@,
{
    let mut j: usize = 0;
    while j < bytes.len()
        invariant
            j <= bytes@.len(),
            buf@ == old(buf)@ + bytes@.take(j as int),
        decreases bytes@.len() - j,
    {
        buf.push(bytes[j]);
        j += 1;
        assert(bytes@.take(j as int) == bytes@.take(j - 1) + seq![bytes@[j - 1]]);
    }
    assert(bytes@.take(j as int) == bytes@);
}

/// Folds the leaves, in order, into one SHA-256 digest over their bytes.
pub fn compute_merkle_tree(digests: Vec<Leaf>) -> (r: MerkleTreeDigest)
    ensures
        r.0@ == aggregate_of(leaf_bytes(digests@)),
        r.0@.len() == DIGEST_LEN,
{
    let mut buf: Vec<u8> = Vec::new();
    let mut i: usize = 0;
    while i < digests.len()
        invariant
            i <= digests@.len(),
            buf@ == concat(leaf_bytes(digests@).take(i as int)),
        decreases digests@.len() - i,
    {
        append_bytes(&mut buf, digests[i].0.as_slice());
        i += 1;
        assert(leaf_bytes(digests@).take(i as int).drop_last() == leaf_bytes(digests@).take(i - 1));
    }
    assert(leaf_bytes(digests@).take(i as int) == leaf_bytes(digests@));
    let h = sha256(buf.as_slice());
    MerkleTreeDigest(slice_to_vec(h.as_slice()))
}

} // verus!
