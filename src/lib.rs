//! Per-stream accumulators that summarise each batch of stream updates
//! with one aggregate digest over the streams the batch touched.

pub mod digest;
pub mod batch;
pub mod counter;
pub mod hash_chain;

pub use batch::{StreamUpdate, StreamUpdater};
pub use counter::CounterSparseNode;
pub use hash_chain::HashChainSparseNode;

pub use digest::{compute_merkle_tree, Leaf, MerkleTreeDigest, MyDigest, Point, StreamID, DIGEST_LEN};

