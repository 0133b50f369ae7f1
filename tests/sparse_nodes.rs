use sha2::{Digest, Sha256};
use sui_sparse_client::{
    compute_merkle_tree, CounterSparseNode, HashChainSparseNode, Leaf, MyDigest, Point, StreamID,
    StreamUpdater, DIGEST_LEN,
};

fn empty_point() -> Point {
    Point([0u8; 32])
}

fn sha(parts: &[&[u8]]) -> Vec<u8> {
    let mut hasher = Sha256::new();
    for p in parts {
        hasher.update(p);
    }
    hasher.finalize().to_vec()
}

fn counter_leaf(id: u32, local: u32, total: u32) -> Vec<u8> {
    sha(&[&id.to_be_bytes(), &local.to_be_bytes(), &total.to_be_bytes()])
}

#[test]
fn test_counter_sparse_node() {
    let updates = vec![
        (StreamID(0), vec![empty_point(), empty_point()]),
        (StreamID(1), vec![empty_point()]),
    ];

    let mut counters = CounterSparseNode::new();
    let digest1 = counters.update(updates);
    assert_eq!(digest1.0.len(), DIGEST_LEN);

    let updates2 = vec![
        (StreamID(0), vec![empty_point()]),
        (StreamID(2), vec![empty_point(), empty_point()]),
    ];

    let digest2 = counters.update(updates2);
    assert_eq!(digest2.0.len(), DIGEST_LEN);

    println!("Final Counters after second update: {:?}", counters.counts);
    assert_eq!(counters.counts.len(), 3);
    assert_eq!(counters.counts.get(&StreamID(0).0).unwrap(), &3);
    assert_eq!(counters.counts.get(&StreamID(1).0).unwrap(), &1);
    assert_eq!(counters.counts.get(&StreamID(2).0).unwrap(), &2);
}

#[test]
fn test_hash_chain_sparse_node() {
    let updates = vec![
        (StreamID(0), vec![empty_point(), empty_point()]),
        (StreamID(1), vec![empty_point()]),
    ];

    let mut hash_chain = HashChainSparseNode::new();
    let digest1 = hash_chain.update(updates);
    assert_eq!(digest1.0.len(), DIGEST_LEN);
    assert_eq!(hash_chain.heads.len(), 2);

    let updates2 = vec![
        (StreamID(0), vec![empty_point()]),
        (StreamID(2), vec![empty_point(), empty_point(), empty_point()]),
    ];

    let digest2 = hash_chain.update(updates2);

    println!("Final Hash Chain after second update: {:?}", hash_chain.heads);
    assert_eq!(digest2.0.len(), DIGEST_LEN);
    assert_eq!(hash_chain.heads.len(), 3);

    let head0 = hash_chain.heads.get(&StreamID(0).0).unwrap();
    let head1 = hash_chain.heads.get(&StreamID(1).0).unwrap();
    let head2 = hash_chain.heads.get(&StreamID(2).0).unwrap();

    let mut hasher = Sha256::new();
    hasher.update(&empty_point().0);
    hasher.update(&empty_point().0);
    let digest = hasher.finalize();
    assert_eq!(head1.0, digest.as_slice());

    let mut hasher = Sha256::new();
    hasher.update(digest.as_slice());
    hasher.update(&empty_point().0);
    let digest = hasher.finalize();

    let mut hasher = Sha256::new();
    hasher.update(digest.as_slice());
    hasher.update(&empty_point().0);
    let digest = hasher.finalize();

    assert_eq!(head2.0, digest.as_slice());
    assert_eq!(head0, head2);
}

#[test]
fn counter_first_batch_counts_and_exact_digest() {
    let mut counters = CounterSparseNode::new();
    let digest = counters.update(vec![
        (StreamID(0), vec![empty_point(), empty_point()]),
        (StreamID(1), vec![empty_point()]),
    ]);
    assert_eq!(counters.counts.len(), 2);
    assert_eq!(counters.counts.get(&0u32), Some(&2));
    assert_eq!(counters.counts.get(&1u32), Some(&1));
    let leaf0 = counter_leaf(0, 2, 2);
    let leaf1 = counter_leaf(1, 1, 1);
    assert_eq!(digest.0, sha(&[&leaf0, &leaf1]));
}

#[test]
fn counter_leaf_commits_to_delta_and_total() {
    let mut counters = CounterSparseNode::new();
    counters.update(vec![(StreamID(7), vec![empty_point(), empty_point()])]);
    let digest = counters.update(vec![(StreamID(7), vec![empty_point()])]);
    assert_eq!(counters.counts.get(&7u32), Some(&3));
    assert_eq!(digest.0, sha(&[&counter_leaf(7, 1, 3)]));
}

#[test]
fn counter_entry_without_points_still_yields_leaf() {
    let mut counters = CounterSparseNode::new();
    let digest = counters.update(vec![(StreamID(5), vec![])]);
    assert_eq!(counters.counts.get(&5u32), Some(&0));
    assert_eq!(digest.0, sha(&[&counter_leaf(5, 0, 0)]));
}

#[test]
fn counter_repeated_stream_in_one_batch() {
    let mut counters = CounterSparseNode::new();
    let digest = counters.update(vec![
        (StreamID(3), vec![empty_point()]),
        (StreamID(3), vec![empty_point(), empty_point()]),
    ]);
    assert_eq!(counters.counts.get(&3u32), Some(&3));
    let leaf0 = counter_leaf(3, 1, 1);
    let leaf1 = counter_leaf(3, 2, 3);
    assert_eq!(digest.0, sha(&[&leaf0, &leaf1]));
}

#[test]
fn counter_untouched_stream_keeps_count() {
    let mut counters = CounterSparseNode::new();
    counters.update(vec![(StreamID(1), vec![empty_point()]), (StreamID(2), vec![empty_point()])]);
    let digest = counters.update(vec![(StreamID(2), vec![empty_point()])]);
    assert_eq!(counters.counts.get(&1u32), Some(&1));
    assert_eq!(counters.counts.get(&2u32), Some(&2));
    assert_eq!(digest.0, sha(&[&counter_leaf(2, 1, 2)]));
}

#[test]
fn counter_empty_batch_hashes_empty_input() {
    let mut counters = CounterSparseNode::new();
    counters.update(vec![(StreamID(4), vec![empty_point()])]);
    let digest = counters.update(vec![]);
    assert_eq!(digest.0, sha(&[]));
    assert_eq!(counters.counts.len(), 1);
    assert_eq!(counters.counts.get(&4u32), Some(&1));
}

#[test]
fn counter_is_deterministic() {
    let batch = || vec![(StreamID(9), vec![empty_point()]), (StreamID(8), vec![])];
    let mut a = CounterSparseNode::new();
    let mut b = CounterSparseNode::new();
    assert_eq!(a.update(batch()).0, b.update(batch()).0);
    assert_eq!(a.update(batch()).0, b.update(batch()).0);
}

#[test]
fn counter_batch_order_changes_digest() {
    let mut a = CounterSparseNode::new();
    let mut b = CounterSparseNode::new();
    let da = a.update(vec![(StreamID(0), vec![empty_point()]), (StreamID(1), vec![])]);
    let db = b.update(vec![(StreamID(1), vec![]), (StreamID(0), vec![empty_point()])]);
    assert_ne!(da.0, db.0);
}

#[test]
fn hash_chain_one_point_from_genesis() {
    let mut chain = HashChainSparseNode::new();
    let digest = chain.update(vec![(StreamID(1), vec![empty_point()])]);
    let zero = [0u8; 32];
    let head = sha(&[&zero, &zero]);
    assert_eq!(chain.heads.get(&1u32).unwrap().0.to_vec(), head);
    assert_eq!(digest.0, sha(&[&head]));

    let digest2 = chain.update(vec![(StreamID(1), vec![empty_point()])]);
    let head2 = sha(&[&head, &zero]);
    assert_eq!(chain.heads.get(&1u32).unwrap().0.to_vec(), head2);
    assert_eq!(digest2.0, sha(&[&head2]));
}

#[test]
fn hash_chain_heads_ignore_batch_boundaries() {
    let first = Point([1u8; 32]);
    let second = Point([2u8; 32]);
    let third = Point([3u8; 32]);
    let mut one = HashChainSparseNode::new();
    one.update(vec![(StreamID(2), vec![first, second, third])]);
    let mut split = HashChainSparseNode::new();
    split.update(vec![(StreamID(2), vec![first])]);
    split.update(vec![(StreamID(2), vec![second])]);
    split.update(vec![(StreamID(2), vec![third])]);
    assert_eq!(one.heads.get(&2u32), split.heads.get(&2u32));
}

#[test]
fn hash_chain_point_order_matters() {
    let first = Point([1u8; 32]);
    let second = Point([2u8; 32]);
    let mut a = HashChainSparseNode::new();
    let mut b = HashChainSparseNode::new();
    a.update(vec![(StreamID(0), vec![first, second])]);
    b.update(vec![(StreamID(0), vec![second, first])]);
    assert_ne!(a.heads.get(&0u32), b.heads.get(&0u32));
}

#[test]
fn hash_chain_entry_without_points_leaf_is_head() {
    let mut chain = HashChainSparseNode::new();
    let digest = chain.update(vec![(StreamID(6), vec![])]);
    assert_eq!(chain.heads.get(&6u32), Some(&MyDigest([0u8; 32])));
    assert_eq!(digest.0, sha(&[&[0u8; 32]]));
}

#[test]
fn hash_chain_empty_batch_and_isolation() {
    let mut chain = HashChainSparseNode::new();
    chain.update(vec![(StreamID(1), vec![empty_point()]), (StreamID(2), vec![empty_point()])]);
    let before1 = chain.heads.get(&1u32).unwrap().0;
    let digest = chain.update(vec![]);
    assert_eq!(digest.0, sha(&[]));
    assert_eq!(chain.heads.len(), 2);
    chain.update(vec![(StreamID(2), vec![empty_point()])]);
    assert_eq!(chain.heads.get(&1u32).unwrap().0, before1);
}

#[test]
fn merkle_tree_hashes_leaves_in_order() {
    let a = vec![1u8, 2, 3];
    let b = vec![4u8, 5];
    let digest = compute_merkle_tree(vec![Leaf(a.clone()), Leaf(b.clone())]);
    assert_eq!(digest.0, sha(&[&[1, 2, 3, 4, 5]]));
    assert_eq!(compute_merkle_tree(vec![]).0, sha(&[]));
    assert_ne!(digest.0, vec![1u8, 2, 3, 4, 5]);
}
