//! What holds of the proofs that `build` makes and of the proofs that
//! `verify` accepts.

use vstd::prelude::*;
use crate::hashing::{leaf_hash, HashAlgorithm};
use crate::merkle_tree::{
    leaf_hashes, merkle_proof, path_index, path_valid, path_valid_unfold,
    proof_valid, split_from_bounds, split_point, tree_path, tree_root,
};
use crate::proto::{LemmaLevel, ProofView};

verus! {

/// The path of a leaf starts at the root of the tree and leads to the hash
/// of that leaf.
pub proof fn tree_path_valid(algorithm: HashAlgorithm, hashes: Seq<Seq<u8>>, i: int)
    requires
        0 <= i < hashes.len(),
    ensures
        tree_path(algorithm, hashes, i).len() > 0,
        tree_path(algorithm, hashes, i)[0].node_hash == tree_root(algorithm, hashes),
        path_valid(algorithm, tree_path(algorithm, hashes, i), hashes[i]),
    decreases hashes.len(),
{
    let n = hashes.len();
    if n >= 2 {
        split_from_bounds(1, n);
        let k = split_point(n) as int;
        let left = hashes.subrange(0, k);
        let right = hashes.subrange(k, n as int);
        let path = tree_path(algorithm, hashes, i);
        if i < k {
            tree_path_valid(algorithm, left, i);
            let tail = tree_path(algorithm, left, i);
            assert(left[i] == hashes[i]);
            path_valid_unfold(algorithm, path[0], tail, hashes[i]);
            assert(path =~= seq![path[0]] + tail);
        } else {
            tree_path_valid(algorithm, right, i - k);
            let tail = tree_path(algorithm, right, i - k);
            assert(right[i - k] == hashes[i]);
            path_valid_unfold(algorithm, path[0], tail, hashes[i]);
            assert(path =~= seq![path[0]] + tail);
        }
    }
}

/// The path of leaf `i` has the shape of a path to position `i`.
pub proof fn tree_path_index(algorithm: HashAlgorithm, hashes: Seq<Seq<u8>>, i: int)
    requires
        0 <= i < hashes.len(),
    ensures
        path_index(tree_path(algorithm, hashes, i), hashes.len()) == Some(i),
    decreases hashes.len(),
{
    let n = hashes.len();
    if n >= 2 {
        split_from_bounds(1, n);
        let k = split_point(n) as int;
        let left = hashes.subrange(0, k);
        let right = hashes.subrange(k, n as int);
        let path = tree_path(algorithm, hashes, i);
        if i < k {
            tree_path_index(algorithm, left, i);
            tree_path_valid(algorithm, left, i);
            assert(path.skip(1) =~= tree_path(algorithm, left, i));
        } else {
            tree_path_index(algorithm, right, i - k);
            tree_path_valid(algorithm, right, i - k);
            assert(path.skip(1) =~= tree_path(algorithm, right, i - k));
        }
    }
}

/// Every proof that `build` makes verifies, whatever the shards, and its
/// path has the shape of a path to the position of its shard.
pub proof fn built_proofs_verify(algorithm: HashAlgorithm, shards: Seq<Seq<u8>>, i: int)
    requires
        0 <= i < shards.len(),
    ensures
        proof_valid(algorithm, merkle_proof(algorithm, shards, i)),
        path_index(merkle_proof(algorithm, shards, i).lemma, shards.len()) == Some(i),
{
    let hashes = leaf_hashes(algorithm, shards);
    tree_path_valid(algorithm, hashes, i);
    tree_path_index(algorithm, hashes, i);
}

/// A proof that verifies no longer does once its root hash is replaced by
/// any other.
pub proof fn changed_root_hash_fails(algorithm: HashAlgorithm, p: ProofView, root_hash: Seq<u8>)
    requires
        proof_valid(algorithm, p),
        root_hash != p.root_hash,
    ensures
        !proof_valid(
            algorithm,
            ProofView { root_hash: root_hash, lemma: p.lemma, value: p.value },
        ),
{
}

/// A proof that verifies no longer does once the node hash of any level of
/// its path is replaced by any other.
pub proof fn changed_node_hash_fails(
    algorithm: HashAlgorithm,
    p: ProofView,
    level: int,
    node_hash: Seq<u8>,
)
    requires
        proof_valid(algorithm, p),
        0 <= level < p.lemma.len(),
        node_hash != p.lemma[level].node_hash,
    ensures
        !proof_valid(
            algorithm,
            ProofView {
                root_hash: p.root_hash,
                lemma: p.lemma.update(
                    level,
                    LemmaLevel {
                        node_hash: node_hash,
                        sibling_hash: p.lemma[level].sibling_hash,
                    },
                ),
                value: p.value,
            },
        ),
{
    let changed = p.lemma.update(
        level,
        LemmaLevel { node_hash: node_hash, sibling_hash: p.lemma[level].sibling_hash },
    );
    let leaf = leaf_hash(algorithm, p.value);
    if level == p.lemma.len() - 1 {
        assert(changed.last().node_hash != leaf);
    } else {
        assert(p.lemma[level].node_hash == crate::merkle_tree::parent_hash(
            algorithm,
            p.lemma[level].sibling_hash.unwrap(),
            p.lemma[level + 1].node_hash,
        ));
        assert(changed[level + 1] == p.lemma[level + 1]);
        assert(changed[level].node_hash != crate::merkle_tree::parent_hash(
            algorithm,
            changed[level].sibling_hash.unwrap(),
            changed[level + 1].node_hash,
        ));
    }
}

/// A proof that verifies no longer does once its value is replaced by one
/// with another leaf hash. (That two values have one leaf hash is what the
/// digest is trusted to make unlikely.)
pub proof fn changed_value_fails(algorithm: HashAlgorithm, p: ProofView, value: Seq<u8>)
    requires
        proof_valid(algorithm, p),
        leaf_hash(algorithm, value) != leaf_hash(algorithm, p.value),
    ensures
        !proof_valid(
            algorithm,
            ProofView { root_hash: p.root_hash, lemma: p.lemma, value: value },
        ),
{
}

} // verus!
