//! Authentication of shards by a tree of hashes: building the tree over an
//! ordered list of shards, with one inclusion proof per shard, and checking
//! such a proof.

pub mod laws;

use vstd::prelude::*;
use crate::hashing::{
    bytes_eq, empty_hash, hash_empty, hash_leaf, hash_nodes, leaf_hash, node_hash, HashAlgorithm,
};
use crate::proto::{clone_bytes, Lemma, LemmaLevel, Positioned, PositionedView, Proof, ProofView};

verus! {

/// The largest of `k`, `2k`, `4k`, ... that is less than `n`.
pub open spec fn split_from(k: nat, n: nat) -> nat
    decreases n - k,
{
    if 0 < k && 2 * k < n {
        split_from(2 * k, n)
    } else {
        k
    }
}

/// How many of `n` leaves lie under the left child of the root: the largest
/// power of two that is less than `n`.
pub open spec fn split_point(n: nat) -> nat {
    split_from(1, n)
}

/// The split point lies inside the range it splits.
pub proof fn split_from_bounds(k: nat, n: nat)
    requires
        0 < k < n,
    ensures
        k <= split_from(k, n) < n,
    decreases n - k,
{
    if 2 * k < n {
        split_from_bounds(2 * k, n);
    }
}

/// The root hash of the tree over the leaf hashes `hashes`.
pub open spec fn tree_root(algorithm: HashAlgorithm, hashes: Seq<Seq<u8>>) -> Seq<u8>
    decreases hashes.len(),
{
    let k = split_point(hashes.len()) as int;
    if hashes.len() == 0 {
        empty_hash(algorithm)
    } else if hashes.len() == 1 || !(0 < k < hashes.len()) {
        hashes[0]
    } else {
        node_hash(
            algorithm,
            tree_root(algorithm, hashes.subrange(0, k)),
            tree_root(algorithm, hashes.subrange(k, hashes.len() as int)),
        )
    }
}

/// The authentication path of leaf `i` in the tree over `hashes`, from the
/// root down to the leaf.
pub open spec fn tree_path(algorithm: HashAlgorithm, hashes: Seq<Seq<u8>>, i: int) -> Seq<LemmaLevel>
    decreases hashes.len(),
{
    let k = split_point(hashes.len()) as int;
    let root = tree_root(algorithm, hashes);
    if hashes.len() <= 1 || !(0 < k < hashes.len()) {
        seq![LemmaLevel { node_hash: root, sibling_hash: None }]
    } else {
        let left = hashes.subrange(0, k);
        let right = hashes.subrange(k, hashes.len() as int);
        if i < k {
            seq![
                LemmaLevel {
                    node_hash: root,
                    sibling_hash: Some(PositionedView::Right(tree_root(algorithm, right))),
                },
            ] + tree_path(algorithm, left, i)
        } else {
            seq![
                LemmaLevel {
                    node_hash: root,
                    sibling_hash: Some(PositionedView::Left(tree_root(algorithm, left))),
                },
            ] + tree_path(algorithm, right, i - k)
        }
    }
}

/// The hash of the parent of a node with hash `child` whose sibling is
/// `sibling`.
pub open spec fn parent_hash(algorithm: HashAlgorithm, sibling: PositionedView, child: Seq<u8>) -> Seq<
    u8,
> {
    match sibling {
        PositionedView::Left(h) => node_hash(algorithm, h, child),
        PositionedView::Right(h) => node_hash(algorithm, child, h),
    }
}

/// Whether a path leads to a leaf with hash `leaf`: its last level has no
/// sibling and the hash `leaf`, and every level above names a sibling and
/// has the hash of that sibling combined with the level below.
pub open spec fn path_valid(algorithm: HashAlgorithm, lemma: Seq<LemmaLevel>, leaf: Seq<u8>) -> bool {
    &&& lemma.len() > 0
    &&& lemma.last().sibling_hash.is_none()
    &&& lemma.last().node_hash == leaf
    &&& forall|i: int|
        0 <= i < lemma.len() - 1 ==> (#[trigger] lemma[i]).sibling_hash.is_some()
            && lemma[i].node_hash == parent_hash(
            algorithm,
            lemma[i].sibling_hash.unwrap(),
            lemma[i + 1].node_hash,
        )
}

/// Whether a proof shows that its value is a leaf of the tree with its root
/// hash: the path starts at the root hash and leads to the hash of the
/// value.
pub open spec fn proof_valid(algorithm: HashAlgorithm, p: ProofView) -> bool {
    &&& p.lemma.len() > 0
    &&& p.lemma[0].node_hash == p.root_hash
    &&& path_valid(algorithm, p.lemma, leaf_hash(algorithm, p.value))
}

/// The position of the leaf that a path leads to in a tree of `count`
/// leaves: a sibling on the right sends the path into the left subtree, one
/// on the left into the right subtree. `None` where the path does not have
/// the shape of a path in such a tree.
pub open spec fn path_index(lemma: Seq<LemmaLevel>, count: nat) -> Option<int>
    decreases lemma.len(),
{
    let k = split_point(count);
    if lemma.len() == 0 {
        None
    } else if lemma.len() == 1 {
        if count == 1 && lemma[0].sibling_hash.is_none() {
            Some(0)
        } else {
            None
        }
    } else if !(0 < k < count) {
        None
    } else {
        match lemma[0].sibling_hash {
            Some(PositionedView::Right(_)) => path_index(lemma.skip(1), k),
            Some(PositionedView::Left(_)) => match path_index(lemma.skip(1), (count - k) as nat) {
                Some(i) => Some(k + i),
                None => None,
            },
            None => None,
        }
    }
}

/// The hashes of the leaves of the tree over `shards`.
pub open spec fn leaf_hashes(algorithm: HashAlgorithm, shards: Seq<Seq<u8>>) -> Seq<Seq<u8>> {
    shards.map_values(|shard: Seq<u8>| leaf_hash(algorithm, shard))
}

/// The root hash of the tree over `shards`.
pub open spec fn merkle_root(algorithm: HashAlgorithm, shards: Seq<Seq<u8>>) -> Seq<u8> {
    tree_root(algorithm, leaf_hashes(algorithm, shards))
}

/// The inclusion proof of shard `i` in the tree over `shards`.
pub open spec fn merkle_proof(algorithm: HashAlgorithm, shards: Seq<Seq<u8>>, i: int) -> ProofView {
    ProofView {
        root_hash: merkle_root(algorithm, shards),
        lemma: tree_path(algorithm, leaf_hashes(algorithm, shards), i),
        value: shards[i],
    }
}

/// The byte strings that a vector of byte vectors holds.
pub open spec fn rows(v: Seq<Vec<u8>>) -> Seq<Seq<u8>> {
    v.map_values(|row: Vec<u8>| row@)
}

/// A path has at least one level, and its first is that of its top node.
pub proof fn lemma_nonempty(lemma: &Lemma)
    ensures
        lemma@.len() > 0,
        lemma@[0] == lemma.level(),
    decreases lemma,
{
    match lemma.sub_lemma {
        Some(sub) => {
            lemma_nonempty(&*sub);
        },
        None => {},
    }
}

/// A path of several levels leads to a leaf where its first level fits
/// the second and the rest of the path leads to the leaf.
pub proof fn path_valid_unfold(
    algorithm: HashAlgorithm,
    head: LemmaLevel,
    tail: Seq<LemmaLevel>,
    leaf: Seq<u8>,
)
    requires
        tail.len() > 0,
    ensures
        path_valid(algorithm, seq![head] + tail, leaf) == (head.sibling_hash.is_some()
            && head.node_hash == parent_hash(
            algorithm,
            head.sibling_hash.unwrap(),
            tail[0].node_hash,
        ) && path_valid(algorithm, tail, leaf)),
{
    let whole = seq![head] + tail;
    assert(whole[0] == head);
    assert(whole[1] == tail[0]);
    assert(whole.last() == tail.last());
    if path_valid(algorithm, whole, leaf) {
        assert forall|i: int| 0 <= i < tail.len() - 1 implies (#[trigger] tail[i]).sibling_hash.is_some()
            && tail[i].node_hash == parent_hash(
            algorithm,
            tail[i].sibling_hash.unwrap(),
            tail[i + 1].node_hash,
        ) by {
            assert(whole[i + 1] == tail[i]);
            assert(whole[i + 2] == tail[i + 1]);
        }
    }
    if head.sibling_hash.is_some() && head.node_hash == parent_hash(
        algorithm,
        head.sibling_hash.unwrap(),
        tail[0].node_hash,
    ) && path_valid(algorithm, tail, leaf) {
        assert forall|i: int| 0 <= i < whole.len() - 1 implies (#[trigger] whole[i]).sibling_hash.is_some()
            && whole[i].node_hash == parent_hash(
            algorithm,
            whole[i].sibling_hash.unwrap(),
            whole[i + 1].node_hash,
        ) by {
            if i > 0 {
                assert(whole[i] == tail[i - 1]);
                assert(whole[i + 1] == tail[i]);
            }
        }
    }
}

/// Whether the path leads to a leaf with hash `leaf`.
fn path_verifies(lemma: &Lemma, algorithm: HashAlgorithm, leaf: &Vec<u8>) -> (ok: bool)
    ensures
        ok == path_valid(algorithm, lemma@, leaf@),
    decreases lemma,
{
    match &lemma.sub_lemma {
        None => {
            assert(lemma@ =~= seq![lemma.level()]);
            lemma.sibling_hash.is_none() && bytes_eq(&lemma.node_hash, leaf)
        },
        Some(sub) => {
            proof {
                lemma_nonempty(&**sub);
                path_valid_unfold(algorithm, lemma.level(), sub@, leaf@);
            }
            match &lemma.sibling_hash {
                None => false,
                Some(Positioned::Left(hash)) => {
                    let combined = hash_nodes(algorithm, hash, &sub.node_hash);
                    bytes_eq(&combined, &lemma.node_hash) && path_verifies(sub, algorithm, leaf)
                },
                Some(Positioned::Right(hash)) => {
                    let combined = hash_nodes(algorithm, &sub.node_hash, hash);
                    bytes_eq(&combined, &lemma.node_hash) && path_verifies(sub, algorithm, leaf)
                },
            }
        },
    }
}

/// Checks an inclusion proof: recomputes the hashes from the value up
/// through the lemma and compares them with those the lemma holds and with
/// the root hash. Any mismatch and any level of the wrong shape make it
/// `false`.
pub fn verify(p: &Proof, algorithm: HashAlgorithm) -> (ok: bool)
    ensures
        ok == proof_valid(algorithm, p@),
{
    proof {
        lemma_nonempty(&p.lemma);
    }
    if !bytes_eq(&p.lemma.node_hash, &p.root_hash) {
        return false;
    }
    let leaf = hash_leaf(algorithm, &p.value);
    path_verifies(&p.lemma, algorithm, &leaf)
}

/// The number of leaves under the left child of the root of a tree of `n`
/// leaves.
fn split_index(n: usize) -> (k: usize)
    requires
        n >= 2,
    ensures
        k == split_point(n as nat),
        0 < k < n,
{
    let mut k: usize = 1;
    while k < n - k
        invariant
            0 < k < n,
            split_from(k as nat, n as nat) == split_point(n as nat),
        decreases n - k,
    {
        k = k + k;
    }
    k
}

/// Puts a level on top of each of `below`: the paths of the leaves under
/// one child of a node become their paths under the node.
fn lift(below: Vec<Lemma>, node: &Vec<u8>, sibling: &Vec<u8>, sibling_on_left: bool) -> (lifted: Vec<
    Lemma,
>)
    ensures
        lifted@.len() == below@.len(),
        forall|j: int|
            0 <= j < below@.len() ==> (#[trigger] lifted@[j])@ == seq![
                LemmaLevel {
                    node_hash: node@,
                    sibling_hash: Some(
                        if sibling_on_left {
                            PositionedView::Left(sibling@)
                        } else {
                            PositionedView::Right(sibling@)
                        },
                    ),
                },
            ] + below@[j]@,
{
    let mut lifted: Vec<Lemma> = Vec::new();
    let ghost planned = below@;
    for lemma in it: below
        invariant
            it.seq() == planned,
            lifted@.len() == it.index(),
            forall|j: int|
                0 <= j < it.index() ==> (#[trigger] lifted@[j])@ == seq![
                    LemmaLevel {
                        node_hash: node@,
                        sibling_hash: Some(
                            if sibling_on_left {
                                PositionedView::Left(sibling@)
                            } else {
                                PositionedView::Right(sibling@)
                            },
                        ),
                    },
                ] + planned[j]@,
    {
        let sibling_hash = if sibling_on_left {
            Positioned::Left(clone_bytes(sibling))
        } else {
            Positioned::Right(clone_bytes(sibling))
        };
        lifted.push(
            Lemma {
                node_hash: clone_bytes(node),
                sibling_hash: Some(sibling_hash),
                sub_lemma: Some(Box::new(lemma)),
            },
        );
    }
    lifted
}

/// The root hash of the tree over the leaf hashes from `lo` up to `hi`, and
/// the path of each of these leaves in that tree.
fn build_subtree(algorithm: HashAlgorithm, hashes: &Vec<Vec<u8>>, lo: usize, hi: usize) -> (built: (
    Vec<u8>,
    Vec<Lemma>,
))
    requires
        lo < hi <= hashes@.len(),
    ensures
        built.0@ == tree_root(algorithm, rows(hashes@).subrange(lo as int, hi as int)),
        built.1@.len() == hi - lo,
        forall|j: int|
            0 <= j < hi - lo ==> (#[trigger] built.1@[j])@ == tree_path(
                algorithm,
                rows(hashes@).subrange(lo as int, hi as int),
                j,
            ),
    decreases hi - lo,
{
    let ghost part = rows(hashes@).subrange(lo as int, hi as int);
    if hi - lo == 1 {
        let root = clone_bytes(&hashes[lo]);
        let leaf = Lemma { node_hash: clone_bytes(&hashes[lo]), sibling_hash: None, sub_lemma: None };
        assert(part[0] == hashes@[lo as int]@);
        assert(leaf@ =~= seq![leaf.level()]);
        let mut lemmas: Vec<Lemma> = Vec::new();
        lemmas.push(leaf);
        (root, lemmas)
    } else {
        let k = split_index(hi - lo);
        let mid = lo + k;
        let (left_root, left) = build_subtree(algorithm, hashes, lo, mid);
        let (right_root, right) = build_subtree(algorithm, hashes, mid, hi);
        assert(part.subrange(0, k as int) =~= rows(hashes@).subrange(lo as int, mid as int));
        assert(part.subrange(k as int, part.len() as int) =~= rows(hashes@).subrange(
            mid as int,
            hi as int,
        ));
        let root = hash_nodes(algorithm, &left_root, &right_root);
        let ghost left_paths = left@;
        let ghost right_paths = right@;
        let mut lemmas = lift(left, &root, &right_root, false);
        let mut lifted_right = lift(right, &root, &left_root, true);
        let ghost lifted_left = lemmas@;
        let ghost lifted_right_paths = lifted_right@;
        lemmas.append(&mut lifted_right);
        assert forall|j: int| 0 <= j < hi - lo implies (#[trigger] lemmas@[j])@ == tree_path(
            algorithm,
            part,
            j,
        ) by {
            if j < k {
                assert(lemmas@[j] == lifted_left[j]);
                assert(left_paths[j]@ == tree_path(algorithm, part.subrange(0, k as int), j));
            } else {
                assert(lemmas@[j] == lifted_right_paths[j - k]);
                assert(right_paths[j - k]@ == tree_path(
                    algorithm,
                    part.subrange(k as int, part.len() as int),
                    j - k,
                ));
            }
        }
        (root, lemmas)
    }
}

/// Builds the tree of hashes over `shards`, in their order, and gives its
/// root hash with one inclusion proof per shard. The same shards in the
/// same order give the same root hash and the same proofs.
pub fn build(shards: &Vec<Vec<u8>>, algorithm: HashAlgorithm) -> (built: (Vec<u8>, Vec<Proof>))
    ensures
        built.0@ == merkle_root(algorithm, rows(shards@)),
        built.1@.len() == shards@.len(),
        forall|i: int|
            0 <= i < shards@.len() ==> (#[trigger] built.1@[i])@ == merkle_proof(
                algorithm,
                rows(shards@),
                i,
            ),
{
    let ghost leaves = leaf_hashes(algorithm, rows(shards@));
    if shards.len() == 0 {
        assert(leaves =~= Seq::empty());
        return (hash_empty(algorithm), Vec::new());
    }
    let mut hashes: Vec<Vec<u8>> = Vec::new();
    let mut i: usize = 0;
    while i < shards.len()
        invariant
            i <= shards@.len(),
            hashes@.len() == i,
            forall|j: int| 0 <= j < i ==> (#[trigger] hashes@[j])@ == leaf_hash(algorithm, shards@[j]@),
        decreases shards@.len() - i,
    {
        hashes.push(hash_leaf(algorithm, &shards[i]));
        i += 1;
    }
    assert(rows(hashes@) =~= leaves);
    assert(rows(hashes@).subrange(0, shards@.len() as int) =~= leaves);
    let (root, lemmas) = build_subtree(algorithm, &hashes, 0, shards.len());
    let mut proofs: Vec<Proof> = Vec::new();
    let ghost paths = lemmas@;
    for lemma in it: lemmas
        invariant
            it.seq() == paths,
            paths.len() == shards@.len(),
            proofs@.len() == it.index(),
            root@ == merkle_root(algorithm, rows(shards@)),
            forall|j: int|
                0 <= j < shards@.len() ==> (#[trigger] paths[j])@ == tree_path(
                    algorithm,
                    leaf_hashes(algorithm, rows(shards@)),
                    j,
                ),
            forall|j: int|
                0 <= j < it.index() ==> (#[trigger] proofs@[j])@ == merkle_proof(
                    algorithm,
                    rows(shards@),
                    j,
                ),
    {
        let at = proofs.len();
        proofs.push(
            Proof { root_hash: clone_bytes(&root), lemma: lemma, value: clone_bytes(&shards[at]) },
        );
    }
    (root, proofs)
}

/// Whether the sibling hangs on the right of its parent.
fn sibling_is_right(sibling: &Positioned) -> (right: bool)
    ensures
        right == (sibling@ is Right),
{
    match sibling {
        Positioned::Left(_) => false,
        Positioned::Right(_) => true,
    }
}

fn lemma_index(lemma: &Lemma, count: usize) -> (index: Option<usize>)
    ensures
        match path_index(lemma@, count as nat) {
            Some(i) => index == Some(i as usize) && 0 <= i < count,
            None => index.is_none(),
        },
    decreases lemma,
{
    match &lemma.sub_lemma {
        None => {
            assert(lemma@ =~= seq![lemma.level()]);
            if count == 1 && lemma.sibling_hash.is_none() {
                Some(0)
            } else {
                None
            }
        },
        Some(sub) => {
            proof {
                lemma_nonempty(&**sub);
                assert(lemma@.skip(1) =~= sub@);
                assert(lemma@[0] == lemma.level());
            }
            if count < 2 {
                proof {
                    if count == 1 {
                        assert(split_point(1) == 1);
                    }
                }
                return None;
            }
            let k = split_index(count);
            match &lemma.sibling_hash {
                None => None,
                Some(sibling) => {
                    if sibling_is_right(sibling) {
                        lemma_index(sub, k)
                    } else {
                        match lemma_index(sub, count - k) {
                            Some(i) => Some(k + i),
                            None => None,
                        }
                    }
                },
            }
        },
    }
}

/// The position, among `count` leaves, of the leaf that the proof's path
/// leads to; `None` where the path has not the shape of a path in a tree of
/// that many leaves.
pub fn leaf_index(p: &Proof, count: usize) -> (index: Option<usize>)
    ensures
        match path_index(p@.lemma, count as nat) {
            Some(i) => index == Some(i as usize) && 0 <= i < count,
            None => index.is_none(),
        },
{
    lemma_index(&p.lemma, count)
}

} // verus!
