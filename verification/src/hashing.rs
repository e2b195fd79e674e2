//! Cryptographic digests used to authenticate shards.

use vstd::prelude::*;

verus! {

/// The digest functions a tree of hashes can be built with.
#[derive(Clone, Copy, Debug, PartialEq, Eq, Structural)]
pub enum HashAlgorithm {
    Sha256,
    Sha384,
    Sha512,
}

/// The digest of `data` under `algorithm`, as `ring` computes it.
pub uninterp spec fn digest_bytes(algorithm: HashAlgorithm, data: Seq<u8>) -> Seq<u8>;

/// Calls `ring::digest::digest`. The digest is a function of the algorithm
/// and the input bytes alone; nothing else is claimed of it.
#[verifier::external_body]
pub(crate) fn digest(algorithm: HashAlgorithm, data: &Vec<u8>) -> (out: Vec<u8>)
    ensures
        out@ == digest_bytes(algorithm, data@),
{
    let alg = match algorithm {
        HashAlgorithm::Sha256 => &ring::digest::SHA256,
        HashAlgorithm::Sha384 => &ring::digest::SHA384,
        HashAlgorithm::Sha512 => &ring::digest::SHA512,
    };
    ring::digest::digest(alg, data.as_slice()).as_ref().to_vec()
}

/// The hash of a tree without leaves: the digest of the empty input.
pub open spec fn empty_hash(algorithm: HashAlgorithm) -> Seq<u8> {
    digest_bytes(algorithm, Seq::empty())
}

/// The hash of a leaf: the digest of the byte `0x00` followed by the leaf.
pub open spec fn leaf_hash(algorithm: HashAlgorithm, leaf: Seq<u8>) -> Seq<u8> {
    digest_bytes(algorithm, seq![0u8] + leaf)
}

/// The hash of an inner node: the digest of the byte `0x01` followed by the
/// hashes of its left and of its right child.
pub open spec fn node_hash(algorithm: HashAlgorithm, left: Seq<u8>, right: Seq<u8>) -> Seq<u8> {
    digest_bytes(algorithm, seq![1u8] + left + right)
}

/// Appends `bytes` to `buf`.
fn append_bytes(buf: &mut Vec<u8>, bytes: &Vec<u8>)
    ensures
        final(buf)@ == old(buf)@ + bytes@,
{
    let mut i: usize = 0;
    while i < bytes.len()
        invariant
            i <= bytes.len(),
            buf@ == old(buf)@ + bytes@.subrange(0, i as int),
        decreases bytes.len() - i,
    {
        buf.push(bytes[i]);
        i += 1;
        assert(buf@ =~= old(buf)@ + bytes@.subrange(0, i as int));
    }
    assert(bytes@.subrange(0, i as int) =~= bytes@);
}

/// Whether two byte vectors hold the same bytes.
pub fn bytes_eq(a: &Vec<u8>, b: &Vec<u8>) -> (eq: bool)
    ensures
        eq == (a@ == b@),
{
    if a.len() != b.len() {
        return false;
    }
    let mut i: usize = 0;
    while i < a.len()
        invariant
            i <= a.len(),
            a.len() == b.len(),
            forall|j: int| 0 <= j < i ==> a@[j] == b@[j],
        decreases a.len() - i,
    {
        if a[i] != b[i] {
            return false;
        }
        i += 1;
    }
    assert(a@ =~= b@);
    true
}

/// The hash of a tree without leaves.
pub fn hash_empty(algorithm: HashAlgorithm) -> (out: Vec<u8>)
    ensures
        out@ == empty_hash(algorithm),
{
    let buf: Vec<u8> = Vec::new();
    assert(buf@ =~= Seq::empty());
    digest(algorithm, &buf)
}

/// The hash of a leaf.
pub fn hash_leaf(algorithm: HashAlgorithm, leaf: &Vec<u8>) -> (out: Vec<u8>)
    ensures
        out@ == leaf_hash(algorithm, leaf@),
{
    let mut buf: Vec<u8> = Vec::new();
    buf.push(0u8);
    assert(buf@ =~= seq![0u8]);
    append_bytes(&mut buf, leaf);
    digest(algorithm, &buf)
}

/// The hash of an inner node with the given children.
pub fn hash_nodes(algorithm: HashAlgorithm, left: &Vec<u8>, right: &Vec<u8>) -> (out: Vec<u8>)
    ensures
        out@ == node_hash(algorithm, left@, right@),
{
    let mut buf: Vec<u8> = Vec::new();
    buf.push(1u8);
    assert(buf@ =~= seq![1u8]);
    append_bytes(&mut buf, left);
    append_bytes(&mut buf, right);
    digest(algorithm, &buf)
}

} // verus!
