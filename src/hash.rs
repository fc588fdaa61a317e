//! Hash primitives used by the Merkle tree and the instructions.
use vstd::prelude::*;

verus! {

/// A 32-byte digest.
pub type Bytes32 = [u8; 32];

/// What SHA-256 yields on the given bytes.
pub uninterp spec fn sha256_of(data: Seq<u8>) -> Seq<u8>;

/// Relies on `sha2::Sha256::digest`: the SHA-256 digest of `data`, which
/// depends on the bytes alone.
#[verifier::external_body]
pub(crate) fn sha256(data: &[u8]) -> (r: Bytes32)
    ensures
        r@ == sha256_of(data@),
{
    <sha2::Sha256 as sha2::Digest>::digest(data).into()
}

/// Hash of a leaf: SHA-256 over a zero prefix byte and the leaf data.
pub open spec fn leaf_hash(data: Seq<u8>) -> Seq<u8> {
    sha256_of(seq![0u8] + data)
}

/// Hash of an internal node: SHA-256 over a one prefix byte and both children.
pub open spec fn node_hash(left: Seq<u8>, right: Seq<u8>) -> Seq<u8> {
    sha256_of(seq![1u8] + left + right)
}

/// Hash of the empty tree: SHA-256 of no bytes.
pub open spec fn empty_hash() -> Seq<u8> {
    sha256_of(Seq::empty())
}

/// Appends the bytes of `src` to `dst`.
pub(crate) fn append_bytes(dst: &mut Vec<u8>, src: &[u8])
    ensures
        final(dst)@ == old(dst)@ + src@,
{
    let ghost start = dst@;
    let mut i: usize = 0;
    while i < src.len()
        invariant
            i <= src@.len(),
            dst@ == start + src@.subrange(0, i as int),
        decreases src@.len() - i,
    {
        dst.push(src[i]);
        i = i + 1;
        assert(dst@ =~= start + src@.subrange(0, i as int));
    }
    assert(src@.subrange(0, i as int) =~= src@);
}

/// The hash of a leaf holding `data`.
pub fn leaf_sum(data: &[u8]) -> (r: Bytes32)
    ensures
        r@ == leaf_hash(data@),
{
    let mut buf: Vec<u8> = Vec::new();
    buf.push(0u8);
    append_bytes(&mut buf, data);
    assert(buf@ =~= seq![0u8] + data@);
    sha256(buf.as_slice())
}

/// The hash of an internal node over two child hashes.
pub fn node_sum(left: &Bytes32, right: &Bytes32) -> (r: Bytes32)
    ensures
        r@ == node_hash(left@, right@),
{
    let mut buf: Vec<u8> = Vec::new();
    buf.push(1u8);
    append_bytes(&mut buf, left);
    append_bytes(&mut buf, right);
    assert(buf@ =~= seq![1u8] + left@ + right@);
    sha256(buf.as_slice())
}

/// The hash of the empty tree.
pub fn empty_sum() -> (r: Bytes32)
    ensures
        r@ == empty_hash(),
{
    let buf: Vec<u8> = Vec::new();
    assert(buf@ =~= Seq::<u8>::empty());
    sha256(buf.as_slice())
}

} // verus!
