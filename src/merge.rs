//! The node merge: a personalised 32-byte BLAKE2b digest of two children.

use vstd::prelude::*;
use crate::hash::{FixedHash, TaggedHash};

verus! {

/// The BLAKE2b-256 digest of `data` under the 16-byte personalisation `personal`.
pub uninterp spec fn blake2b_256_of(personal: Seq<u8>, data: Seq<u8>) -> Seq<u8>;

/// The domain-separation string "ckb-default-hash", as bytes.
pub open spec fn ckb_personal() -> Seq<u8> {
    seq![99u8, 107, 98, 45, 100, 101, 102, 97, 117, 108, 116, 45, 104, 97, 115, 104]
}

/// What merging two children with the given bytes yields.
pub open spec fn merge_spec(lhs: Seq<u8>, rhs: Seq<u8>) -> Seq<u8> {
    blake2b_256_of(ckb_personal(), lhs + rhs)
}

/// Relies on blake2b_rs: `Blake2bBuilder::new(32).personal(p).build()`, then
/// `update` with `data` and `finalize` into 32 bytes, computes the personalised
/// BLAKE2b-256 digest of `data`, which depends on `p` and `data` alone.
#[verifier::external_body]
fn blake2b_256_personal(personal: &[u8; 16], data: &[u8]) -> (r: [u8; 32])
    ensures
        r@ == blake2b_256_of(personal@, data@),
{
    let mut hasher = blake2b_rs::Blake2bBuilder::new(32).personal(personal).build();
    hasher.update(data);
    let mut out = [0u8; 32];
    hasher.finalize(&mut out);
    out
}

/// The personalisation bytes of the node merge.
fn personal() -> (r: [u8; 16])
    ensures
        r@ == ckb_personal(),
{
    let r: [u8; 16] = [99u8, 107, 98, 45, 100, 101, 102, 97, 117, 108, 116, 45, 104, 97, 115, 104];
    assert(r@ =~= ckb_personal());
    r
}

/// Appends the bytes of `src` to `dst`.
fn append_bytes(dst: &mut Vec<u8>, src: &[u8])
    ensures
        final(dst)@ == old(dst)@ + src@,
{
    let mut i: usize = 0;
    while i < src.len()
        invariant
            i <= src@.len(),
            dst@ == old(dst)@ + src@.subrange(0, i as int),
        decreases src@.len() - i,
    {
        dst.push(src[i]);
        i = i + 1;
        assert(dst@ =~= old(dst)@ + src@.subrange(0, i as int));
    }
    assert(src@.subrange(0, src@.len() as int) =~= src@);
}

/// Digest of the concatenation of two byte strings.
fn merge_bytes(lhs: &[u8], rhs: &[u8]) -> (r: [u8; 32])
    ensures
        r@ == merge_spec(lhs@, rhs@),
{
    let mut data: Vec<u8> = Vec::with_capacity(lhs.len());
    append_bytes(&mut data, lhs);
    append_bytes(&mut data, rhs);
    let p = personal();
    blake2b_256_personal(&p, data.as_slice())
}

/// Merges two children into their parent: the personalised BLAKE2b-256 digest of
/// the left child's bytes followed by the right child's.
pub fn merge(lhs: &FixedHash, rhs: &FixedHash) -> (r: FixedHash)
    ensures
        r@ == merge_spec(lhs@, rhs@),
        r@.len() == 32,
{
    let d = merge_bytes(lhs.as_bytes(), rhs.as_bytes());
    let mut out: Vec<u8> = Vec::with_capacity(32);
    append_bytes(&mut out, d.as_slice());
    FixedHash(out)
}

/// Merges two tagged children; the parent is always in the inline form.
pub fn merge_tagged(lhs: &TaggedHash, rhs: &TaggedHash) -> (r: TaggedHash)
    ensures
        r is Fixed,
        r@ == merge_spec(lhs@, rhs@),
{
    let d = merge_bytes(lhs.as_bytes(), rhs.as_bytes());
    TaggedHash::Fixed(Box::new(d))
}

} // verus!
