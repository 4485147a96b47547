//! The pure steps of fixture generation: seeded draws, choosing the leaves to
//! prove, and the code hashes of script binaries.

use vstd::prelude::*;
use crate::hash::FixedHash;

verus! {

/// Fewest leaves inserted into a generated structure.
pub const MIN_LEAVES: u64 = 1000;

/// One more than the most leaves inserted into a generated structure.
pub const MAX_LEAVES: u64 = 3000;

/// Fewest leaves chosen for a proof.
pub const MIN_CHOSEN: u64 = 1;

/// One more than the most leaves chosen for a proof.
pub const MAX_CHOSEN: u64 = 100;

/// Byte length of a generated leaf.
pub const LEAF_LEN: usize = 32;

#[verifier::external_type_specification]
#[verifier::external_body]
pub struct ExStdRng(rand::rngs::StdRng);

/// Relies on rand's `Rng::gen_range` on a half-open range of `u64`: it returns a
/// value inside the range (and panics on an empty one, which `requires` excludes).
#[verifier::external_body]
fn gen_range_u64(rng: &mut rand::rngs::StdRng, lo: u64, hi: u64) -> (r: u64)
    requires
        lo < hi,
    ensures
        lo <= r < hi,
{
    rand::Rng::gen_range(rng, lo..hi)
}

/// Relies on rand's `RngCore::fill_bytes`, which fills the whole array.
#[verifier::external_body]
fn fill_random_32(rng: &mut rand::rngs::StdRng) -> (r: [u8; 32]) {
    let mut data = [0u8; 32];
    rand::RngCore::fill_bytes(rng, &mut data[..]);
    data
}

/// Relies on rand's `SliceRandom::shuffle`, which permutes the elements in place.
#[verifier::external_body]
fn shuffle_u64(rng: &mut rand::rngs::StdRng, v: &mut Vec<u64>)
    ensures
        final(v)@.len() == old(v)@.len(),
        final(v)@.to_multiset() == old(v)@.to_multiset(),
{
    rand::seq::SliceRandom::shuffle(v.as_mut_slice(), rng);
}

/// Whether `s` is in ascending order.
pub open spec fn sorted(s: Seq<u64>) -> bool {
    forall|i: int, j: int| 0 <= i <= j < s.len() ==> s[i] <= s[j]
}

/// Relies on std's `slice::sort`, which puts the elements in ascending order.
#[verifier::external_body]
fn sort_u64(v: &mut Vec<u64>)
    ensures
        final(v)@.len() == old(v)@.len(),
        final(v)@.to_multiset() == old(v)@.to_multiset(),
        sorted(final(v)@),
{
    v.as_mut_slice().sort();
}

/// Sizes of one generated fixture.
pub struct FixtureSizes {
    /// How many leaves to insert.
    pub leaves: u64,
    /// How many of them to prove.
    pub chosen: usize,
}

/// Draws the number of leaves to insert, in [1000, 3000), then the number to
/// prove, in [1, 100).
pub fn draw_sizes(rng: &mut rand::rngs::StdRng) -> (r: FixtureSizes)
    ensures
        MIN_LEAVES <= r.leaves < MAX_LEAVES,
        MIN_CHOSEN <= r.chosen < MAX_CHOSEN,
{
    let leaves = gen_range_u64(rng, MIN_LEAVES, MAX_LEAVES);
    let chosen = gen_range_u64(rng, MIN_CHOSEN, MAX_CHOSEN);
    FixtureSizes { leaves, chosen: chosen as usize }
}

/// Draws one leaf: 32 random bytes.
pub fn random_leaf(rng: &mut rand::rngs::StdRng) -> (r: FixedHash)
    ensures
        r@.len() == LEAF_LEN,
{
    let data = fill_random_32(rng);
    let mut v: Vec<u8> = Vec::with_capacity(LEAF_LEN);
    let mut i: usize = 0;
    while i < LEAF_LEN
        invariant
            i <= LEAF_LEN,
            v@.len() == i,
        decreases LEAF_LEN - i,
    {
        v.push(data[i]);
        i = i + 1;
    }
    FixedHash(v)
}

/// Takes the first `count` positions of `shuffled` and sorts them ascending.
/// Refuses, rather than return fewer, when `count` exceeds the positions at hand.
pub fn take_sorted(shuffled: &Vec<u64>, count: usize) -> (r: Option<Vec<u64>>)
    ensures
        r is None <==> count > shuffled@.len(),
        r matches Some(v) ==> v@.len() == count && sorted(v@) && v@.to_multiset()
            == shuffled@.subrange(0, count as int).to_multiset(),
{
    if count > shuffled.len() {
        return None;
    }
    let mut v: Vec<u64> = Vec::with_capacity(count);
    let mut i: usize = 0;
    while i < count
        invariant
            count <= shuffled@.len(),
            i <= count,
            v@ == shuffled@.subrange(0, i as int),
        decreases count - i,
    {
        v.push(shuffled[i]);
        i = i + 1;
        assert(v@ =~= shuffled@.subrange(0, i as int));
    }
    sort_u64(&mut v);
    Some(v)
}

/// Chooses `count` of `positions` at random, in ascending order: a shuffle, then
/// the first `count`, sorted. Refuses when `count` exceeds the positions at hand,
/// so the choice never holds fewer positions than asked, nor one twice more
/// often than `positions` does.
pub fn choose_positions(rng: &mut rand::rngs::StdRng, positions: &Vec<u64>, count: usize) -> (r:
    Option<Vec<u64>>)
    ensures
        r is None <==> count > positions@.len(),
        r matches Some(v) ==> v@.len() == count && sorted(v@) && v@.to_multiset().subset_of(
            positions@.to_multiset(),
        ),
{
    let mut source = positions.clone();
    assert(source@ =~= positions@);
    shuffle_u64(rng, &mut source);
    let r = take_sorted(&source, count);
    proof {
        if count <= source@.len() {
            let s = source@;
            assert(s =~= s.subrange(0, count as int) + s.subrange(count as int, s.len() as int));
            vstd::seq_lib::lemma_multiset_commutative(
                s.subrange(0, count as int),
                s.subrange(count as int, s.len() as int),
            );
        }
    }
    r
}

/// The digest that CKB's default hash gives `data`.
pub uninterp spec fn ckb_blake2b_256_of(data: Seq<u8>) -> Seq<u8>;

/// Relies on ckb_hash::blake2b_256: CKB's default 32-byte hash of the data, which
/// depends on the data alone.
#[verifier::external_body]
fn ckb_blake2b_256(data: &[u8]) -> (r: [u8; 32])
    ensures
        r@ == ckb_blake2b_256_of(data@),
{
    ckb_hash::blake2b_256(data)
}

/// The code hash of each script binary, in order: the hash a lock script names
/// to select that binary.
pub fn code_hashes(binaries: &Vec<Vec<u8>>) -> (r: Vec<[u8; 32]>)
    ensures
        r@.len() == binaries@.len(),
        forall|i: int| 0 <= i < r@.len() ==> (#[trigger] r@[i])@ == ckb_blake2b_256_of(
            binaries@[i]@,
        ),
{
    let mut out: Vec<[u8; 32]> = Vec::with_capacity(binaries.len());
    let mut i: usize = 0;
    while i < binaries.len()
        invariant
            i <= binaries@.len(),
            out@.len() == i,
            forall|j: int| 0 <= j < i ==> (#[trigger] out@[j])@ == ckb_blake2b_256_of(
                binaries@[j]@,
            ),
        decreases binaries@.len() - i,
    {
        out.push(ckb_blake2b_256(binaries[i].as_slice()));
        i = i + 1;
    }
    out
}

} // verus!
