use mmr_verifier::fixture::code_hashes;
use mmr_verifier::hash::{FixedHash, TaggedHash};
use mmr_verifier::merge::{merge, merge_tagged};

const BLANK_HASH: [u8; 32] = [
    68, 244, 198, 151, 68, 213, 248, 197, 93, 100, 32, 98, 148, 157, 202, 228, 155, 196, 231, 239,
    67, 211, 136, 197, 161, 47, 66, 181, 99, 61, 22, 62,
];

#[test]
fn merge_of_empty_children_is_the_blank_hash() {
    let e = FixedHash(vec![]);
    assert_eq!(merge(&e, &e).0, BLANK_HASH.to_vec());
}

#[test]
fn merge_hashes_the_concatenation() {
    let l = FixedHash(vec![1; 32]);
    let r = FixedHash(vec![2; 32]);
    let mut both = vec![1u8; 32];
    both.extend_from_slice(&[2u8; 32]);
    let m = merge(&l, &r);
    assert_eq!(m.0.len(), 32);
    assert_eq!(m.0, ckb_hash::blake2b_256(&both).to_vec());
    assert_ne!(m, merge(&r, &l));
}

#[test]
fn tagged_merge_matches_plain_merge() {
    let l = TaggedHash::from_fixed(&[7u8; 32]);
    let r = TaggedHash::Dynamic(vec![8u8; 5]);
    let m = merge_tagged(&l, &r);
    assert!(matches!(m, TaggedHash::Fixed(_)));
    let plain = merge(&FixedHash(vec![7; 32]), &FixedHash(vec![8; 5]));
    assert_eq!(m.as_bytes(), &plain.0[..]);
}

#[test]
fn code_hashes_follow_binaries() {
    let bins = vec![vec![], b"binary one".to_vec(), vec![0u8; 1000]];
    let hashes = code_hashes(&bins);
    assert_eq!(hashes.len(), 3);
    assert_eq!(hashes[0], BLANK_HASH);
    assert_eq!(hashes[1], ckb_hash::blake2b_256(b"binary one"));
    assert_ne!(hashes[1], hashes[2]);
    assert!(code_hashes(&vec![]).is_empty());
}
