use ckb_merkle_mountain_range::util::MemStore;
use ckb_merkle_mountain_range::{MerkleProof, Merge, Result, MMR};
use mmr_verifier::fixture::{choose_positions, random_leaf};
use mmr_verifier::hash::FixedHash;
use mmr_verifier::inputs::decode_reference_inputs;
use mmr_verifier::merge::merge;
use mmr_verifier::packed::pack_proof_items;
use mmr_verifier::witness::{encode_root_witness, pack_leaves};
use rand::rngs::StdRng;
use rand::SeedableRng;

struct Blake2bMerge;

impl Merge for Blake2bMerge {
    type Item = FixedHash;

    fn merge(lhs: &FixedHash, rhs: &FixedHash) -> Result<FixedHash> {
        Ok(merge(lhs, rhs))
    }
}

struct Fixture {
    root: Vec<u8>,
    proof: Vec<u8>,
    leaves: Vec<u8>,
}

fn build_fixture(seed: u64, n: u64, chosen: usize) -> Fixture {
    let mut rng = StdRng::seed_from_u64(seed);
    let store = MemStore::default();
    let mut mmr = MMR::<FixedHash, Blake2bMerge, _>::new(0, &store);
    let mut positions = Vec::new();
    let mut values = Vec::new();
    for _ in 0..n {
        let leaf = random_leaf(&mut rng);
        positions.push(mmr.push(leaf.clone()).unwrap());
        values.push(leaf);
    }
    let size = mmr.mmr_size();
    mmr.commit().unwrap();
    let chosen = choose_positions(&mut rng, &positions, chosen).unwrap();
    let mmr = MMR::<FixedHash, Blake2bMerge, _>::new(size, &store);
    let root = mmr.get_root().unwrap();
    let proof = mmr.gen_proof(chosen.clone()).unwrap();
    let leaves: Vec<(u64, FixedHash)> = chosen
        .iter()
        .map(|p| {
            let i = positions.iter().position(|q| q == p).unwrap();
            (*p, values[i].clone())
        })
        .collect();
    Fixture {
        root: encode_root_witness(size, &root),
        proof: pack_proof_items(&proof.proof_items().to_vec()).unwrap(),
        leaves: pack_leaves(&leaves).unwrap(),
    }
}

fn accepts(root: &[u8], proof: &[u8], leaves: &[u8]) -> bool {
    match decode_reference_inputs(root, proof, leaves) {
        Ok(inp) => {
            let p = MerkleProof::<FixedHash, Blake2bMerge>::new(inp.mmr_size, inp.proof_items);
            matches!(p.verify(inp.root, inp.leaves), Ok(true))
        }
        Err(_) => false,
    }
}

#[test]
fn root_of_perfect_tree_matches_pairwise_merges() {
    let mut rng = StdRng::seed_from_u64(99);
    let store = MemStore::default();
    let mut mmr = MMR::<FixedHash, Blake2bMerge, _>::new(0, &store);
    let mut level: Vec<FixedHash> = Vec::new();
    for _ in 0..1024 {
        let leaf = random_leaf(&mut rng);
        mmr.push(leaf.clone()).unwrap();
        level.push(leaf);
    }
    let root = mmr.get_root().unwrap();
    while level.len() > 1 {
        level = level.chunks(2).map(|c| merge(&c[0], &c[1])).collect();
    }
    assert_eq!(root, level[0]);
}

#[test]
fn generated_proof_is_accepted() {
    let f = build_fixture(1234, 1500, 40);
    assert!(accepts(&f.root, &f.proof, &f.leaves));
}

#[test]
fn flipped_byte_is_rejected() {
    let f = build_fixture(42, 1200, 10);
    assert!(accepts(&f.root, &f.proof, &f.leaves));
    for i in [8usize, 20, 39] {
        let mut r = f.root.clone();
        r[i] ^= 1;
        assert!(!accepts(&r, &f.proof, &f.leaves), "root byte {}", i);
    }
    for i in [0usize, 2, f.proof.len() / 2, f.proof.len() - 1] {
        let mut p = f.proof.clone();
        p[i] ^= 1;
        assert!(!accepts(&f.root, &p, &f.leaves));
    }
    for i in [0usize, 8, 10, f.leaves.len() - 1] {
        let mut l = f.leaves.clone();
        l[i] ^= 1;
        assert!(!accepts(&f.root, &f.proof, &l));
    }
}
