use merkle_gadgets::circuit::ConstraintSystem;
use merkle_gadgets::crh::{compute_mask, CrhParameters};
use merkle_gadgets::gadgets::{alloc_leaves, compute_root, MerklePathGadget};
use merkle_gadgets::masked::{compute_masked_root, masked_commitment, verify_masked};
use merkle_gadgets::tree::{MerkleError, MerkleParameters, MerkleTree};
use rand::{RngCore, SeedableRng};
use rand_xorshift::XorShiftRng;

fn four_leaves() -> Vec<[u8; 32]> {
    let mut leaves = Vec::new();
    for i in 0..4u8 {
        let input = [i; 32];
        leaves.push(input);
    }
    leaves
}

fn generate_merkle_tree(leaves: &[[u8; 32]], use_bad_root: bool) {
    let parameters = MerkleParameters::setup(9174123u64, 32);
    let tree = MerkleTree::new(parameters, leaves).unwrap();
    let root = tree.root();
    let mut satisfied = true;
    for (i, leaf) in leaves.iter().enumerate() {
        let mut cs = ConstraintSystem::new();
        let proof = tree.generate_proof(i, leaf).unwrap();
        assert!(proof.verify(&parameters, &root, leaf));

        let given_root = if use_bad_root { [0u8; 32] } else { root };
        let root_var = cs.alloc_bytes(given_root);
        let constraints_from_digest = cs.num_constraints();
        let crh_parameters = cs.alloc_parameters(&parameters.parameters());
        let leaf_var = cs.alloc_bytes(*leaf);
        let cw = MerklePathGadget::alloc_path(&mut cs, &proof);
        assert_eq!(cs.num_constraints(), constraints_from_digest);
        cw.check_membership(&mut cs, crh_parameters, root_var, leaf_var);
        // one leaf hash, a select and a hash per level, and the final equality
        assert_eq!(cs.num_constraints(), 1 + 2 * 32 + 1);
        if !cs.is_satisfied() {
            satisfied = false;
        }
    }
    assert!(satisfied);
}

fn masked_nonce(seed: u64) -> [u8; 32] {
    let mut rng = XorShiftRng::seed_from_u64(seed);
    let mut key = [0u8; 32];
    rng.fill_bytes(&mut key);
    let mut nonce = [1u8; 32];
    rng.fill_bytes(&mut nonce);
    nonce
}

fn generate_masked_merkle_tree(leaves: &[[u8; 32]], use_bad_root: bool) {
    let parameters = MerkleParameters::setup(9174123u64, 3);
    let tree = MerkleTree::new(parameters, leaves).unwrap();
    let root = tree.root();

    let mut cs = ConstraintSystem::new();
    let leaf_vars = alloc_leaves(&mut cs, leaves);
    let nonce = masked_nonce(9174123u64);
    let mask = compute_mask(&nonce, &root);
    let mask_var = cs.alloc_bytes(mask);
    let crh_parameters = cs.alloc_parameters(&parameters.parameters());
    let computed_root = compute_root(&mut cs, crh_parameters, mask_var, &leaf_vars, 3).unwrap();
    assert!(cs.is_satisfied());

    let native = compute_masked_root(&parameters, &mask, leaves).unwrap();
    let given_root = if use_bad_root { [0u8; 32] } else { native };
    assert_eq!(given_root, cs.value(computed_root));
}

#[test]
fn good_root_test() {
    generate_merkle_tree(&four_leaves(), false);
}

#[should_panic]
#[test]
fn bad_root_test() {
    generate_merkle_tree(&four_leaves(), true);
}

#[test]
fn good_masked_root_test() {
    generate_masked_merkle_tree(&four_leaves(), false);
}

#[should_panic]
#[test]
fn bad_masked_root_test() {
    generate_masked_merkle_tree(&four_leaves(), true);
}

#[test]
fn proof_for_index_two_verifies_only_against_true_root() {
    let leaves = four_leaves();
    let parameters = MerkleParameters::setup(9174123u64, 32);
    let tree = MerkleTree::new(parameters, &leaves).unwrap();
    let root = tree.root();
    let proof = tree.generate_proof(2, &leaves[2]).unwrap();
    assert_eq!(proof.siblings.len(), 32);
    assert_eq!(proof.directions.len(), 32);
    // index 2 = 0b10: left child at the bottom, right child one level up
    assert!(!proof.directions[0]);
    assert!(proof.directions[1]);
    assert!(proof.directions[2..].iter().all(|d| !*d));
    assert!(proof.verify(&parameters, &root, &leaves[2]));
    assert!(!proof.verify(&parameters, &[0u8; 32], &leaves[2]));
}

#[test]
fn round_trip_every_leaf_for_several_heights() {
    for height in 0..6usize {
        let cap = 1usize << height;
        for n in 0..=cap {
            let leaves: Vec<[u8; 32]> = (0..n).map(|i| [i as u8 + 7; 32]).collect();
            let parameters = MerkleParameters::setup(5, height);
            let tree = MerkleTree::new(parameters, &leaves).unwrap();
            let root = tree.root();
            assert_eq!(tree.num_leaves(), n);
            for (i, leaf) in leaves.iter().enumerate() {
                let proof = tree.generate_proof(i, leaf).unwrap();
                assert!(proof.verify(&parameters, &root, leaf));
            }
        }
    }
}

#[test]
fn tampering_is_detected() {
    let leaves = four_leaves();
    let parameters = MerkleParameters::setup(11, 4);
    let tree = MerkleTree::new(parameters, &leaves).unwrap();
    let root = tree.root();
    let proof = tree.generate_proof(1, &leaves[1]).unwrap();
    assert!(proof.verify(&parameters, &root, &leaves[1]));
    for level in 0..4 {
        let mut bad = proof.clone();
        bad.siblings[level][0] ^= 1;
        assert!(!bad.verify(&parameters, &root, &leaves[1]));
        let mut flipped = proof.clone();
        flipped.directions[level] = !flipped.directions[level];
        assert!(!flipped.verify(&parameters, &root, &leaves[1]));
    }
    let mut wrong_root = root;
    wrong_root[31] ^= 0x80;
    assert!(!proof.verify(&parameters, &wrong_root, &leaves[1]));
    assert!(!proof.verify(&parameters, &root, &leaves[0]));
}

#[test]
fn tampered_proof_fails_in_circuit() {
    let leaves = four_leaves();
    let parameters = MerkleParameters::setup(11, 4);
    let tree = MerkleTree::new(parameters, &leaves).unwrap();
    let root = tree.root();
    let mut proof = tree.generate_proof(3, &leaves[3]).unwrap();
    proof.directions[0] = !proof.directions[0];
    assert!(!proof.verify(&parameters, &root, &leaves[3]));
    let mut cs = ConstraintSystem::new();
    let root_var = cs.alloc_bytes(root);
    let params_var = cs.alloc_parameters(&parameters.parameters());
    let leaf_var = cs.alloc_bytes(leaves[3]);
    let gadget = MerklePathGadget::alloc_path(&mut cs, &proof);
    gadget.check_membership(&mut cs, params_var, root_var, leaf_var);
    assert!(!cs.is_satisfied());
}

#[test]
fn padding_depends_on_height_and_is_deterministic() {
    let leaves = four_leaves();
    let crh = CrhParameters::setup(3);
    let a = MerkleTree::new(MerkleParameters::new(crh, 3), &leaves).unwrap();
    let b = MerkleTree::new(MerkleParameters::new(crh, 4), &leaves).unwrap();
    let c = MerkleTree::new(MerkleParameters::new(crh, 3), &leaves).unwrap();
    assert_ne!(a.root(), b.root());
    assert_eq!(a.root(), c.root());
}

#[test]
fn root_is_hash_of_children() {
    let leaves = [[9u8; 32], [8u8; 32]];
    let params = MerkleParameters::setup(2, 1);
    let crh = params.parameters();
    let tree = MerkleTree::new(params, &leaves).unwrap();
    let expected = crh.hash_inner(&crh.hash_leaf(&leaves[0]), &crh.hash_leaf(&leaves[1]));
    assert_eq!(tree.root(), expected);
    // a single leaf over height 1 is paired with the empty hash
    let single = MerkleTree::new(params, &leaves[..1]).unwrap();
    assert_eq!(single.root(), crh.hash_inner(&crh.hash_leaf(&leaves[0]), &crh.hash_empty()));
    // no leaves at all: the root of an empty subtree
    let none = MerkleTree::new(params, &[]).unwrap();
    assert_eq!(none.root(), crh.hash_inner(&crh.hash_empty(), &crh.hash_empty()));
}

#[test]
fn construction_errors() {
    let leaves = four_leaves();
    let params = MerkleParameters::setup(1, 1);
    assert_eq!(MerkleTree::new(params, &leaves).unwrap_err(), MerkleError::TooManyLeaves);
    let params = MerkleParameters::setup(1, 2);
    let tree = MerkleTree::new(params, &leaves).unwrap();
    assert_eq!(tree.generate_proof(4, &leaves[0]).unwrap_err(), MerkleError::IndexOutOfBounds);
    assert_eq!(tree.generate_proof(1, &leaves[0]).unwrap_err(), MerkleError::LeafMismatch);
    let zero_height = MerkleParameters::setup(1, 0);
    assert!(MerkleTree::new(zero_height, &leaves[..1]).is_ok());
    assert_eq!(MerkleTree::new(zero_height, &leaves[..2]).unwrap_err(), MerkleError::TooManyLeaves);
    assert_eq!(
        compute_masked_root(&params, &[0u8; 32], &[[0u8; 32]; 5]).unwrap_err(),
        MerkleError::TooManyLeaves
    );
    let mut cs = ConstraintSystem::new();
    let vars = alloc_leaves(&mut cs, &[[0u8; 32]; 5]);
    let p = cs.alloc_parameters(&params.parameters());
    let m = cs.alloc_bytes([0u8; 32]);
    let before = cs.num_constraints();
    assert_eq!(compute_root(&mut cs, p, m, &vars, 2).unwrap_err(), MerkleError::TooManyLeaves);
    assert_eq!(cs.num_constraints(), before);
}

#[test]
fn masked_commitments_differ_by_nonce_and_each_verifies() {
    let leaves = four_leaves();
    let params = MerkleParameters::setup(9174123u64, 3);
    let a = masked_commitment(&params, &leaves, &[1u8; 32]).unwrap();
    let b = masked_commitment(&params, &leaves, &[2u8; 32]).unwrap();
    assert_ne!(a.mask, b.mask);
    assert_ne!(a.commitment, b.commitment);
    assert!(verify_masked(&params, &leaves, &a.mask, &a.commitment));
    assert!(verify_masked(&params, &leaves, &b.mask, &b.commitment));
    assert!(!verify_masked(&params, &leaves, &a.mask, &b.commitment));
    let tree = MerkleTree::new(params, &leaves).unwrap();
    assert_ne!(a.commitment, tree.root());
    assert_eq!(a.mask, compute_mask(&[1u8; 32], &tree.root()));
}

#[test]
fn masked_root_in_circuit_matches_native_for_other_heights() {
    for height in 2..5usize {
        let leaves = four_leaves();
        let params = MerkleParameters::setup(77, height);
        let mask = [5u8; 32];
        let mut cs = ConstraintSystem::new();
        let vars = alloc_leaves(&mut cs, &leaves[..3]);
        let m = cs.alloc_bytes(mask);
        let p = cs.alloc_parameters(&params.parameters());
        let out = compute_root(&mut cs, p, m, &vars, height).unwrap();
        assert!(cs.is_satisfied());
        assert_eq!(cs.value(out), compute_masked_root(&params, &mask, &leaves[..3]).unwrap());
    }
}

#[test]
fn hash_engine_depends_on_key_and_input() {
    let a = CrhParameters::from_key([1u8; 32]);
    let b = CrhParameters::from_key([2u8; 32]);
    let x = [3u8; 32];
    assert_ne!(a.hash_leaf(&x), x);
    assert_ne!(a.hash_leaf(&x), b.hash_leaf(&x));
    assert_eq!(a.hash_leaf(&x), a.evaluate(&x));
    assert_ne!(a.hash_inner(&x, &[4u8; 32]), a.hash_inner(&[4u8; 32], &x));
    assert_ne!(a.hash_empty(), a.hash_leaf(&[0u8; 32]));
    assert_ne!(compute_mask(&x, &[4u8; 32]), [4u8; 32]);
    assert_ne!(compute_mask(&x, &[4u8; 32]), compute_mask(&[4u8; 32], &x));
    assert_eq!(CrhParameters::setup(9), CrhParameters::setup(9));
    assert_ne!(CrhParameters::setup(9), CrhParameters::setup(10));
}

#[test]
fn constraint_system_detects_wrong_witness() {
    let params = MerkleParameters::setup(4, 2);
    let leaves = four_leaves();
    let mut cs = ConstraintSystem::new();
    let vars = alloc_leaves(&mut cs, &leaves);
    let m = cs.alloc_bytes([0u8; 32]);
    let p = cs.alloc_parameters(&params.parameters());
    let out = compute_root(&mut cs, p, m, &vars, 2).unwrap();
    assert!(cs.is_satisfied());
    assert_eq!(cs.num_variables(), out + 1);
    assert_eq!(cs.num_bits(), 0);
}
