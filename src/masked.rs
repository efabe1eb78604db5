//! The masked root: the tree's root hashed together with a mask that a nonce
//! derives from it, so that the published commitment hides the root.
use crate::crh::{compute_mask, inner_hash, mask_of};
use crate::tree::{pow2, tree_root, MerkleError, MerkleParameters, MerkleTree};
use vstd::prelude::*;

verus! {

/// The commitment that folds `mask` in above the root of the tree over `leaves`.
pub open spec fn masked_root(key: Seq<u8>, leaves: Seq<[u8; 32]>, height: nat, mask: Seq<u8>) -> Seq<u8> {
    inner_hash(key, mask, tree_root(key, leaves, height))
}

/// Whether `commitment` is the masked root of `leaves` under `mask`.
pub open spec fn masked_verifies(
    parameters: MerkleParameters,
    leaves: Seq<[u8; 32]>,
    mask: Seq<u8>,
    commitment: Seq<u8>,
) -> bool {
    &&& leaves.len() <= pow2(parameters.height as nat)
    &&& masked_root(parameters.key(), leaves, parameters.height as nat, mask) == commitment
}

/// A mask, and the commitment made with it.
#[derive(Clone, Copy, Debug, PartialEq, Eq)]
pub struct MaskedCommitment {
    pub mask: [u8; 32],
    pub commitment: [u8; 32],
}

/// The masked root of `leaves` under `mask`; fails when the leaves do not fit.
pub fn compute_masked_root(parameters: &MerkleParameters, mask: &[u8; 32], leaves: &[[u8; 32]]) -> (r: Result<
    [u8; 32],
    MerkleError,
>)
    ensures
        (r is Err) == (leaves@.len() > pow2(parameters.height as nat)),
        r is Err ==> r == Err::<[u8; 32], MerkleError>(MerkleError::TooManyLeaves),
        r matches Ok(c) ==> c@ == masked_root(parameters.key(), leaves@, parameters.height as nat, mask@),
{
    match MerkleTree::new(*parameters, leaves) {
        Ok(tree) => {
            let root = tree.root();
            Ok(parameters.crh.hash_inner(mask, &root))
        },
        Err(e) => Err(e),
    }
}

/// Derives the mask from `nonce` and the true root of `leaves`, and commits
/// to the leaves under it; fails when the leaves do not fit.
pub fn masked_commitment(parameters: &MerkleParameters, leaves: &[[u8; 32]], nonce: &[u8; 32]) -> (r: Result<
    MaskedCommitment,
    MerkleError,
>)
    ensures
        (r is Err) == (leaves@.len() > pow2(parameters.height as nat)),
        r is Err ==> r == Err::<MaskedCommitment, MerkleError>(MerkleError::TooManyLeaves),
        r matches Ok(c) ==> {
            let key = parameters.key();
            let h = parameters.height as nat;
            &&& c.mask@ == mask_of(nonce@, tree_root(key, leaves@, h))
            &&& c.commitment@ == masked_root(key, leaves@, h, c.mask@)
        },
{
    match MerkleTree::new(*parameters, leaves) {
        Ok(tree) => {
            let root = tree.root();
            let mask = compute_mask(nonce, &root);
            let commitment = parameters.crh.hash_inner(&mask, &root);
            Ok(MaskedCommitment { mask, commitment })
        },
        Err(e) => Err(e),
    }
}

/// Whether `commitment` is the masked root of `leaves` under `mask`.
pub fn verify_masked(
    parameters: &MerkleParameters,
    leaves: &[[u8; 32]],
    mask: &[u8; 32],
    commitment: &[u8; 32],
) -> (r: bool)
    ensures
        r == masked_verifies(*parameters, leaves@, mask@, commitment@),
{
    match compute_masked_root(parameters, mask, leaves) {
        Ok(c) => crate::tree::bytes_eq(&c, commitment),
        Err(_) => false,
    }
}

/// Commitments made over the same leaves with any two nonces each verify
/// against their own mask.
pub proof fn lemma_masked_each_verifies(
    parameters: MerkleParameters,
    leaves: Seq<[u8; 32]>,
    nonce_a: Seq<u8>,
    nonce_b: Seq<u8>,
)
    requires
        leaves.len() <= pow2(parameters.height as nat),
    ensures
        ({
            let key = parameters.key();
            let h = parameters.height as nat;
            let root = tree_root(key, leaves, h);
            let mask_a = mask_of(nonce_a, root);
            let mask_b = mask_of(nonce_b, root);
            &&& masked_verifies(parameters, leaves, mask_a, masked_root(key, leaves, h, mask_a))
            &&& masked_verifies(parameters, leaves, mask_b, masked_root(key, leaves, h, mask_b))
        }),
{
}

} // verus!
