//! The hash engine: a keyed compressing hash with public parameters, and the
//! pseudorandom function used to derive masks.
use blake2::digest::generic_array::GenericArray;
use blake2::digest::{Digest, KeyInit, Mac};
use blake2::{Blake2s256, Blake2sMac256};
use rand::{RngCore, SeedableRng};
use rand_xorshift::XorShiftRng;
use vstd::prelude::*;

verus! {

/// Length in bytes of every hash output, leaf value, key, nonce and mask.
pub const OUTPUT_SIZE: usize = 32;

/// What the keyed hash returns for `key` and `input`.
pub uninterp spec fn crh_of(key: Seq<u8>, input: Seq<u8>) -> Seq<u8>;

/// What the pseudorandom function returns for `seed` and `input`.
pub uninterp spec fn prf_of(seed: Seq<u8>, input: Seq<u8>) -> Seq<u8>;

/// The key that a generator seeded with `seed` draws.
pub uninterp spec fn seeded_key_of(seed: u64) -> Seq<u8>;

/// Public parameters of the hash engine: the key under which it compresses.
#[derive(Clone, Copy, Debug, PartialEq, Eq)]
pub struct CrhParameters {
    pub key: [u8; 32],
}

/// Relies on rand_xorshift's `XorShiftRng::seed_from_u64` and `RngCore::fill_bytes`:
/// a generator seeded with `seed` fills the key, the same for the same seed.
#[verifier::external_body]
fn seeded_key(seed: u64) -> (r: [u8; 32])
    ensures
        r@ == seeded_key_of(seed),
{
    let mut rng = XorShiftRng::seed_from_u64(seed);
    let mut key = [0u8; 32];
    rng.fill_bytes(&mut key);
    key
}

/// Relies on blake2's `Blake2sMac256` (keyed BLAKE2s, 32-byte key and output):
/// the result depends on the key and the input alone.
#[verifier::external_body]
fn blake2s_keyed(key: &[u8; 32], input: &[u8]) -> (r: [u8; 32])
    ensures
        r@ == crh_of(key@, input@),
{
    let mut mac = <Blake2sMac256 as KeyInit>::new(&GenericArray::from(*key));
    Mac::update(&mut mac, input);
    mac.finalize().into_bytes().into()
}

/// Relies on blake2's `Blake2s256` (unkeyed BLAKE2s, 32-byte output) over the
/// seed followed by the input: the result depends on those bytes alone.
#[verifier::external_body]
fn blake2s_seeded(seed: &[u8; 32], input: &[u8; 32]) -> (r: [u8; 32])
    ensures
        r@ == prf_of(seed@, input@),
{
    let mut h = Blake2s256::new();
    Digest::update(&mut h, seed);
    Digest::update(&mut h, input);
    h.finalize().into()
}

/// The canonical value whose hash fills unused leaf slots: the empty string.
pub open spec fn empty_input() -> Seq<u8> {
    Seq::empty()
}

/// Hash of a leaf's bytes.
pub open spec fn leaf_hash(key: Seq<u8>, leaf: Seq<u8>) -> Seq<u8> {
    crh_of(key, leaf)
}

/// Hash of an unused leaf slot.
pub open spec fn empty_hash(key: Seq<u8>) -> Seq<u8> {
    crh_of(key, empty_input())
}

/// Hash of an inner node: the hash of its two children, left first.
pub open spec fn inner_hash(key: Seq<u8>, left: Seq<u8>, right: Seq<u8>) -> Seq<u8> {
    crh_of(key, left + right)
}

/// The mask derived from a nonce and the bytes of a root.
pub open spec fn mask_of(nonce: Seq<u8>, root: Seq<u8>) -> Seq<u8> {
    prf_of(nonce, root)
}

/// Concatenates two 32-byte values.
pub fn concat(a: &[u8; 32], b: &[u8; 32]) -> (r: Vec<u8>)
    ensures
        r@ == a@ + b@,
{
    let mut r: Vec<u8> = Vec::with_capacity(64);
    let mut i: usize = 0;
    while i < 32
        invariant
            i <= 32,
            r@ == a@.subrange(0, i as int),
        decreases 32 - i,
    {
        r.push(a[i]);
        i = i + 1;
    }
    assert(r@ == a@);
    let mut j: usize = 0;
    while j < 32
        invariant
            j <= 32,
            r@ == a@ + b@.subrange(0, j as int),
        decreases 32 - j,
    {
        r.push(b[j]);
        j = j + 1;
    }
    assert(b@.subrange(0, 32) == b@);
    r
}

impl CrhParameters {
    /// Parameters drawn from a generator seeded with `seed`; the same seed
    /// always gives the same parameters.
    pub fn setup(seed: u64) -> (r: CrhParameters)
        ensures
            r.key@ == seeded_key_of(seed),
    {
        CrhParameters { key: seeded_key(seed) }
    }

    /// Parameters with the given key.
    pub fn from_key(key: [u8; 32]) -> (r: CrhParameters)
        ensures
            r.key == key,
    {
        CrhParameters { key }
    }

    /// Hashes arbitrary bytes under these parameters.
    pub fn evaluate(&self, input: &[u8]) -> (r: [u8; 32])
        ensures
            r@ == crh_of(self.key@, input@),
    {
        blake2s_keyed(&self.key, input)
    }

    /// Hashes one leaf.
    pub fn hash_leaf(&self, leaf: &[u8; 32]) -> (r: [u8; 32])
        ensures
            r@ == leaf_hash(self.key@, leaf@),
    {
        blake2s_keyed(&self.key, leaf.as_slice())
    }

    /// Hashes the canonical empty value.
    pub fn hash_empty(&self) -> (r: [u8; 32])
        ensures
            r@ == empty_hash(self.key@),
    {
        let e: Vec<u8> = Vec::new();
        assert(e@ == empty_input());
        blake2s_keyed(&self.key, e.as_slice())
    }

    /// Hashes an inner node from its two children.
    pub fn hash_inner(&self, left: &[u8; 32], right: &[u8; 32]) -> (r: [u8; 32])
        ensures
            r@ == inner_hash(self.key@, left@, right@),
    {
        let buf = concat(left, right);
        blake2s_keyed(&self.key, buf.as_slice())
    }
}

/// The mask for `nonce` over the bytes of `root`.
pub fn compute_mask(nonce: &[u8; 32], root: &[u8; 32]) -> (r: [u8; 32])
    ensures
        r@ == mask_of(nonce@, root@),
{
    blake2s_seeded(nonce, root)
}

} // verus!
