//! The Merkle tree over a fixed height, its membership proofs and their
//! native verification.
use crate::crh::{empty_hash, inner_hash, leaf_hash, seeded_key_of, CrhParameters};
use vstd::prelude::*;

verus! {

/// `2` to the power `h`.
pub open spec fn pow2(h: nat) -> nat
    decreases h,
{
    if h == 0 {
        1
    } else {
        2 * pow2((h - 1) as nat)
    }
}

/// The node at `level` and `pos` of the full tree of the given height whose
/// first leaf slots hold `leaves` and whose other slots are empty.
pub open spec fn node_at(key: Seq<u8>, leaves: Seq<[u8; 32]>, level: nat, pos: nat) -> Seq<u8>
    decreases level,
{
    if level == 0 {
        if pos < leaves.len() {
            leaf_hash(key, leaves[pos as int]@)
        } else {
            empty_hash(key)
        }
    } else {
        inner_hash(
            key,
            node_at(key, leaves, (level - 1) as nat, 2 * pos),
            node_at(key, leaves, (level - 1) as nat, 2 * pos + 1),
        )
    }
}

/// The root of a subtree of the given level whose leaf slots are all empty.
pub open spec fn empty_node(key: Seq<u8>, level: nat) -> Seq<u8>
    decreases level,
{
    if level == 0 {
        empty_hash(key)
    } else {
        inner_hash(key, empty_node(key, (level - 1) as nat), empty_node(key, (level - 1) as nat))
    }
}

/// The root of the full tree of `height` levels over `leaves`.
pub open spec fn tree_root(key: Seq<u8>, leaves: Seq<[u8; 32]>, height: nat) -> Seq<u8> {
    node_at(key, leaves, height, 0)
}

/// How many nodes of `level` have at least one real leaf below them, for `n` leaves.
pub open spec fn count_at(n: nat, level: nat) -> nat
    decreases level,
{
    if level == 0 {
        n
    } else {
        ((count_at(n, (level - 1) as nat) + 1) / 2) as nat
    }
}

/// The position at `level` of the ancestor of leaf `index`.
pub open spec fn pos_at(index: nat, level: nat) -> nat
    decreases level,
{
    if level == 0 {
        index
    } else {
        pos_at(index, (level - 1) as nat) / 2
    }
}

/// The other member of the pair that `pos` belongs to.
pub open spec fn sibling_of(pos: nat) -> nat {
    if pos % 2 == 0 {
        pos + 1
    } else {
        (pos - 1) as nat
    }
}

/// One step up a path: the current node and its sibling, ordered by the
/// direction bit (`false`: the current node is the left child).
pub open spec fn combine(key: Seq<u8>, cur: Seq<u8>, sib: Seq<u8>, dir: bool) -> Seq<u8> {
    if dir {
        inner_hash(key, sib, cur)
    } else {
        inner_hash(key, cur, sib)
    }
}

/// The node reached after folding the first `k` steps of a path up from a leaf.
pub open spec fn path_node(
    key: Seq<u8>,
    leaf: Seq<u8>,
    sibs: Seq<Seq<u8>>,
    dirs: Seq<bool>,
    k: nat,
) -> Seq<u8>
    decreases k,
{
    if k == 0 {
        leaf_hash(key, leaf)
    } else {
        combine(
            key,
            path_node(key, leaf, sibs, dirs, (k - 1) as nat),
            sibs[k - 1],
            dirs[k - 1],
        )
    }
}

/// The root that a path recomputes from a leaf.
pub open spec fn path_root(key: Seq<u8>, leaf: Seq<u8>, sibs: Seq<Seq<u8>>, dirs: Seq<bool>) -> Seq<u8> {
    path_node(key, leaf, sibs, dirs, sibs.len())
}

/// The siblings that the proof for leaf `index` records, bottom-up.
pub open spec fn proof_siblings(key: Seq<u8>, leaves: Seq<[u8; 32]>, height: nat, index: nat) -> Seq<Seq<u8>> {
    Seq::new(height, |l: int| node_at(key, leaves, l as nat, sibling_of(pos_at(index, l as nat))))
}

/// The direction bits of the proof for leaf `index`, bottom-up.
pub open spec fn proof_directions(height: nat, index: nat) -> Seq<bool> {
    Seq::new(height, |l: int| pos_at(index, l as nat) % 2 == 1)
}

pub proof fn lemma_pow2_mono(a: nat, b: nat)
    requires
        a <= b,
    ensures
        pow2(a) <= pow2(b),
    decreases b,
{
    if a < b {
        lemma_pow2_mono(a, (b - 1) as nat);
    }
}

/// Every node past the occupied ones at its level is the root of an empty subtree.
pub proof fn lemma_empty_beyond(key: Seq<u8>, leaves: Seq<[u8; 32]>, level: nat, pos: nat)
    requires
        pos >= count_at(leaves.len(), level),
    ensures
        node_at(key, leaves, level, pos) == empty_node(key, level),
    decreases level,
{
    if level > 0 {
        lemma_empty_beyond(key, leaves, (level - 1) as nat, 2 * pos);
        lemma_empty_beyond(key, leaves, (level - 1) as nat, 2 * pos + 1);
    }
}

proof fn lemma_pos_bound(index: nat, k: nat, m: nat)
    requires
        index < pow2(k) * m,
    ensures
        pos_at(index, k) < m,
    decreases k,
{
    if k > 0 {
        let k1 = (k - 1) as nat;
        assert(pow2(k) * m == pow2(k1) * (2 * m)) by (nonlinear_arith)
            requires
                pow2(k) == 2 * pow2(k1),
        ;
        lemma_pos_bound(index, k1, 2 * m);
    } else {
        assert(pow2(0) == 1);
        assert(pow2(0) * m == m) by (nonlinear_arith)
            requires
                pow2(0) == 1,
        ;
    }
}

/// Folding the proof of leaf `index` for `k` steps reaches its ancestor at level `k`.
proof fn lemma_path_node(key: Seq<u8>, leaves: Seq<[u8; 32]>, height: nat, index: nat, k: nat)
    requires
        index < leaves.len(),
        k <= height,
    ensures
        path_node(
            key,
            leaves[index as int]@,
            proof_siblings(key, leaves, height, index),
            proof_directions(height, index),
            k,
        ) == node_at(key, leaves, k, pos_at(index, k)),
    decreases k,
{
    if k > 0 {
        let k1 = (k - 1) as nat;
        lemma_path_node(key, leaves, height, index, k1);
        let p = pos_at(index, k1);
        if p % 2 == 0 {
            assert(2 * (p / 2) == p);
        } else {
            assert(2 * (p / 2) + 1 == p);
        }
    }
}

/// Round trip: for any height, any leaves that fit, and any index among them,
/// the proof that the tree records for that leaf folds back up to the tree's root.
pub proof fn lemma_round_trip(key: Seq<u8>, leaves: Seq<[u8; 32]>, height: nat, index: nat)
    requires
        leaves.len() <= pow2(height),
        index < leaves.len(),
    ensures
        path_root(
            key,
            leaves[index as int]@,
            proof_siblings(key, leaves, height, index),
            proof_directions(height, index),
        ) == tree_root(key, leaves, height),
{
    lemma_path_node(key, leaves, height, index, height);
    lemma_pos_bound(index, height, 1);
}

/// Public setup of a tree: the hash parameters and the fixed height `H`
/// (room for `2^H` leaves).
#[derive(Clone, Copy, Debug, PartialEq, Eq)]
pub struct MerkleParameters {
    pub crh: CrhParameters,
    pub height: usize,
}

impl MerkleParameters {
    /// Parameters of the given height, hash parameters drawn from `seed`.
    pub fn setup(seed: u64, height: usize) -> (r: MerkleParameters)
        ensures
            r.crh.key@ == seeded_key_of(seed),
            r.height == height,
    {
        MerkleParameters { crh: CrhParameters::setup(seed), height }
    }

    /// Parameters from hash parameters and a height.
    pub fn new(crh: CrhParameters, height: usize) -> (r: MerkleParameters)
        ensures
            r.crh == crh,
            r.height == height,
    {
        MerkleParameters { crh, height }
    }

    /// The hash parameters.
    pub fn parameters(&self) -> (r: CrhParameters)
        ensures
            r == self.crh,
    {
        self.crh
    }

    pub open spec fn key(&self) -> Seq<u8> {
        self.crh.key@
    }
}

/// Why a tree or a proof could not be made.
#[derive(Clone, Copy, Debug, PartialEq, Eq)]
pub enum MerkleError {
    /// More leaves than the height has room for.
    TooManyLeaves,
    /// The index names no leaf of the tree.
    IndexOutOfBounds,
    /// The claimed leaf differs from the one stored at the index.
    LeafMismatch,
}

/// Whether two 32-byte values are equal.
pub fn bytes_eq(a: &[u8; 32], b: &[u8; 32]) -> (r: bool)
    ensures
        r == (a@ == b@),
{
    let mut i: usize = 0;
    while i < 32
        invariant
            i <= 32,
            forall|j: int| 0 <= j < i ==> a@[j] == b@[j],
        decreases 32 - i,
    {
        if a[i] != b[i] {
            return false;
        }
        i = i + 1;
    }
    assert(a@ =~= b@);
    true
}

/// Whether `n` leaves exceed the room of a tree of the given height.
pub fn exceeds_capacity(n: usize, height: usize) -> (r: bool)
    ensures
        r == (n as nat > pow2(height as nat)),
{
    let mut cap: u128 = 1;
    let mut i: usize = 0;
    while i < height && cap <= n as u128
        invariant
            i <= height,
            cap == pow2(i as nat),
            cap <= 2 * (n as u128) + 1,
        decreases height - i,
    {
        cap = cap * 2;
        i = i + 1;
    }
    if i < height {
        proof {
            lemma_pow2_mono(i as nat, height as nat);
        }
    }
    n as u128 > cap
}

/// A membership proof: the siblings met on the way from a leaf to the root,
/// and for each level whether the node on the path is the right child.
#[derive(Clone, Debug, PartialEq, Eq)]
pub struct MerklePath {
    pub siblings: Vec<[u8; 32]>,
    pub directions: Vec<bool>,
}

impl MerklePath {
    pub open spec fn sibling_hashes(&self) -> Seq<Seq<u8>> {
        self.siblings@.map_values(|s: [u8; 32]| s@)
    }

    /// The proof has one sibling and one direction per level of `parameters`.
    pub open spec fn fits(&self, parameters: MerkleParameters) -> bool {
        &&& self.siblings@.len() == parameters.height
        &&& self.directions@.len() == parameters.height
    }

    /// The root that this proof recomputes from `leaf`.
    pub open spec fn root_from(&self, parameters: MerkleParameters, leaf: Seq<u8>) -> Seq<u8> {
        path_root(parameters.key(), leaf, self.sibling_hashes(), self.directions@)
    }

    /// Whether the proof leads from `leaf` to `root`.
    pub open spec fn verifies(&self, parameters: MerkleParameters, root: Seq<u8>, leaf: Seq<u8>) -> bool {
        self.root_from(parameters, leaf) == root
    }

    /// Folds `leaf` up through the recorded siblings and compares with `root`.
    pub fn verify(&self, parameters: &MerkleParameters, root: &[u8; 32], leaf: &[u8; 32]) -> (r: bool)
        requires
            self.fits(*parameters),
        ensures
            r == self.verifies(*parameters, root@, leaf@),
    {
        let crh = &parameters.crh;
        let mut cur = crh.hash_leaf(leaf);
        let mut k: usize = 0;
        while k < self.siblings.len()
            invariant
                self.fits(*parameters),
                crh == &parameters.crh,
                k <= self.siblings@.len(),
                cur@ == path_node(parameters.key(), leaf@, self.sibling_hashes(), self.directions@, k as nat),
            decreases self.siblings@.len() - k,
        {
            let sib = &self.siblings[k];
            if self.directions[k] {
                cur = crh.hash_inner(sib, &cur);
            } else {
                cur = crh.hash_inner(&cur, sib);
            }
            k = k + 1;
        }
        bytes_eq(&cur, root)
    }
}

/// A Merkle tree of fixed height. Level `0` holds the leaf hashes; each
/// level keeps only the nodes with a real leaf below them, the others being
/// the root of an empty subtree of that level.
#[derive(Clone, Debug)]
pub struct MerkleTree {
    parameters: MerkleParameters,
    leaves: Vec<[u8; 32]>,
    levels: Vec<Vec<[u8; 32]>>,
    empty: Vec<[u8; 32]>,
    root: [u8; 32],
}

impl MerkleTree {
    pub closed spec fn params(&self) -> MerkleParameters {
        self.parameters
    }

    pub closed spec fn leaves_view(&self) -> Seq<[u8; 32]> {
        self.leaves@
    }

    pub closed spec fn root_view(&self) -> Seq<u8> {
        self.root@
    }

    /// The stored nodes agree with the full tree over the leaves.
    pub closed spec fn wf(&self) -> bool {
        let key = self.parameters.key();
        let h = self.parameters.height as nat;
        let n = self.leaves@.len();
        &&& n <= pow2(h)
        &&& self.levels@.len() == h + 1
        &&& self.empty@.len() == h + 1
        &&& forall|l: int| 0 <= l <= h ==> #[trigger] self.levels@[l]@.len() == count_at(n, l as nat)
        &&& forall|l: int, j: int|
            0 <= l <= h && 0 <= j < count_at(n, l as nat) ==> #[trigger] self.levels@[l]@[j]@
                == node_at(key, self.leaves@, l as nat, j as nat)
        &&& forall|l: int| 0 <= l <= h ==> #[trigger] self.empty@[l]@ == empty_node(key, l as nat)
        &&& self.root@ == tree_root(key, self.leaves@, h)
    }

    /// Builds the tree of `parameters.height` levels over `leaves`, the
    /// remaining leaf slots being empty. Fails when there are more leaves
    /// than `2^H`.
    pub fn new(parameters: MerkleParameters, leaves: &[[u8; 32]]) -> (r: Result<MerkleTree, MerkleError>)
        ensures
            (r is Err) == (leaves@.len() > pow2(parameters.height as nat)),
            r is Err ==> r == Err::<MerkleTree, MerkleError>(MerkleError::TooManyLeaves),
            r matches Ok(t) ==> {
                &&& t.wf()
                &&& t.params() == parameters
                &&& t.leaves_view() == leaves@
                &&& t.root_view() == tree_root(parameters.key(), leaves@, parameters.height as nat)
            },
    {
        let n = leaves.len();
        if exceeds_capacity(n, parameters.height) {
            return Err(MerkleError::TooManyLeaves);
        }
        let ghost key = parameters.key();
        let crh = &parameters.crh;
        let mut stored: Vec<[u8; 32]> = Vec::new();
        let mut first: Vec<[u8; 32]> = Vec::new();
        let mut i: usize = 0;
        while i < n
            invariant
                n == leaves@.len(),
                crh == &parameters.crh,
                key == parameters.key(),
                i <= n,
                stored@ == leaves@.subrange(0, i as int),
                first@.len() == i,
                forall|j: int| 0 <= j < i ==> #[trigger] first@[j]@ == node_at(key, leaves@, 0, j as nat),
            decreases n - i,
        {
            stored.push(leaves[i]);
            first.push(crh.hash_leaf(&leaves[i]));
            i = i + 1;
        }
        assert(stored@ =~= leaves@);
        let mut levels: Vec<Vec<[u8; 32]>> = Vec::new();
        let mut empty: Vec<[u8; 32]> = Vec::new();
        let mut prev = first;
        let mut prev_empty = crh.hash_empty();
        let mut l: usize = 0;
        while l < parameters.height
            invariant
                n == leaves@.len(),
                crh == &parameters.crh,
                key == parameters.key(),
                l <= parameters.height,
                levels@.len() == l,
                empty@.len() == l,
                forall|m: int| 0 <= m < l ==> #[trigger] levels@[m]@.len() == count_at(n as nat, m as nat),
                forall|m: int, j: int|
                    0 <= m < l && 0 <= j < count_at(n as nat, m as nat) ==> #[trigger] levels@[m]@[j]@
                        == node_at(key, leaves@, m as nat, j as nat),
                forall|m: int| 0 <= m < l ==> #[trigger] empty@[m]@ == empty_node(key, m as nat),
                prev@.len() == count_at(n as nat, l as nat),
                forall|j: int|
                    0 <= j < prev@.len() ==> #[trigger] prev@[j]@ == node_at(key, leaves@, l as nat, j as nat),
                prev_empty@ == empty_node(key, l as nat),
            decreases parameters.height - l,
        {
            let plen = prev.len();
            let cnt = plen / 2 + plen % 2;
            let mut next: Vec<[u8; 32]> = Vec::new();
            let mut j: usize = 0;
            while j < cnt
                invariant
                    n == leaves@.len(),
                    crh == &parameters.crh,
                    key == parameters.key(),
                    l < parameters.height,
                    prev@.len() == count_at(n as nat, l as nat),
                    forall|q: int|
                        0 <= q < prev@.len() ==> #[trigger] prev@[q]@ == node_at(key, leaves@, l as nat, q as nat),
                    prev_empty@ == empty_node(key, l as nat),
                    plen == prev@.len(),
                    cnt == (prev@.len() + 1) / 2,
                    j <= cnt,
                    next@.len() == j,
                    forall|q: int|
                        0 <= q < j ==> #[trigger] next@[q]@ == node_at(key, leaves@, (l + 1) as nat, q as nat),
                decreases cnt - j,
            {
                assert(2 * j < prev@.len());
                let left = &prev[2 * j];
                let h = if 2 * j + 1 < plen {
                    crh.hash_inner(left, &prev[2 * j + 1])
                } else {
                    proof {
                        lemma_empty_beyond(key, leaves@, l as nat, (2 * j + 1) as nat);
                    }
                    crh.hash_inner(left, &prev_empty)
                };
                next.push(h);
                j = j + 1;
            }
            let e = crh.hash_inner(&prev_empty, &prev_empty);
            levels.push(prev);
            empty.push(prev_empty);
            prev = next;
            prev_empty = e;
            l = l + 1;
        }
        let root = if prev.len() == 0 {
            proof {
                lemma_empty_beyond(key, leaves@, parameters.height as nat, 0);
            }
            prev_empty
        } else {
            prev[0]
        };
        levels.push(prev);
        empty.push(prev_empty);
        let tree = MerkleTree { parameters, leaves: stored, levels, empty, root };
        assert(tree.wf());
        Ok(tree)
    }

    /// The root of the tree.
    pub fn root(&self) -> (r: [u8; 32])
        requires
            self.wf(),
        ensures
            r@ == self.root_view(),
            r@ == tree_root(self.params().key(), self.leaves_view(), self.params().height as nat),
    {
        self.root
    }

    /// The proof for the leaf at `index`, whose bytes must be `leaf`: the
    /// sibling of the node on the path at each level, bottom-up, and whether
    /// that node is the right child.
    pub fn generate_proof(&self, index: usize, leaf: &[u8; 32]) -> (r: Result<MerklePath, MerkleError>)
        requires
            self.wf(),
        ensures
            (r == Err::<MerklePath, MerkleError>(MerkleError::IndexOutOfBounds)) == (index
                >= self.leaves_view().len()),
            (r == Err::<MerklePath, MerkleError>(MerkleError::LeafMismatch)) == (index
                < self.leaves_view().len() && self.leaves_view()[index as int]@ != leaf@),
            (r is Ok) == (index < self.leaves_view().len() && self.leaves_view()[index as int]@ == leaf@),
            r matches Ok(p) ==> {
                &&& p.fits(self.params())
                &&& p.sibling_hashes() == proof_siblings(
                    self.params().key(),
                    self.leaves_view(),
                    self.params().height as nat,
                    index as nat,
                )
                &&& p.directions@ == proof_directions(self.params().height as nat, index as nat)
                &&& p.verifies(self.params(), self.root_view(), leaf@)
            },
    {
        if index >= self.leaves.len() {
            return Err(MerkleError::IndexOutOfBounds);
        }
        if !bytes_eq(&self.leaves[index], leaf) {
            return Err(MerkleError::LeafMismatch);
        }
        let ghost key = self.parameters.key();
        let ghost n = self.leaves@.len();
        let height = self.parameters.height;
        let mut siblings: Vec<[u8; 32]> = Vec::new();
        let mut directions: Vec<bool> = Vec::new();
        let mut pos = index;
        let mut l: usize = 0;
        while l < height
            invariant
                self.wf(),
                key == self.parameters.key(),
                n == self.leaves@.len(),
                height == self.parameters.height,
                index < n,
                l <= height,
                pos as nat == pos_at(index as nat, l as nat),
                siblings@.len() == l,
                directions@.len() == l,
                forall|m: int|
                    0 <= m < l ==> #[trigger] siblings@[m]@ == node_at(
                        key,
                        self.leaves@,
                        m as nat,
                        sibling_of(pos_at(index as nat, m as nat)),
                    ),
                forall|m: int| 0 <= m < l ==> #[trigger] directions@[m] == (pos_at(index as nat, m as nat) % 2 == 1),
            decreases height - l,
        {
            let sib = if pos % 2 == 0 {
                pos + 1
            } else {
                pos - 1
            };
            assert(self.levels@[l as int]@.len() == count_at(n, l as nat));
            let node = if sib < self.levels[l].len() {
                self.levels[l][sib]
            } else {
                proof {
                    lemma_empty_beyond(key, self.leaves@, l as nat, sib as nat);
                }
                self.empty[l]
            };
            siblings.push(node);
            directions.push(pos % 2 == 1);
            pos = pos / 2;
            l = l + 1;
        }
        let path = MerklePath { siblings, directions };
        let ghost h = height as nat;
        assert(path.sibling_hashes() =~= proof_siblings(key, self.leaves@, h, index as nat));
        assert(path.directions@ =~= proof_directions(h, index as nat));
        proof {
            lemma_round_trip(key, self.leaves@, h, index as nat);
        }
        Ok(path)
    }

    /// The number of real leaves.
    pub fn num_leaves(&self) -> (r: usize)
        ensures
            r == self.leaves_view().len(),
    {
        self.leaves.len()
    }

    /// The parameters the tree was built with.
    pub fn parameters(&self) -> (r: MerkleParameters)
        ensures
            r == self.params(),
    {
        self.parameters
    }
}

/// Tampering with the root is detected: a proof that leads from a leaf to one
/// root rejects every other root for that leaf.
pub proof fn lemma_wrong_root_rejected(
    path: MerklePath,
    parameters: MerkleParameters,
    true_root: Seq<u8>,
    root: Seq<u8>,
    leaf: Seq<u8>,
)
    requires
        path.verifies(parameters, true_root, leaf),
        root != true_root,
    ensures
        !path.verifies(parameters, root, leaf),
{
}

/// Two trees built with the same parameters over the same leaves have the same root.
pub proof fn lemma_same_leaves_same_root(a: MerkleTree, b: MerkleTree)
    requires
        a.wf(),
        b.wf(),
        a.params() == b.params(),
        a.leaves_view() == b.leaves_view(),
    ensures
        a.root_view() == b.root_view(),
{
    reveal(MerkleTree::wf);
}

} // verus!
