//! Gadgets: membership of a leaf under a root, and the masked root of a
//! leaf set, each expressed as constraints of a [`ConstraintSystem`].
use crate::circuit::{extends, Constraint, ConstraintSystem};
use crate::crh::CrhParameters;
use crate::masked::masked_root;
use crate::tree::{
    count_at, exceeds_capacity, lemma_empty_beyond, node_at, path_node, path_root, pow2, empty_node,
    MerkleError, MerkleParameters, MerklePath,
};
use vstd::prelude::*;

verus! {

/// The values held by the byte variables `vars`.
pub open spec fn var_values(vals: Seq<[u8; 32]>, vars: Seq<usize>) -> Seq<Seq<u8>> {
    Seq::new(vars.len(), |i: int| vals[vars[i] as int]@)
}

/// The values held by the bit variables `vars`.
pub open spec fn var_bits(bits: Seq<bool>, vars: Seq<usize>) -> Seq<bool> {
    Seq::new(vars.len(), |i: int| bits[vars[i] as int])
}

/// A membership proof held in circuit variables: one byte variable per
/// sibling and one bit variable per direction.
#[derive(Clone, Debug, PartialEq, Eq)]
pub struct MerklePathGadget {
    pub siblings: Vec<usize>,
    pub directions: Vec<usize>,
}

impl MerklePathGadget {
    /// The gadget's variables exist in `cs`, one direction per sibling.
    pub open spec fn in_cs(&self, cs: &ConstraintSystem) -> bool {
        &&& self.siblings@.len() == self.directions@.len()
        &&& forall|i: int| 0 <= i < self.siblings@.len() ==> #[trigger] self.siblings@[i] < cs.vals().len()
        &&& forall|i: int| 0 <= i < self.directions@.len() ==> #[trigger] self.directions@[i] < cs.bit_vals().len()
    }

    /// The root that the values in `cs` recompute from the leaf variable.
    pub open spec fn recomputed_root(&self, cs: &ConstraintSystem, params: usize, leaf: usize) -> Seq<u8> {
        path_root(
            cs.vals()[params as int]@,
            cs.vals()[leaf as int]@,
            var_values(cs.vals(), self.siblings@),
            var_bits(cs.bit_vals(), self.directions@),
        )
    }

    /// Allocates the siblings and directions of `path` as witnesses.
    pub fn alloc_path(cs: &mut ConstraintSystem, path: &MerklePath) -> (r: MerklePathGadget)
        requires
            old(cs).wf(),
            path.siblings@.len() == path.directions@.len(),
        ensures
            final(cs).grows_from(old(cs)),
            final(cs).cons() == old(cs).cons(),
            r.in_cs(final(cs)),
            var_values(final(cs).vals(), r.siblings@) == path.sibling_hashes(),
            var_bits(final(cs).bit_vals(), r.directions@) == path.directions@,
    {
        let ghost cs0 = *cs;
        let mut siblings: Vec<usize> = Vec::new();
        let mut directions: Vec<usize> = Vec::new();
        let mut k: usize = 0;
        while k < path.siblings.len()
            invariant
                path.siblings@.len() == path.directions@.len(),
                k <= path.siblings@.len(),
                cs.grows_from(&cs0),
                cs.cons() == cs0.cons(),
                siblings@.len() == k,
                directions@.len() == k,
                forall|i: int| 0 <= i < k ==> #[trigger] siblings@[i] < cs.vals().len(),
                forall|i: int| 0 <= i < k ==> #[trigger] directions@[i] < cs.bit_vals().len(),
                forall|i: int| 0 <= i < k ==> cs.vals()[#[trigger] siblings@[i] as int] == path.siblings@[i],
                forall|i: int| 0 <= i < k ==> cs.bit_vals()[#[trigger] directions@[i] as int] == path.directions@[i],
            decreases path.siblings@.len() - k,
        {
            let s = cs.alloc_bytes(path.siblings[k]);
            let d = cs.alloc_bit(path.directions[k]);
            siblings.push(s);
            directions.push(d);
            k = k + 1;
        }
        let r = MerklePathGadget { siblings, directions };
        assert(var_values(cs.vals(), r.siblings@) =~= path.sibling_hashes());
        assert(var_bits(cs.bit_vals(), r.directions@) =~= path.directions@);
        r
    }

    /// Adds the constraints that fold the leaf up through the siblings, each
    /// level ordering the pair by its direction bit, and that equate the
    /// result with the root variable. The system ends up satisfied exactly
    /// when it was before and the recomputed root equals the root variable.
    pub fn check_membership(&self, cs: &mut ConstraintSystem, params: usize, root: usize, leaf: usize)
        requires
            old(cs).wf(),
            self.in_cs(old(cs)),
            params < old(cs).vals().len(),
            root < old(cs).vals().len(),
            leaf < old(cs).vals().len(),
        ensures
            final(cs).wf(),
            extends(old(cs).vals(), old(cs).bit_vals(), final(cs).vals(), final(cs).bit_vals()),
            final(cs).satisfied() == (old(cs).satisfied() && self.recomputed_root(old(cs), params, leaf)
                == old(cs).vals()[root as int]@),
    {
        let ghost cs0 = *cs;
        let ghost key = cs0.vals()[params as int]@;
        let ghost sibs = var_values(cs0.vals(), self.siblings@);
        let ghost dirs = var_bits(cs0.bit_vals(), self.directions@);
        let p = CrhParameters::from_key(cs.value(params));
        let leaf_val = cs.value(leaf);
        let mut cur_val = p.hash_leaf(&leaf_val);
        let mut cur = cs.alloc_bytes(cur_val);
        cs.enforce(Constraint::HashLeaf { params, input: leaf, out: cur });
        let mut k: usize = 0;
        while k < self.siblings.len()
            invariant
                self.in_cs(&cs0),
                params < cs0.vals().len(),
                root < cs0.vals().len(),
                leaf < cs0.vals().len(),
                p.key@ == key,
                key == cs0.vals()[params as int]@,
                sibs == var_values(cs0.vals(), self.siblings@),
                dirs == var_bits(cs0.bit_vals(), self.directions@),
                cs.wf(),
                extends(cs0.vals(), cs0.bit_vals(), cs.vals(), cs.bit_vals()),
                cs.bit_vals() == cs0.bit_vals(),
                cs.satisfied() == cs0.satisfied(),
                k <= self.siblings@.len(),
                cur < cs.vals().len(),
                cs.vals()[cur as int] == cur_val,
                cur_val@ == path_node(key, cs0.vals()[leaf as int]@, sibs, dirs, k as nat),
            decreases self.siblings@.len() - k,
        {
            let sib = self.siblings[k];
            let dir = self.directions[k];
            let b = cs.bit_value(dir);
            let s = cs.value(sib);
            let (lv, rv) = if b {
                (s, cur_val)
            } else {
                (cur_val, s)
            };
            let left = cs.alloc_bytes(lv);
            let right = cs.alloc_bytes(rv);
            cs.enforce(Constraint::Select { bit: dir, a: cur, b: sib, left, right });
            let out_val = p.hash_inner(&lv, &rv);
            let out = cs.alloc_bytes(out_val);
            cs.enforce(Constraint::HashInner { params, left, right, out });
            cur = out;
            cur_val = out_val;
            k = k + 1;
        }
        cs.enforce(Constraint::Equal { a: cur, b: root });
    }
}

/// Native and in-circuit verification agree: when the gadget's variables
/// hold a proof's siblings and directions and the parameter variable holds
/// the key, the recomputed root equals the root variable exactly when the
/// proof verifies natively for the same leaf and root.
pub proof fn lemma_native_circuit_agree(
    gadget: MerklePathGadget,
    cs: ConstraintSystem,
    path: MerklePath,
    parameters: MerkleParameters,
    params: usize,
    root: usize,
    leaf: usize,
)
    requires
        var_values(cs.vals(), gadget.siblings@) == path.sibling_hashes(),
        var_bits(cs.bit_vals(), gadget.directions@) == path.directions@,
        params < cs.vals().len(),
        cs.vals()[params as int]@ == parameters.key(),
    ensures
        (gadget.recomputed_root(&cs, params, leaf) == cs.vals()[root as int]@) == path.verifies(
            parameters,
            cs.vals()[root as int]@,
            cs.vals()[leaf as int]@,
        ),
{
}

/// The values held by the leaf variables `vars`.
pub open spec fn leaf_values(vals: Seq<[u8; 32]>, vars: Seq<usize>) -> Seq<[u8; 32]> {
    Seq::new(vars.len(), |i: int| vals[vars[i] as int])
}

/// Adds the constraints that hash each leaf variable, fill the remaining
/// slots of a tree of `height` levels with the empty hash, fold the levels
/// pairwise up to the root, and hash the mask variable together with that
/// root. Returns the variable holding the masked root; the system stays
/// satisfied exactly when it was. Fails, adding nothing, when the leaves do
/// not fit.
pub fn compute_root(
    cs: &mut ConstraintSystem,
    params: usize,
    mask: usize,
    leaves: &Vec<usize>,
    height: usize,
) -> (r: Result<usize, MerkleError>)
    requires
        old(cs).wf(),
        params < old(cs).vals().len(),
        mask < old(cs).vals().len(),
        forall|i: int| 0 <= i < leaves@.len() ==> #[trigger] leaves@[i] < old(cs).vals().len(),
    ensures
        (r is Err) == (leaves@.len() > pow2(height as nat)),
        r is Err ==> r == Err::<usize, MerkleError>(MerkleError::TooManyLeaves) && *final(cs) == *old(cs),
        final(cs).grows_from(old(cs)),
        r matches Ok(v) ==> {
            &&& v < final(cs).vals().len()
            &&& final(cs).vals()[v as int]@ == masked_root(
                old(cs).vals()[params as int]@,
                leaf_values(old(cs).vals(), leaves@),
                height as nat,
                old(cs).vals()[mask as int]@,
            )
        },
{
    let n = leaves.len();
    if exceeds_capacity(n, height) {
        return Err(MerkleError::TooManyLeaves);
    }
    let ghost cs0 = *cs;
    let ghost key = cs0.vals()[params as int]@;
    let ghost lv = leaf_values(cs0.vals(), leaves@);
    let p = CrhParameters::from_key(cs.value(params));
    let mut prev: Vec<usize> = Vec::new();
    let mut i: usize = 0;
    while i < n
        invariant
            n == leaves@.len(),
            forall|q: int| 0 <= q < leaves@.len() ==> #[trigger] leaves@[q] < cs0.vals().len(),
            params < cs0.vals().len(),
            p.key@ == key,
            key == cs0.vals()[params as int]@,
            lv == leaf_values(cs0.vals(), leaves@),
            cs.grows_from(&cs0),
            i <= n,
            prev@.len() == i,
            forall|j: int| 0 <= j < i ==> #[trigger] prev@[j] < cs.vals().len(),
            forall|j: int| 0 <= j < i ==> cs.vals()[#[trigger] prev@[j] as int]@ == node_at(key, lv, 0, j as nat),
        decreases n - i,
    {
        let leaf_val = cs.value(leaves[i]);
        let h = p.hash_leaf(&leaf_val);
        let v = cs.alloc_bytes(h);
        cs.enforce(Constraint::HashLeaf { params, input: leaves[i], out: v });
        prev.push(v);
        i = i + 1;
    }
    let e_val = p.hash_empty();
    let mut ev = cs.alloc_bytes(e_val);
    cs.enforce(Constraint::HashEmpty { params, out: ev });
    let mut l: usize = 0;
    while l < height
        invariant
            n == leaves@.len(),
            lv.len() == n,
            params < cs0.vals().len(),
            p.key@ == key,
            key == cs0.vals()[params as int]@,
            cs.grows_from(&cs0),
            l <= height,
            prev@.len() == count_at(n as nat, l as nat),
            forall|j: int| 0 <= j < prev@.len() ==> #[trigger] prev@[j] < cs.vals().len(),
            forall|j: int|
                0 <= j < prev@.len() ==> cs.vals()[#[trigger] prev@[j] as int]@ == node_at(key, lv, l as nat, j as nat),
            ev < cs.vals().len(),
            cs.vals()[ev as int]@ == empty_node(key, l as nat),
        decreases height - l,
    {
        let plen = prev.len();
        let cnt = plen / 2 + plen % 2;
        let mut next: Vec<usize> = Vec::new();
        let mut j: usize = 0;
        while j < cnt
            invariant
                n == leaves@.len(),
                lv.len() == n,
                params < cs0.vals().len(),
                p.key@ == key,
                key == cs0.vals()[params as int]@,
                cs.grows_from(&cs0),
                l < height,
                plen == prev@.len(),
                prev@.len() == count_at(n as nat, l as nat),
                forall|q: int| 0 <= q < prev@.len() ==> #[trigger] prev@[q] < cs.vals().len(),
                forall|q: int|
                    0 <= q < prev@.len() ==> cs.vals()[#[trigger] prev@[q] as int]@ == node_at(
                        key,
                        lv,
                        l as nat,
                        q as nat,
                    ),
                ev < cs.vals().len(),
                cs.vals()[ev as int]@ == empty_node(key, l as nat),
                cnt == (prev@.len() + 1) / 2,
                j <= cnt,
                next@.len() == j,
                forall|q: int| 0 <= q < j ==> #[trigger] next@[q] < cs.vals().len(),
                forall|q: int|
                    0 <= q < j ==> cs.vals()[#[trigger] next@[q] as int]@ == node_at(
                        key,
                        lv,
                        (l + 1) as nat,
                        q as nat,
                    ),
            decreases cnt - j,
        {
            assert(2 * j < prev@.len());
            let left = prev[2 * j];
            let right = if 2 * j + 1 < plen {
                prev[2 * j + 1]
            } else {
                proof {
                    lemma_empty_beyond(key, lv, l as nat, (2 * j + 1) as nat);
                }
                ev
            };
            let lval = cs.value(left);
            let rval = cs.value(right);
            let h = p.hash_inner(&lval, &rval);
            let out = cs.alloc_bytes(h);
            cs.enforce(Constraint::HashInner { params, left, right, out });
            next.push(out);
            j = j + 1;
        }
        let e_cur = cs.value(ev);
        let e_next = p.hash_inner(&e_cur, &e_cur);
        let ev2 = cs.alloc_bytes(e_next);
        cs.enforce(Constraint::HashInner { params, left: ev, right: ev, out: ev2 });
        prev = next;
        ev = ev2;
        l = l + 1;
    }
    let root = if prev.len() == 0 {
        proof {
            lemma_empty_beyond(key, lv, height as nat, 0);
        }
        ev
    } else {
        prev[0]
    };
    let mval = cs.value(mask);
    let rval = cs.value(root);
    let h = p.hash_inner(&mval, &rval);
    let out = cs.alloc_bytes(h);
    cs.enforce(Constraint::HashInner { params, left: mask, right: root, out });
    Ok(out)
}

/// Allocates one byte variable per leaf.
pub fn alloc_leaves(cs: &mut ConstraintSystem, leaves: &[[u8; 32]]) -> (r: Vec<usize>)
    requires
        old(cs).wf(),
    ensures
        final(cs).grows_from(old(cs)),
        final(cs).cons() == old(cs).cons(),
        forall|i: int| 0 <= i < r@.len() ==> #[trigger] r@[i] < final(cs).vals().len(),
        leaf_values(final(cs).vals(), r@) == leaves@,
{
    let ghost cs0 = *cs;
    let mut r: Vec<usize> = Vec::new();
    let mut i: usize = 0;
    while i < leaves.len()
        invariant
            i <= leaves@.len(),
            cs.grows_from(&cs0),
            cs.cons() == cs0.cons(),
            r@.len() == i,
            forall|j: int| 0 <= j < i ==> #[trigger] r@[j] < cs.vals().len(),
            forall|j: int| 0 <= j < i ==> cs.vals()[#[trigger] r@[j] as int] == leaves@[j],
        decreases leaves@.len() - i,
    {
        let v = cs.alloc_bytes(leaves[i]);
        r.push(v);
        i = i + 1;
    }
    assert(leaf_values(cs.vals(), r@) =~= leaves@);
    r
}

/// The masked root agrees natively and in circuit: when the parameter, mask
/// and leaf variables hold a key, a mask and a leaf set, the value that
/// `compute_root` gives its result variable is the masked root that
/// `compute_masked_root` returns for the same key, mask and leaves.
pub proof fn lemma_masked_native_circuit_agree(
    cs: ConstraintSystem,
    parameters: MerkleParameters,
    params: usize,
    mask: usize,
    leaves: Seq<usize>,
    leaf_bytes: Seq<[u8; 32]>,
    mask_bytes: Seq<u8>,
)
    requires
        cs.vals()[params as int]@ == parameters.key(),
        cs.vals()[mask as int]@ == mask_bytes,
        leaf_values(cs.vals(), leaves) == leaf_bytes,
    ensures
        masked_root(
            cs.vals()[params as int]@,
            leaf_values(cs.vals(), leaves),
            parameters.height as nat,
            cs.vals()[mask as int]@,
        ) == masked_root(parameters.key(), leaf_bytes, parameters.height as nat, mask_bytes),
{
}

} // verus!
