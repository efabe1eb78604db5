//! A constraint system over 32-byte variables and bit variables. Gadgets
//! allocate witnesses and add constraints; whether every constraint holds is
//! checked only when the caller asks.
use crate::crh::{crh_of, empty_hash, inner_hash, CrhParameters};
use crate::tree::bytes_eq;
use vstd::prelude::*;

verus! {

/// One constraint between variables, named by their index.
#[derive(Clone, Copy, Debug, PartialEq, Eq)]
pub enum Constraint {
    /// `out` is the hash of `input` under the key held by `params`.
    HashLeaf { params: usize, input: usize, out: usize },
    /// `out` is the hash of the canonical empty value under the key held by `params`.
    HashEmpty { params: usize, out: usize },
    /// `out` is the inner-node hash of `left` and `right` under the key held by `params`.
    HashInner { params: usize, left: usize, right: usize, out: usize },
    /// `(left, right)` is `(a, b)` when the bit is clear and `(b, a)` when it is set.
    Select { bit: usize, a: usize, b: usize, left: usize, right: usize },
    /// `a` and `b` hold the same value.
    Equal { a: usize, b: usize },
}

/// Every variable that `c` names exists among `nv` byte variables and `nb` bit variables.
pub open spec fn in_range(c: Constraint, nv: nat, nb: nat) -> bool {
    match c {
        Constraint::HashLeaf { params, input, out } => params < nv && input < nv && out < nv,
        Constraint::HashEmpty { params, out } => params < nv && out < nv,
        Constraint::HashInner { params, left, right, out } => params < nv && left < nv && right < nv
            && out < nv,
        Constraint::Select { bit, a, b, left, right } => bit < nb && a < nv && b < nv && left < nv
            && right < nv,
        Constraint::Equal { a, b } => a < nv && b < nv,
    }
}

/// Whether `c` holds of the given assignment.
pub open spec fn holds(c: Constraint, vals: Seq<[u8; 32]>, bits: Seq<bool>) -> bool {
    match c {
        Constraint::HashLeaf { params, input, out } => vals[out as int]@ == crh_of(
            vals[params as int]@,
            vals[input as int]@,
        ),
        Constraint::HashEmpty { params, out } => vals[out as int]@ == empty_hash(vals[params as int]@),
        Constraint::HashInner { params, left, right, out } => vals[out as int]@ == inner_hash(
            vals[params as int]@,
            vals[left as int]@,
            vals[right as int]@,
        ),
        Constraint::Select { bit, a, b, left, right } => if bits[bit as int] {
            vals[left as int]@ == vals[b as int]@ && vals[right as int]@ == vals[a as int]@
        } else {
            vals[left as int]@ == vals[a as int]@ && vals[right as int]@ == vals[b as int]@
        },
        Constraint::Equal { a, b } => vals[a as int]@ == vals[b as int]@,
    }
}

/// `vals2` and `bits2` keep `vals` and `bits` as their prefixes.
pub open spec fn extends(vals: Seq<[u8; 32]>, bits: Seq<bool>, vals2: Seq<[u8; 32]>, bits2: Seq<bool>) -> bool {
    &&& vals.len() <= vals2.len()
    &&& bits.len() <= bits2.len()
    &&& forall|i: int| 0 <= i < vals.len() ==> vals2[i] == vals[i]
    &&& forall|i: int| 0 <= i < bits.len() ==> bits2[i] == bits[i]
}

/// A constraint is decided by the variables it names alone.
pub proof fn lemma_holds_extend(
    c: Constraint,
    vals: Seq<[u8; 32]>,
    bits: Seq<bool>,
    vals2: Seq<[u8; 32]>,
    bits2: Seq<bool>,
)
    requires
        in_range(c, vals.len(), bits.len()),
        extends(vals, bits, vals2, bits2),
    ensures
        holds(c, vals, bits) == holds(c, vals2, bits2),
{
}

/// Adding variables keeps every constraint in range and decided as before.
proof fn lemma_grow(a: &ConstraintSystem, b: &ConstraintSystem)
    requires
        a.wf(),
        b.cons() == a.cons(),
        extends(a.vals(), a.bit_vals(), b.vals(), b.bit_vals()),
    ensures
        b.grows_from(a),
{
    assert forall|i: int| 0 <= i < b.cons().len() implies in_range(
        #[trigger] b.cons()[i],
        b.vals().len(),
        b.bit_vals().len(),
    ) && holds(b.cons()[i], b.vals(), b.bit_vals()) == holds(a.cons()[i], a.vals(), a.bit_vals()) by {
        assert(in_range(a.cons()[i], a.vals().len(), a.bit_vals().len()));
        lemma_holds_extend(a.cons()[i], a.vals(), a.bit_vals(), b.vals(), b.bit_vals());
    }
    if b.satisfied() {
        assert forall|i: int| 0 <= i < a.cons().len() implies holds(#[trigger] a.cons()[i], a.vals(), a.bit_vals()) by {
            assert(holds(b.cons()[i], b.vals(), b.bit_vals()));
        }
    }
    if a.satisfied() {
        assert forall|i: int| 0 <= i < b.cons().len() implies holds(#[trigger] b.cons()[i], b.vals(), b.bit_vals()) by {
            assert(holds(a.cons()[i], a.vals(), a.bit_vals()));
        }
    }
}

/// A constraint system: byte variables, bit variables and the constraints among them.
#[derive(Clone, Debug)]
pub struct ConstraintSystem {
    values: Vec<[u8; 32]>,
    bits: Vec<bool>,
    constraints: Vec<Constraint>,
}

impl ConstraintSystem {
    pub closed spec fn vals(&self) -> Seq<[u8; 32]> {
        self.values@
    }

    pub closed spec fn bit_vals(&self) -> Seq<bool> {
        self.bits@
    }

    pub closed spec fn cons(&self) -> Seq<Constraint> {
        self.constraints@
    }

    /// Every constraint names existing variables.
    pub open spec fn wf(&self) -> bool {
        forall|i: int|
            0 <= i < self.cons().len() ==> in_range(
                #[trigger] self.cons()[i],
                self.vals().len(),
                self.bit_vals().len(),
            )
    }

    /// Every constraint holds.
    pub open spec fn satisfied(&self) -> bool {
        forall|i: int| 0 <= i < self.cons().len() ==> holds(#[trigger] self.cons()[i], self.vals(), self.bit_vals())
    }

    /// `self` is `other` with variables and constraints added, all of them holding.
    pub open spec fn grows_from(&self, other: &ConstraintSystem) -> bool {
        &&& extends(other.vals(), other.bit_vals(), self.vals(), self.bit_vals())
        &&& self.wf()
        &&& self.satisfied() == other.satisfied()
    }

    /// An empty constraint system.
    pub fn new() -> (r: ConstraintSystem)
        ensures
            r.wf(),
            r.satisfied(),
            r.vals().len() == 0,
            r.bit_vals().len() == 0,
            r.cons().len() == 0,
    {
        ConstraintSystem { values: Vec::new(), bits: Vec::new(), constraints: Vec::new() }
    }

    /// The number of constraints added so far.
    pub fn num_constraints(&self) -> (r: usize)
        ensures
            r == self.cons().len(),
    {
        self.constraints.len()
    }

    /// The number of byte variables allocated so far.
    pub fn num_variables(&self) -> (r: usize)
        ensures
            r == self.vals().len(),
    {
        self.values.len()
    }

    /// The number of bit variables allocated so far.
    pub fn num_bits(&self) -> (r: usize)
        ensures
            r == self.bit_vals().len(),
    {
        self.bits.len()
    }

    /// The value of a byte variable.
    pub fn value(&self, var: usize) -> (r: [u8; 32])
        requires
            var < self.vals().len(),
        ensures
            r == self.vals()[var as int],
    {
        self.values[var]
    }

    /// The value of a bit variable.
    pub fn bit_value(&self, var: usize) -> (r: bool)
        requires
            var < self.bit_vals().len(),
        ensures
            r == self.bit_vals()[var as int],
    {
        self.bits[var]
    }

    /// Allocates a byte variable holding `value`.
    pub fn alloc_bytes(&mut self, value: [u8; 32]) -> (r: usize)
        requires
            old(self).wf(),
        ensures
            r == old(self).vals().len(),
            final(self).vals() == old(self).vals().push(value),
            final(self).bit_vals() == old(self).bit_vals(),
            final(self).cons() == old(self).cons(),
            final(self).grows_from(old(self)),
    {
        let r = self.values.len();
        self.values.push(value);
        proof {
            lemma_grow(old(self), self);
        }
        r
    }

    /// Allocates a bit variable holding `value`.
    pub fn alloc_bit(&mut self, value: bool) -> (r: usize)
        requires
            old(self).wf(),
        ensures
            r == old(self).bit_vals().len(),
            final(self).bit_vals() == old(self).bit_vals().push(value),
            final(self).vals() == old(self).vals(),
            final(self).cons() == old(self).cons(),
            final(self).grows_from(old(self)),
    {
        let r = self.bits.len();
        self.bits.push(value);
        proof {
            lemma_grow(old(self), self);
        }
        r
    }

    /// Allocates a byte variable holding the key of `parameters`.
    pub fn alloc_parameters(&mut self, parameters: &CrhParameters) -> (r: usize)
        requires
            old(self).wf(),
        ensures
            r == old(self).vals().len(),
            final(self).vals() == old(self).vals().push(parameters.key),
            final(self).bit_vals() == old(self).bit_vals(),
            final(self).cons() == old(self).cons(),
            final(self).grows_from(old(self)),
    {
        self.alloc_bytes(parameters.key)
    }

    /// Adds a constraint.
    pub fn enforce(&mut self, c: Constraint)
        requires
            old(self).wf(),
            in_range(c, old(self).vals().len(), old(self).bit_vals().len()),
        ensures
            final(self).wf(),
            final(self).vals() == old(self).vals(),
            final(self).bit_vals() == old(self).bit_vals(),
            final(self).cons() == old(self).cons().push(c),
            final(self).satisfied() == (old(self).satisfied() && holds(c, old(self).vals(), old(self).bit_vals())),
    {
        self.constraints.push(c);
        proof {
            let n = old(self).cons().len() as int;
            assert(self.cons()[n] == c);
            if self.satisfied() {
                assert forall|i: int| 0 <= i < old(self).cons().len() implies holds(
                    #[trigger] old(self).cons()[i],
                    old(self).vals(),
                    old(self).bit_vals(),
                ) by {
                    assert(self.cons()[i] == old(self).cons()[i]);
                }
            }
            if old(self).satisfied() && holds(c, old(self).vals(), old(self).bit_vals()) {
                assert forall|i: int| 0 <= i < self.cons().len() implies holds(
                    #[trigger] self.cons()[i],
                    self.vals(),
                    self.bit_vals(),
                ) by {
                    if i < n {
                        assert(self.cons()[i] == old(self).cons()[i]);
                    }
                }
            }
        }
    }

    /// Whether one constraint holds of the current assignment.
    fn check(&self, c: Constraint) -> (r: bool)
        requires
            in_range(c, self.vals().len(), self.bit_vals().len()),
        ensures
            r == holds(c, self.vals(), self.bit_vals()),
    {
        match c {
            Constraint::HashLeaf { params, input, out } => {
                let p = CrhParameters::from_key(self.values[params]);
                let h = p.evaluate(self.values[input].as_slice());
                bytes_eq(&h, &self.values[out])
            },
            Constraint::HashEmpty { params, out } => {
                let p = CrhParameters::from_key(self.values[params]);
                let h = p.hash_empty();
                bytes_eq(&h, &self.values[out])
            },
            Constraint::HashInner { params, left, right, out } => {
                let p = CrhParameters::from_key(self.values[params]);
                let h = p.hash_inner(&self.values[left], &self.values[right]);
                bytes_eq(&h, &self.values[out])
            },
            Constraint::Select { bit, a, b, left, right } => {
                let (x, y) = if self.bits[bit] {
                    (b, a)
                } else {
                    (a, b)
                };
                let l = bytes_eq(&self.values[left], &self.values[x]);
                let r = bytes_eq(&self.values[right], &self.values[y]);
                l && r
            },
            Constraint::Equal { a, b } => {
                bytes_eq(&self.values[a], &self.values[b])
            },
        }
    }

    /// Whether every constraint holds.
    pub fn is_satisfied(&self) -> (r: bool)
        requires
            self.wf(),
        ensures
            r == self.satisfied(),
    {
        let mut i: usize = 0;
        while i < self.constraints.len()
            invariant
                self.wf(),
                i <= self.cons().len(),
                forall|j: int| 0 <= j < i ==> holds(#[trigger] self.cons()[j], self.vals(), self.bit_vals()),
            decreases self.cons().len() - i,
        {
            let c = self.constraints[i];
            assert(in_range(self.cons()[i as int], self.vals().len(), self.bit_vals().len()));
            if !self.check(c) {
                return false;
            }
            i = i + 1;
        }
        true
    }
}

} // verus!
