//! A fixed-height binary Merkle tree over a keyed collision-resistant hash,
//! with native membership proofs, a small constraint-system model in which
//! the same checks are expressed as constraints, and a masked-root extension.
pub mod crh;
pub mod tree;
pub mod masked;
pub mod circuit;
pub mod gadgets;
