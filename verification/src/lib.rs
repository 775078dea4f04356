//! Proof-term representation and deduplication for Metamath-style RPN proofs.
//!
//! A proof is replayed as a sequence of steps, each applying a statement to
//! previously derived sub-results.  Structurally identical steps are collapsed
//! to one shared node (hash-consing): every step becomes an immutable
//! [`tree::ProofTree`] carrying a structural digest, and a
//! [`table::ProofTreeArray`] records the distinct nodes in first-seen order
//! together with a rendered form of each step's resulting symbol string.

pub mod address;
pub mod laws;
pub mod render;
pub mod table;
pub mod tree;

pub use crate::address::StatementAddress;
pub use crate::render::render;
pub use crate::table::ProofBuilder;
pub use crate::table::ProofTreeArray;
pub use crate::tree::ProofTree;
