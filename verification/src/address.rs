//! Identifiers for the statements of the formal database.

use vstd::prelude::*;

verus! {

/// Names one axiom, theorem, or hypothesis of the database: the segment the
/// statement lives in, and its position within that segment.  The node table
/// treats it as an opaque, equatable token; producing meaningful addresses is
/// the naming layer's business.
#[derive(Clone, Copy, Debug, PartialEq, Eq, Structural, Hash)]
pub struct StatementAddress {
    /// The segment of the database holding the statement.
    pub segment_id: u32,
    /// The statement's position within its segment.
    pub index: u32,
}

} // verus!
