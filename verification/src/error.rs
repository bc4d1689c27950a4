//! The failures that the index reports.

use vstd::prelude::*;

verus! {

/// Why an operation of the index failed.
#[derive(Debug, Clone, Copy, PartialEq, Eq, Structural)]
pub enum VectorError {
    /// The id lies before the first holder of the run that was searched.
    IdTooSmall { idx: usize, first_vector_id: usize },
    /// The id lies behind the range of the holder that starts at or before it.
    IdOutOfRange { idx: usize, holder_idx: usize },
    /// The id lies behind every tier of the store.
    IdOutOfBounds { idx: usize, next_vector_id: usize },
    /// Stored data contradicts itself.
    Corruption,
    /// The caller broke the protocol of the writer.
    ContractViolation,
}

} // verus!
