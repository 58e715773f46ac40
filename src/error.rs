use vstd::prelude::*;
use crate::embedding::EmbeddingError;

verus! {

/// Errors of the store's operations.
#[derive(Clone, Debug, PartialEq, Eq)]
pub enum VectorDBError {
    CollectionExists,
    CollectionNotFound,
    DimensionMismatch,
    VectorIdNotFound,
    EmbeddingError(EmbeddingError),
}

} // verus!
