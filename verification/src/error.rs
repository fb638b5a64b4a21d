//! Error kinds reported by the index and its backends.

use vstd::prelude::*;

verus! {

/// Everything that can go wrong in the store, a backend, or persistence.
#[derive(Clone, Copy, Debug, PartialEq, Eq, Structural)]
pub enum Error {
    /// An input vector's length differs from the configured dimensionality.
    DimensionMismatch,
    /// The operation needs a backend that can enumerate full vectors.
    NotBuildable,
    /// The index was asked to be built twice.
    AlreadyBuilt,
    /// Insertion after build on a backend without online index support.
    NotBuilt,
    /// A similarity was requested for an id with no stored vector.
    MissingVector,
    /// No counting-bitmap layer reached the requested `search_k`.
    BudgetUnmet,
    /// A backend persistence operation failed.
    IoFailure,
    /// Stored metadata or a stored bitmap could not be decoded.
    SerializationFailure,
    /// The on-disk quantization label differs from the requested one.
    QuantizationMismatch,
}

} // verus!
