//! What can go wrong when networks are built, fed, combined or loaded.

use vstd::prelude::*;

verus! {

/// The failures of the engine, all recoverable where they are returned.
#[derive(Clone, Copy, Debug, PartialEq, Eq, Structural)]
pub enum NetworkError {
    /// Fewer than two usable layers.
    InvalidTopology,
    /// An input vector of the wrong length, or a record whose shapes disagree.
    DimensionMismatch,
    /// A crossover between networks of different shape or activation.
    IncompatibleTopology,
    /// A model file could not be read or written.
    IoFailure,
}

} // verus!
