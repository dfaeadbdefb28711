//! The error kinds of the fitting pipeline.

use vstd::prelude::*;

verus! {

/// Why a fit could not be produced.
///
/// Every fitting error is a deterministic property of the input: retrying
/// with the same input cannot succeed.
#[derive(Clone, Copy, Debug, PartialEq, Eq, Structural)]
pub enum FitError {
    /// The requested polynomial degree is below one.
    InvalidDegree,
    /// The dataset is empty, has mismatched column lengths, or holds fewer
    /// points than the degree requires.
    InsufficientData,
    /// The design matrix is not full rank, so no unique optimum exists.
    SingularSystem,
    /// The x values all coincide, so the closed-form slope is undefined.
    DegenerateInput,
    /// An exact intermediate value left the machine range of the
    /// rational type.
    NumericOverflow,
}

} // verus!
