//! Errors surfaced by the engine.
//!
//! Two classes: `OutOfBounds` is the one recoverable numeric error (a dot
//! product asked to read past the end of its matrix); the others report
//! contract violations by the caller — a vector of the wrong width, a
//! `backward` without a preceding `forward`, or misaligned parameter and
//! gradient views.

use vstd::prelude::*;

verus! {

/// Why an engine operation refused to run.
#[derive(Clone, Copy, Debug, PartialEq, Eq, Structural)]
pub enum NnError {
    /// The dot product would read past the end of the flat matrix.
    OutOfBounds,
    /// A vector had width `actual` where the layer or pipeline declared `expected`.
    DimensionMismatch { expected: usize, actual: usize },
    /// `backward` was invoked with no cached forward state to consume.
    BackwardBeforeForward,
    /// The parameter and gradient views handed to an optimizer differ in length.
    LengthMismatch { params: usize, grads: usize },
}

impl NnError {
    /// A short diagnostic name for the invariant that failed.
    pub fn describe(&self) -> &'static str {
        match self {
            NnError::OutOfBounds => "index out of bounds of the matrix",
            NnError::DimensionMismatch { .. } => "dimension mismatch",
            NnError::BackwardBeforeForward => "backward called before forward",
            NnError::LengthMismatch { .. } => "parameter/gradient length mismatch",
        }
    }
}

} // verus!
