//! Error taxonomy of the analysis core: invalid parameters are rejected at
//! the API boundary, and degenerate numeric inputs are reported rather than
//! silently propagated.

use vstd::prelude::*;

verus! {

/// Why an analysis stage refused its input.
#[derive(Clone, Copy, Debug, PartialEq, Eq, Structural)]
pub enum AnalysisError {
    /// A structural parameter (window size, smoothing factor, table shape)
    /// is outside its documented range.
    InvalidParameter,
    /// The input data admits no meaningful answer (for example a constant
    /// novelty sequence, whose standard deviation is zero).
    DegenerateInput,
}

} // verus!
