//! The ways a call into the engine can fail.

use vstd::prelude::*;

verus! {

/// Why a call was rejected.
#[derive(Clone, Copy, Debug, PartialEq, Eq, Structural)]
pub enum MatchError {
    /// Two buffers that must agree in size do not, or a template does not
    /// fit inside the frame it is matched against.
    DimensionMismatch,
    /// A rectangle or a buffer reaches past what can be addressed.
    OutOfBounds,
    /// The requested method has no kernel on the compute device.
    UnsupportedMethod,
    /// A classification was asked for over an empty set of candidates.
    NoCandidates,
}

} // verus!
