use vstd::prelude::*;

verus! {

/// Why a model or a solver could not be built.
#[derive(Debug, Clone, Copy, PartialEq, Eq, Structural)]
pub enum MdpError {
    /// An array does not have the dimensions of the declared states, actions or observations.
    MalformedModel,
    /// The discount factor does not lie strictly between zero and one.
    InvalidDiscount,
    /// The convergence tolerance is not positive, or finer than the fixed-point resolution
    /// can reach at this discount factor.
    InvalidTolerance,
}

} // verus!
