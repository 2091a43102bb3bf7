//! The closed set of failure kinds reported by the generators.

use vstd::prelude::*;

verus! {

/// Every fallible operation of this library reports its failure as one of
/// these kinds, never as a panic.
#[derive(Clone, Copy, Debug, PartialEq, Eq, Structural)]
pub enum ZkError {
    /// A parameter set violates an arithmetic invariant: an empty modulus
    /// chain, a non-prime or repeated modulus, or a modulus that does not
    /// exceed the plaintext modulus.
    InvalidParameters,
    /// A supplied public key is malformed or has the wrong shape for the
    /// configured modulus chain.
    InvalidPublicKey,
    /// A vote value outside {0, 1}.
    InvalidVote,
    /// An internal randomness or arithmetic failure.
    SamplingError,
}

impl ZkError {
    /// A short human-readable name for the error, for a binding layer to
    /// present to its caller.
    pub fn message(&self) -> (r: &'static str)
        ensures
            *self is InvalidParameters ==> r@ == "invalid parameters"@,
            *self is InvalidPublicKey ==> r@ == "invalid public key"@,
            *self is InvalidVote ==> r@ == "invalid vote"@,
            *self is SamplingError ==> r@ == "sampling error"@,
    {
        match self {
            ZkError::InvalidParameters => "invalid parameters",
            ZkError::InvalidPublicKey => "invalid public key",
            ZkError::InvalidVote => "invalid vote",
            ZkError::SamplingError => "sampling error",
        }
    }
}

} // verus!
