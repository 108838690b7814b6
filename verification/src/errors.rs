use vstd::prelude::*;

verus! {

/// Failure cases of the commitment engine. Every fallible operation reports
/// one of these; none of the conditions is coerced to a default value.
#[derive(Debug, Clone, PartialEq, Eq)]
pub enum KzgError {
    /// A malformed or wrong-length payload, or a conversion that cannot fit.
    SerializationError(String),
    /// A requested evaluation domain that the scheme cannot build.
    FftError(String),
    /// A failure of the multi-scalar multiplication underlying a commitment.
    CommitError(String),
    /// A precondition of the prover that the caller has not met.
    GenericError(String),
}

} // verus!
