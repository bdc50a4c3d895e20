use vstd::prelude::*;

verus! {

/// Why a compounding cycle stopped before it re-bonded its reward.
#[derive(Debug, Clone, Copy, PartialEq, Eq, Structural)]
pub enum CycleError {
    /// The chain could not be reached, or answered with something malformed.
    Transport,
    /// An on-chain amount or decimal could not be read as a number.
    Conversion,
    /// The compounding optimizer did not converge.
    OptimizationFailure,
    /// The balance after claiming was lower than the balance before it.
    Integrity,
    /// There was nothing to average or to sum: no validator, or no sample.
    EmptyInput,
}

/// Failures while building and signing a transaction.
#[derive(Debug, Clone, PartialEq, Eq)]
pub enum TaskError {
    Timeout,
    Build(String),
    ShieldedSync(String),
}

} // verus!
