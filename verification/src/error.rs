//! The ways in which building or proving the statement can fail.

use vstd::prelude::*;

verus! {

/// A failure of the pipeline. A proof that does not verify is no failure: it is
/// an ordinary outcome of verification.
#[derive(Clone, Copy, Debug, PartialEq, Eq, Structural)]
pub enum PipelineError {
    /// The constraint system rejected a variable or a constraint during
    /// synthesis: a constraint named a variable that the ledger never
    /// allocated.
    AllocationFailure,
    /// The witness violates a constraint, so no proof can be made from it.
    UnsatisfiableWitness,
    /// The parameters could not be generated.
    SetupFailure,
}

} // verus!
