//! The order of the proof pipeline: set-up, proving, verification.
//!
//! The work itself (generating parameters, creating a proof, checking the
//! pairing equation) is done by a proof system outside this crate. This
//! module decides what is to be done next and what each outcome leads to, and
//! builds the ledgers that the proof system is handed. The public inputs that
//! a proof is verified against are those of `multipack::pack_digest`.

use crate::circuit::{synthesized, MyCircuit};
use crate::error::PipelineError;
use crate::ledger::{ConstraintSystem, Ledger};
use crate::structure::{lemma_circuit_names_distinct, names_distinct};
use vstd::prelude::*;

verus! {

/// Where the pipeline stands.
#[derive(Clone, Copy, Debug, PartialEq, Eq, Structural)]
pub enum Stage {
    /// Nothing has been done.
    Unconfigured,
    /// The parameters are being generated.
    Setup,
    /// The parameters are there; a proof can be made.
    Ready,
    /// A proof is there; it can be verified.
    Proven,
    /// The last verification accepted the proof.
    Verified,
    /// The last verification rejected the proof.
    Rejected,
    /// The parameters could not be generated; nothing more can be done.
    Failed,
}

/// What happened outside.
#[derive(Clone, Copy, Debug, PartialEq, Eq, Structural)]
pub enum Event {
    /// The generation of the parameters was begun.
    SetupStarted,
    /// The parameters were generated.
    ParametersGenerated,
    /// The parameters could not be generated.
    ParametersFailed,
    /// A proof was made.
    ProofCreated,
    /// No proof could be made from the witness.
    ProofFailed,
    /// The verification accepted the proof.
    ProofAccepted,
    /// The verification rejected the proof.
    ProofRejected,
}

/// What is to be done next.
#[derive(Clone, Copy, Debug, PartialEq, Eq, Structural)]
pub enum Action {
    /// Begin the set-up.
    BeginSetup,
    /// Generate the parameters from the circuit without a witness.
    GenerateParameters,
    /// Make a proof from the circuit with a witness.
    CreateProof,
    /// Verify the proof against the public inputs of the expected digest.
    VerifyProof,
    /// Nothing: the pipeline has come to its end.
    Finish,
}

/// The stage that an event leads to, if the event can happen at the stage.
///
/// A failed set-up ends the pipeline. A failed proof ends that attempt only:
/// the parameters stay, and another proof can be made. A proof can be verified
/// any number of times, against the same public inputs or others; each
/// verification decides anew between `Verified` and `Rejected`.
pub open spec fn transition(stage: Stage, event: Event) -> Option<Stage> {
    match (stage, event) {
        (Stage::Unconfigured, Event::SetupStarted) => Some(Stage::Setup),
        (Stage::Setup, Event::ParametersGenerated) => Some(Stage::Ready),
        (Stage::Setup, Event::ParametersFailed) => Some(Stage::Failed),
        (Stage::Ready, Event::ProofCreated) => Some(Stage::Proven),
        (Stage::Ready, Event::ProofFailed) => Some(Stage::Ready),
        (Stage::Proven, Event::ProofAccepted) => Some(Stage::Verified),
        (Stage::Proven, Event::ProofRejected) => Some(Stage::Rejected),
        (Stage::Verified, Event::ProofAccepted) => Some(Stage::Verified),
        (Stage::Verified, Event::ProofRejected) => Some(Stage::Rejected),
        (Stage::Rejected, Event::ProofAccepted) => Some(Stage::Verified),
        (Stage::Rejected, Event::ProofRejected) => Some(Stage::Rejected),
        _ => None,
    }
}

/// What is to be done at a stage.
pub open spec fn expected(stage: Stage) -> Action {
    match stage {
        Stage::Unconfigured => Action::BeginSetup,
        Stage::Setup => Action::GenerateParameters,
        Stage::Ready => Action::CreateProof,
        Stage::Proven => Action::VerifyProof,
        Stage::Verified => Action::Finish,
        Stage::Rejected => Action::Finish,
        Stage::Failed => Action::Finish,
    }
}

/// How far a stage is along the pipeline.
pub open spec fn rank(stage: Stage) -> nat {
    match stage {
        Stage::Unconfigured => 0,
        Stage::Setup => 1,
        Stage::Ready => 2,
        Stage::Proven => 3,
        Stage::Verified => 4,
        Stage::Rejected => 4,
        Stage::Failed => 5,
    }
}

/// What the pipeline has come to: accepted, rejected, or failed. Nothing yet
/// before the first verification, unless the set-up failed.
pub open spec fn outcome_of(stage: Stage) -> Option<Result<bool, PipelineError>> {
    match stage {
        Stage::Verified => Some(Ok(true)),
        Stage::Rejected => Some(Ok(false)),
        Stage::Failed => Some(Err(PipelineError::SetupFailure)),
        _ => None,
    }
}

/// The stage that an event leads to, or `None` if the event cannot happen at
/// the stage.
pub fn step(stage: Stage, event: Event) -> (next: Option<Stage>)
    ensures
        next == transition(stage, event),
{
    match stage {
        Stage::Unconfigured => match event {
            Event::SetupStarted => Some(Stage::Setup),
            _ => None,
        },
        Stage::Setup => match event {
            Event::ParametersGenerated => Some(Stage::Ready),
            Event::ParametersFailed => Some(Stage::Failed),
            _ => None,
        },
        Stage::Ready => match event {
            Event::ProofCreated => Some(Stage::Proven),
            Event::ProofFailed => Some(Stage::Ready),
            _ => None,
        },
        Stage::Proven | Stage::Verified | Stage::Rejected => match event {
            Event::ProofAccepted => Some(Stage::Verified),
            Event::ProofRejected => Some(Stage::Rejected),
            _ => None,
        },
        Stage::Failed => None,
    }
}

/// What is to be done at a stage.
pub fn next_action(stage: Stage) -> (action: Action)
    ensures
        action == expected(stage),
{
    match stage {
        Stage::Unconfigured => Action::BeginSetup,
        Stage::Setup => Action::GenerateParameters,
        Stage::Ready => Action::CreateProof,
        Stage::Proven => Action::VerifyProof,
        Stage::Verified | Stage::Rejected | Stage::Failed => Action::Finish,
    }
}

/// What the pipeline has come to at a stage, if anything.
pub fn outcome(stage: Stage) -> (result: Option<Result<bool, PipelineError>>)
    ensures
        result == outcome_of(stage),
{
    match stage {
        Stage::Verified => Some(Ok(true)),
        Stage::Rejected => Some(Ok(false)),
        Stage::Failed => Some(Err(PipelineError::SetupFailure)),
        _ => None,
    }
}

/// The pipeline never goes back and skips nothing: an event leads to a stage
/// of the same rank or of the next, or to the failure of the set-up. A failed
/// set-up is final. A proof is made only once the parameters are there, and a
/// verification accepts only a proof that was made.
pub proof fn lemma_stages_in_order(stage: Stage, event: Event)
    ensures
        transition(stage, event) matches Some(next) ==> rank(stage) <= rank(next),
        transition(stage, event) matches Some(next) ==> next == Stage::Failed || rank(next)
            <= rank(stage) + 1,
        transition(Stage::Failed, event) is None,
        transition(stage, event) == Some(Stage::Proven) ==> stage == Stage::Ready,
        transition(stage, event) == Some(Stage::Ready) ==> stage == Stage::Setup || stage
            == Stage::Ready,
        transition(stage, event) == Some(Stage::Verified) ==> event == Event::ProofAccepted && rank(
            stage,
        ) >= 3,
{
}

/// The ledger from which the parameters are generated: the circuit without a
/// witness, synthesised into an empty constraint system. No two of its entries
/// share a full name.
pub fn setup_ledger() -> (cs: ConstraintSystem)
    ensures
        cs.wf(),
        cs@ == synthesized(Ledger::empty(), None),
        names_distinct(cs@),
{
    let mut cs = ConstraintSystem::new();
    let circuit = MyCircuit { preimage: None };
    let synthesis = circuit.synthesize(&mut cs);
    proof {
        lemma_circuit_names_distinct(None);
    }
    cs
}

/// The ledger from which a proof is made: the circuit with its witness,
/// synthesised into an empty constraint system. It has the structure of the
/// ledger of the set-up, names included, and holds an assignment that
/// satisfies it. Without a preimage there is no witness to prove from.
pub fn proving_ledger(circuit: MyCircuit) -> (r: Result<ConstraintSystem, PipelineError>)
    ensures
        r is Ok <==> circuit.preimage is Some,
        r matches Ok(cs) ==> cs.wf() && cs@ == synthesized(Ledger::empty(), circuit.witness())
            && cs@.satisfied() && cs@.structure() == synthesized(Ledger::empty(), None).structure()
            && names_distinct(cs@),
        r matches Err(e) ==> e == PipelineError::UnsatisfiableWitness,
{
    if circuit.preimage.is_none() {
        return Err(PipelineError::UnsatisfiableWitness);
    }
    let mut cs = ConstraintSystem::new();
    assert(cs@.satisfied());
    let synthesis = circuit.synthesize(&mut cs);
    proof {
        crate::structure::lemma_structure_ignores_witness(Ledger::empty(), circuit.witness(), None);
        lemma_circuit_names_distinct(circuit.witness());
    }
    Ok(cs)
}

} // verus!
