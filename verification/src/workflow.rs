//! The proof workflow's state machine.
//!
//! The outside proving system performs the heavy operations — parameter
//! generation, key generation, proving, verification — and reports each
//! completion as an event; this module decides which transitions are legal.
//! Keys are generated once from a placeholder instance and reused; a failed
//! verification is a terminal outcome, not an error.

use vstd::prelude::*;

verus! {

/// Where the workflow stands.
#[derive(Clone, Copy, PartialEq, Eq, Structural, Debug)]
pub enum WorkflowState {
    /// Nothing has been generated yet.
    Uninitialized,
    /// The one-time hash parameters exist.
    ParametersGenerated,
    /// The proving and verifying keys exist; they fix the circuit shape.
    KeysGenerated,
    /// A proof for one instance has been produced.
    ProofGenerated,
    /// The proof was checked and accepted.
    Verified,
    /// The proof was checked and rejected.
    Rejected,
}

/// The completion of one outside operation.
#[derive(Clone, Copy, PartialEq, Eq, Structural, Debug)]
pub enum WorkflowEvent {
    /// The trusted set-up sampled the hash parameters.
    GenerateParameters,
    /// The proving system produced the key pair from a placeholder circuit.
    GenerateKeys,
    /// The proving system produced a proof from a real instance.
    Prove,
    /// The proof was verified, with the given outcome.
    Verify { accepted: bool },
}

/// The legal transitions, and nothing else: parameters are generated once
/// from the initial state, keys once from the parameters, a proof from the
/// keys, and verification ends in acceptance or rejection.
pub open spec fn step_spec(s: WorkflowState, e: WorkflowEvent) -> Option<WorkflowState> {
    match (s, e) {
        (WorkflowState::Uninitialized, WorkflowEvent::GenerateParameters) => Some(
            WorkflowState::ParametersGenerated,
        ),
        (WorkflowState::ParametersGenerated, WorkflowEvent::GenerateKeys) => Some(
            WorkflowState::KeysGenerated,
        ),
        (WorkflowState::KeysGenerated, WorkflowEvent::Prove) => Some(
            WorkflowState::ProofGenerated,
        ),
        (WorkflowState::ProofGenerated, WorkflowEvent::Verify { accepted }) => Some(
            if accepted {
                WorkflowState::Verified
            } else {
                WorkflowState::Rejected
            },
        ),
        _ => None,
    }
}

/// Apply one event to the workflow; an event that is illegal in the current
/// state is refused and the state is unchanged.
pub fn step(s: WorkflowState, e: WorkflowEvent) -> (r: Option<WorkflowState>)
    ensures
        r == step_spec(s, e),
{
    match (s, e) {
        (WorkflowState::Uninitialized, WorkflowEvent::GenerateParameters) => Some(
            WorkflowState::ParametersGenerated,
        ),
        (WorkflowState::ParametersGenerated, WorkflowEvent::GenerateKeys) => Some(
            WorkflowState::KeysGenerated,
        ),
        (WorkflowState::KeysGenerated, WorkflowEvent::Prove) => Some(
            WorkflowState::ProofGenerated,
        ),
        (WorkflowState::ProofGenerated, WorkflowEvent::Verify { accepted }) => Some(
            if accepted {
                WorkflowState::Verified
            } else {
                WorkflowState::Rejected
            },
        ),
        _ => None,
    }
}

} // verus!
