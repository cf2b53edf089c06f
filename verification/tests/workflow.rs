use committed_records::workflow::{step, WorkflowEvent, WorkflowState};

#[test]
fn happy_path_to_verified() {
    let s = WorkflowState::Uninitialized;
    let s = step(s, WorkflowEvent::GenerateParameters).unwrap();
    assert_eq!(s, WorkflowState::ParametersGenerated);
    let s = step(s, WorkflowEvent::GenerateKeys).unwrap();
    assert_eq!(s, WorkflowState::KeysGenerated);
    let s = step(s, WorkflowEvent::Prove).unwrap();
    assert_eq!(s, WorkflowState::ProofGenerated);
    let s = step(s, WorkflowEvent::Verify { accepted: true }).unwrap();
    assert_eq!(s, WorkflowState::Verified);
}

#[test]
fn rejection_is_terminal_outcome() {
    let s = step(WorkflowState::ProofGenerated, WorkflowEvent::Verify { accepted: false }).unwrap();
    assert_eq!(s, WorkflowState::Rejected);
    assert_eq!(step(s, WorkflowEvent::Prove), None);
    assert_eq!(step(s, WorkflowEvent::Verify { accepted: true }), None);
}

#[test]
fn out_of_order_events_are_refused() {
    assert_eq!(step(WorkflowState::Uninitialized, WorkflowEvent::Prove), None);
    assert_eq!(step(WorkflowState::Uninitialized, WorkflowEvent::GenerateKeys), None);
    assert_eq!(
        step(WorkflowState::ParametersGenerated, WorkflowEvent::GenerateParameters),
        None
    );
    assert_eq!(step(WorkflowState::KeysGenerated, WorkflowEvent::GenerateKeys), None);
    assert_eq!(
        step(WorkflowState::KeysGenerated, WorkflowEvent::Verify { accepted: true }),
        None
    );
}
