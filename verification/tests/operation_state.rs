use programmer_core::{ErrorCode, OperationStage, OperationStateMachine};

#[test]
fn accepts_happy_path() {
    let mut state = OperationStateMachine::new();
    for next in [
        OperationStage::Validating,
        OperationStage::Detecting,
        OperationStage::Connecting,
        OperationStage::Writing,
        OperationStage::Verifying,
        OperationStage::Resetting,
        OperationStage::Monitoring,
        OperationStage::Passed,
        OperationStage::Disconnected,
        OperationStage::Idle,
    ] {
        state.transition(next).unwrap();
    }
}

#[test]
fn rejects_skipping_verification() {
    let mut state = OperationStateMachine::new();
    state.transition(OperationStage::Validating).unwrap();
    let error = state.transition(OperationStage::Writing).unwrap_err();
    assert_eq!(error.code, ErrorCode::InvalidState);
}

#[test]
fn active_operation_can_fail() {
    let mut state = OperationStateMachine::new();
    state.transition(OperationStage::Validating).unwrap();
    state.fail().unwrap();
    assert_eq!(state.stage(), OperationStage::Failed);
}

#[test]
fn refused_transition_keeps_the_stage_and_names_it() {
    let mut state = OperationStateMachine::new();
    let error = state.transition(OperationStage::Writing).unwrap_err();
    assert_eq!(error.detail.as_deref(), Some("Idle -> Writing"));
    assert_eq!(state.stage(), OperationStage::Idle);
}

#[test]
fn idle_operation_cannot_fail() {
    let mut state = OperationStateMachine::new();
    assert_eq!(state.fail().unwrap_err().code, ErrorCode::InvalidState);
    assert_eq!(state.stage(), OperationStage::Idle);
}

#[test]
fn failed_operation_returns_to_idle() {
    let mut state = OperationStateMachine::new();
    state.transition(OperationStage::Validating).unwrap();
    state.transition(OperationStage::Detecting).unwrap();
    state.fail().unwrap();
    state.transition(OperationStage::Disconnected).unwrap();
    state.transition(OperationStage::Idle).unwrap();
    assert_eq!(state.stage(), OperationStage::Idle);
}

#[test]
fn erase_is_optional_between_connecting_and_writing() {
    let mut state = OperationStateMachine::new();
    for next in [
        OperationStage::Validating,
        OperationStage::Detecting,
        OperationStage::Connecting,
        OperationStage::Erasing,
        OperationStage::Writing,
    ] {
        state.transition(next).unwrap();
    }
    assert!(state.transition(OperationStage::Resetting).is_err());
    assert!(OperationStage::Writing.is_active());
    assert!(!OperationStage::Passed.is_active());
}
