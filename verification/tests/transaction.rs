use siprs::transaction::event::{
    BranchId, InviteClientState, InviteServerState, Method, NonInviteClientState,
    NonInviteServerState, TerminationReason, TransactionId, TransactionKey,
};

#[test]
fn test_transaction_id_from_branch_and_method() {
    let branch = BranchId("z9hG4bK-test".to_string());
    let method = Method::Invite;
    let id = TransactionId::from_branch_and_method(&branch, &method);
    assert_eq!(id.0, "z9hG4bK-test:INVITE");
}

#[test]
fn test_transaction_id_display() {
    let id = TransactionId("test-id".to_string());
    assert_eq!(id.to_string(), "test-id");
}

#[test]
fn test_transaction_key_new() {
    let branch = BranchId("z9hG4bK-abc".to_string());
    let key = TransactionKey::new(
        branch.clone(),
        Method::Invite,
        "example.com:5060".to_string(),
    );
    assert_eq!(key.branch_id, branch);
    assert_eq!(key.method, Method::Invite);
    assert_eq!(key.sent_by, "example.com:5060");
}

#[test]
fn test_invite_client_state_display() {
    assert_eq!(InviteClientState::Calling.to_string(), "Calling");
    assert_eq!(InviteClientState::Proceeding.to_string(), "Proceeding");
    assert_eq!(InviteClientState::Completed.to_string(), "Completed");
    assert_eq!(InviteClientState::Terminated.to_string(), "Terminated");
}

#[test]
fn test_non_invite_client_state_display() {
    assert_eq!(NonInviteClientState::Trying.to_string(), "Trying");
    assert_eq!(NonInviteClientState::Proceeding.to_string(), "Proceeding");
    assert_eq!(NonInviteClientState::Completed.to_string(), "Completed");
    assert_eq!(NonInviteClientState::Terminated.to_string(), "Terminated");
}

#[test]
fn test_invite_server_state_display() {
    assert_eq!(InviteServerState::Proceeding.to_string(), "Proceeding");
    assert_eq!(InviteServerState::Confirmed.to_string(), "Confirmed");
    assert_eq!(InviteServerState::Completed.to_string(), "Completed");
    assert_eq!(InviteServerState::Terminated.to_string(), "Terminated");
}

#[test]
fn test_non_invite_server_state_display() {
    assert_eq!(NonInviteServerState::Trying.to_string(), "Trying");
    assert_eq!(NonInviteServerState::Proceeding.to_string(), "Proceeding");
    assert_eq!(NonInviteServerState::Completed.to_string(), "Completed");
    assert_eq!(NonInviteServerState::Terminated.to_string(), "Terminated");
}

#[test]
fn test_termination_reason_display() {
    assert_eq!(TerminationReason::Completed.to_string(), "Completed");
    assert_eq!(TerminationReason::Timeout.to_string(), "Timeout");
    assert_eq!(
        TerminationReason::TransportError.to_string(),
        "TransportError"
    );
    assert_eq!(TerminationReason::UserCancel.to_string(), "UserCancel");
}
