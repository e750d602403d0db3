use siprs::transaction::event::{
    InviteClientState, NonInviteServerState, TerminationReason, TimerEvent, TransactionId,
};
use siprs::transaction::invite_client::{InviteClientAction, InviteClientTransaction};
use siprs::transaction::non_invite_server::{NonInviteServerAction, NonInviteServerTransaction};

fn tid() -> TransactionId {
    TransactionId("z9hG4bK776asdhds:INVITE".to_string())
}

#[test]
fn test_invite_client_provisional_then_success_over_udp() {
    let mut t = InviteClientTransaction::new(tid(), false);
    assert_eq!(t.state(), InviteClientState::Calling);
    assert_eq!(
        t.handle_timer(&TimerEvent::TimerA { transaction_id: tid() }),
        vec![InviteClientAction::RetransmitRequest]
    );
    assert_eq!(
        t.handle_response(180),
        vec![InviteClientAction::CancelTimers, InviteClientAction::EmitProvisional]
    );
    assert_eq!(t.state(), InviteClientState::Proceeding);
    assert_eq!(t.handle_response(183), vec![InviteClientAction::EmitProvisional]);
    assert_eq!(
        t.handle_response(200),
        vec![
            InviteClientAction::CancelTimers,
            InviteClientAction::EmitFinal,
            InviteClientAction::EmitTerminated { reason: TerminationReason::Completed },
        ]
    );
    assert_eq!(t.state(), InviteClientState::Terminated);
    // Terminated is final: nothing more happens.
    assert!(t.handle_response(486).is_empty());
    assert!(t.handle_transport_error().is_empty());
    assert_eq!(t.state(), InviteClientState::Terminated);
}

#[test]
fn test_invite_client_failure_acks_and_waits_timer_d() {
    let mut t = InviteClientTransaction::new(tid(), false);
    assert_eq!(
        t.handle_response(486),
        vec![
            InviteClientAction::CancelTimers,
            InviteClientAction::SendAck,
            InviteClientAction::StartTimerD { delay_ms: 32000 },
            InviteClientAction::EmitFinal,
        ]
    );
    assert_eq!(t.state(), InviteClientState::Completed);
    // A retransmitted failure is acknowledged again.
    assert_eq!(t.handle_response(486), vec![InviteClientAction::SendAck]);
    assert_eq!(
        t.handle_timer(&TimerEvent::TimerD { transaction_id: tid() }),
        vec![
            InviteClientAction::CancelTimers,
            InviteClientAction::EmitTerminated { reason: TerminationReason::Completed },
        ]
    );
    assert_eq!(t.state(), InviteClientState::Terminated);
}

#[test]
fn test_invite_client_reliable_no_retransmit_timer_d_zero() {
    let mut t = InviteClientTransaction::new(tid(), true);
    assert!(t.is_reliable());
    assert!(t.handle_timer(&TimerEvent::TimerA { transaction_id: tid() }).is_empty());
    let acts = t.handle_response(503);
    assert!(acts.contains(&InviteClientAction::StartTimerD { delay_ms: 0 }));
}

#[test]
fn test_invite_client_timeout_and_transport_error() {
    let mut t = InviteClientTransaction::new(tid(), false);
    assert_eq!(
        t.handle_timer(&TimerEvent::TimerB { transaction_id: tid() }),
        vec![
            InviteClientAction::CancelTimers,
            InviteClientAction::EmitTimeout,
            InviteClientAction::EmitTerminated { reason: TerminationReason::Timeout },
        ]
    );
    let mut u = InviteClientTransaction::new(tid(), false);
    assert_eq!(
        u.handle_transport_error(),
        vec![
            InviteClientAction::CancelTimers,
            InviteClientAction::EmitTerminated { reason: TerminationReason::TransportError },
        ]
    );
    // A timer of another kind changes nothing.
    let mut v = InviteClientTransaction::new(tid(), false);
    assert!(v.handle_timer(&TimerEvent::TimerJ { transaction_id: tid() }).is_empty());
    assert_eq!(v.state(), InviteClientState::Calling);
}

#[test]
fn test_non_invite_server_flow() {
    let mut t = NonInviteServerTransaction::new(tid(), false);
    assert_eq!(t.state(), NonInviteServerState::Trying);
    // A retransmitted request before any response is absorbed.
    assert!(t.handle_request().is_empty());
    assert_eq!(t.handle_response_from_tu(100), vec![NonInviteServerAction::SendResponse]);
    assert_eq!(t.state(), NonInviteServerState::Proceeding);
    assert_eq!(t.handle_request(), vec![NonInviteServerAction::ResendLastResponse]);
    assert_eq!(
        t.handle_response_from_tu(200),
        vec![
            NonInviteServerAction::SendResponse,
            NonInviteServerAction::StartTimerJ { delay_ms: 32000 },
        ]
    );
    assert_eq!(t.state(), NonInviteServerState::Completed);
    assert_eq!(t.handle_request(), vec![NonInviteServerAction::ResendLastResponse]);
    // Further responses from the TU are dropped.
    assert!(t.handle_response_from_tu(500).is_empty());
    assert_eq!(
        t.handle_timer(&TimerEvent::TimerJ { transaction_id: tid() }),
        vec![
            NonInviteServerAction::CancelTimers,
            NonInviteServerAction::EmitTerminated { reason: TerminationReason::Completed },
        ]
    );
    assert_eq!(t.state(), NonInviteServerState::Terminated);
}

#[test]
fn test_non_invite_server_reliable_timer_j_zero() {
    let mut t = NonInviteServerTransaction::new(tid(), true);
    assert_eq!(
        t.handle_response_from_tu(404),
        vec![
            NonInviteServerAction::SendResponse,
            NonInviteServerAction::StartTimerJ { delay_ms: 0 },
        ]
    );
}

#[test]
fn test_transaction_id_new_random_is_uuid() {
    let a = TransactionId::new_random();
    let b = TransactionId::new_random();
    assert_eq!(a.0.len(), 36);
    assert_eq!(a.0.chars().nth(8), Some('-'));
    assert_eq!(a.0.chars().nth(14), Some('4'));
    assert_ne!(a, b);
}
