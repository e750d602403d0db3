//! INVITE client transaction (RFC 3261 section 17.1.1).
//!
//! ```text
//! Calling --1xx--> Proceeding --1xx--> Proceeding
//! Calling/Proceeding --2xx--> Terminated
//! Calling/Proceeding --3xx-6xx / ACK--> Completed --Timer D--> Terminated
//! Calling/Proceeding --Timer B--> Terminated
//! ```
//!
//! The transaction decides; its owner carries the decisions out. Each
//! event yields the next state and the list of actions to perform, in order.
use vstd::prelude::*;

use crate::transaction::event::{InviteClientState, TerminationReason, TimerEvent, TransactionId};

verus! {

/// Class of a response's status code.
#[derive(Debug, Clone, Copy, PartialEq, Eq, Structural)]
pub enum ResponseClass {
    /// 1xx.
    Provisional,
    /// 2xx.
    Success,
    /// 3xx to 6xx.
    Failure,
}

/// The class of status code `code`: 100..=199 provisional, 200..=299
/// success, any other final.
pub open spec fn class_of(code: u16) -> ResponseClass {
    if 100 <= code <= 199 {
        ResponseClass::Provisional
    } else if 200 <= code <= 299 {
        ResponseClass::Success
    } else {
        ResponseClass::Failure
    }
}

impl ResponseClass {
    /// Class of a status code.
    pub fn of_status(code: u16) -> (c: ResponseClass)
        ensures
            c == class_of(code),
    {
        if 100 <= code && code <= 199 {
            ResponseClass::Provisional
        } else if 200 <= code && code <= 299 {
            ResponseClass::Success
        } else {
            ResponseClass::Failure
        }
    }
}

/// What an INVITE client transaction asks its owner to do.
#[derive(Debug, Clone, Copy, PartialEq, Eq, Structural)]
pub enum InviteClientAction {
    /// Cancel every timer of the transaction.
    CancelTimers,
    /// Send the original INVITE again.
    RetransmitRequest,
    /// Build the ACK for the final response just received and send it.
    SendAck,
    /// Start Timer D.
    StartTimerD { delay_ms: u64 },
    /// Hand the provisional response just received to the TU.
    EmitProvisional,
    /// Hand the final response just received to the TU.
    EmitFinal,
    /// Tell the TU that the transaction timed out.
    EmitTimeout,
    /// Tell the TU that the transaction ended.
    EmitTerminated { reason: TerminationReason },
}

/// What happens to an INVITE client transaction.
#[derive(Debug, Clone, Copy, PartialEq, Eq, Structural)]
pub enum InviteClientInput {
    Response(ResponseClass),
    TimerA,
    TimerB,
    TimerD,
    /// A timer that does not concern INVITE client transactions.
    OtherTimer,
    TransportError,
}

/// Timer D: 32 s over unreliable transports, 0 over reliable ones.
pub open spec fn timer_d_delay(reliable: bool) -> u64 {
    if reliable {
        0
    } else {
        32000
    }
}

/// Next state and actions of an INVITE client transaction in `state` on `input`.
pub open spec fn invite_client_next(
    state: InviteClientState,
    input: InviteClientInput,
    reliable: bool,
) -> (InviteClientState, Seq<InviteClientAction>) {
    match input {
        InviteClientInput::Response(class) => match state {
            InviteClientState::Calling | InviteClientState::Proceeding => match class {
                ResponseClass::Provisional => if state == InviteClientState::Calling {
                    (
                        InviteClientState::Proceeding,
                        seq![InviteClientAction::CancelTimers, InviteClientAction::EmitProvisional],
                    )
                } else {
                    (InviteClientState::Proceeding, seq![InviteClientAction::EmitProvisional])
                },
                ResponseClass::Success => (
                    InviteClientState::Terminated,
                    seq![
                        InviteClientAction::CancelTimers,
                        InviteClientAction::EmitFinal,
                        InviteClientAction::EmitTerminated {
                            reason: TerminationReason::Completed,
                        },
                    ],
                ),
                ResponseClass::Failure => (
                    InviteClientState::Completed,
                    seq![
                        InviteClientAction::CancelTimers,
                        InviteClientAction::SendAck,
                        InviteClientAction::StartTimerD { delay_ms: timer_d_delay(reliable) },
                        InviteClientAction::EmitFinal,
                    ],
                ),
            },
            InviteClientState::Completed => match class {
                ResponseClass::Failure => (
                    InviteClientState::Completed,
                    seq![InviteClientAction::SendAck],
                ),
                _ => (InviteClientState::Completed, Seq::empty()),
            },
            InviteClientState::Terminated => (InviteClientState::Terminated, Seq::empty()),
        },
        InviteClientInput::TimerA => if state == InviteClientState::Calling && !reliable {
            (state, seq![InviteClientAction::RetransmitRequest])
        } else {
            (state, Seq::empty())
        },
        InviteClientInput::TimerB => if state == InviteClientState::Calling || state
            == InviteClientState::Proceeding {
            (
                InviteClientState::Terminated,
                seq![
                    InviteClientAction::CancelTimers,
                    InviteClientAction::EmitTimeout,
                    InviteClientAction::EmitTerminated { reason: TerminationReason::Timeout },
                ],
            )
        } else {
            (state, Seq::empty())
        },
        InviteClientInput::TimerD => if state == InviteClientState::Completed {
            (
                InviteClientState::Terminated,
                seq![
                    InviteClientAction::CancelTimers,
                    InviteClientAction::EmitTerminated { reason: TerminationReason::Completed },
                ],
            )
        } else {
            (state, Seq::empty())
        },
        InviteClientInput::OtherTimer => (state, Seq::empty()),
        InviteClientInput::TransportError => if state == InviteClientState::Terminated {
            (state, Seq::empty())
        } else {
            (
                InviteClientState::Terminated,
                seq![
                    InviteClientAction::CancelTimers,
                    InviteClientAction::EmitTerminated {
                        reason: TerminationReason::TransportError,
                    },
                ],
            )
        },
    }
}

/// The input a timer event is to an INVITE client transaction.
pub open spec fn invite_client_timer_input(e: TimerEvent) -> InviteClientInput {
    match e {
        TimerEvent::TimerA { .. } => InviteClientInput::TimerA,
        TimerEvent::TimerB { .. } => InviteClientInput::TimerB,
        TimerEvent::TimerD { .. } => InviteClientInput::TimerD,
        _ => InviteClientInput::OtherTimer,
    }
}

/// An INVITE client transaction: its identifier, its state and whether its
/// transport is reliable (no retransmissions, Timer D of 0 s).
pub struct InviteClientTransaction {
    id: TransactionId,
    state: InviteClientState,
    reliable: bool,
}

/// Model of an INVITE client transaction.
pub struct SpecInviteClient {
    pub id: Seq<char>,
    pub state: InviteClientState,
    pub reliable: bool,
}

impl View for InviteClientTransaction {
    type V = SpecInviteClient;

    closed spec fn view(&self) -> SpecInviteClient {
        SpecInviteClient { id: self.id.0@, state: self.state, reliable: self.reliable }
    }
}

fn action_list(a: &[InviteClientAction]) -> (v: Vec<InviteClientAction>)
    ensures
        v@ == a@,
{
    let mut v: Vec<InviteClientAction> = Vec::new();
    let mut i: usize = 0;
    while i < a.len()
        invariant
            i <= a@.len(),
            v@ == a@.take(i as int),
        decreases a@.len() - i,
    {
        v.push(a[i]);
        assert(a@.take(i + 1) == a@.take(i as int).push(a@[i as int]));
        i += 1;
    }
    assert(a@.take(a@.len() as int) == a@);
    v
}

impl InviteClientTransaction {
    /// A transaction that has just sent its INVITE: state Calling.
    pub fn new(id: TransactionId, reliable: bool) -> (t: InviteClientTransaction)
        ensures
            t@.id == id.0@,
            t@.state == InviteClientState::Calling,
            t@.reliable == reliable,
    {
        InviteClientTransaction { id, state: InviteClientState::Calling, reliable }
    }

    pub fn id(&self) -> (id: &TransactionId)
        ensures
            id.0@ == self@.id,
    {
        &self.id
    }

    pub fn state(&self) -> (s: InviteClientState)
        ensures
            s == self@.state,
    {
        self.state
    }

    /// Whether the transport is reliable.
    pub fn is_reliable(&self) -> (r: bool)
        ensures
            r == self@.reliable,
    {
        self.reliable
    }

    /// Applies an input: moves to the next state and returns the actions.
    pub fn handle(&mut self, input: InviteClientInput) -> (actions: Vec<InviteClientAction>)
        ensures
            final(self)@.id == old(self)@.id,
            final(self)@.reliable == old(self)@.reliable,
            final(self)@.state == invite_client_next(old(self)@.state, input, old(self)@.reliable).0,
            actions@ == invite_client_next(old(self)@.state, input, old(self)@.reliable).1,
    {
        let d: u64 = if self.reliable {
            0
        } else {
            32000
        };
        match input {
            InviteClientInput::Response(class) => match self.state {
                InviteClientState::Calling | InviteClientState::Proceeding => match class {
                    ResponseClass::Provisional => {
                        if self.state == InviteClientState::Calling {
                            self.state = InviteClientState::Proceeding;
                            action_list(
                                &[InviteClientAction::CancelTimers, InviteClientAction::EmitProvisional],
                            )
                        } else {
                            self.state = InviteClientState::Proceeding;
                            action_list(&[InviteClientAction::EmitProvisional])
                        }
                    },
                    ResponseClass::Success => {
                        self.state = InviteClientState::Terminated;
                        action_list(
                            &[
                                InviteClientAction::CancelTimers,
                                InviteClientAction::EmitFinal,
                                InviteClientAction::EmitTerminated {
                                    reason: TerminationReason::Completed,
                                },
                            ],
                        )
                    },
                    ResponseClass::Failure => {
                        self.state = InviteClientState::Completed;
                        action_list(
                            &[
                                InviteClientAction::CancelTimers,
                                InviteClientAction::SendAck,
                                InviteClientAction::StartTimerD { delay_ms: d },
                                InviteClientAction::EmitFinal,
                            ],
                        )
                    },
                },
                InviteClientState::Completed => match class {
                    ResponseClass::Failure => action_list(&[InviteClientAction::SendAck]),
                    _ => Vec::new(),
                },
                InviteClientState::Terminated => Vec::new(),
            },
            InviteClientInput::TimerA => {
                if self.state == InviteClientState::Calling && !self.reliable {
                    action_list(&[InviteClientAction::RetransmitRequest])
                } else {
                    Vec::new()
                }
            },
            InviteClientInput::TimerB => {
                if self.state == InviteClientState::Calling || self.state
                    == InviteClientState::Proceeding {
                    self.state = InviteClientState::Terminated;
                    action_list(
                        &[
                            InviteClientAction::CancelTimers,
                            InviteClientAction::EmitTimeout,
                            InviteClientAction::EmitTerminated {
                                reason: TerminationReason::Timeout,
                            },
                        ],
                    )
                } else {
                    Vec::new()
                }
            },
            InviteClientInput::TimerD => {
                if self.state == InviteClientState::Completed {
                    self.state = InviteClientState::Terminated;
                    action_list(
                        &[
                            InviteClientAction::CancelTimers,
                            InviteClientAction::EmitTerminated {
                                reason: TerminationReason::Completed,
                            },
                        ],
                    )
                } else {
                    Vec::new()
                }
            },
            InviteClientInput::OtherTimer => Vec::new(),
            InviteClientInput::TransportError => {
                if self.state == InviteClientState::Terminated {
                    Vec::new()
                } else {
                    self.state = InviteClientState::Terminated;
                    action_list(
                        &[
                            InviteClientAction::CancelTimers,
                            InviteClientAction::EmitTerminated {
                                reason: TerminationReason::TransportError,
                            },
                        ],
                    )
                }
            },
        }
    }

    /// A response of status `status_code` arrived.
    pub fn handle_response(&mut self, status_code: u16) -> (actions: Vec<InviteClientAction>)
        ensures
            final(self)@.id == old(self)@.id,
            final(self)@.reliable == old(self)@.reliable,
            (final(self)@.state, actions@) == invite_client_next(
                old(self)@.state,
                InviteClientInput::Response(class_of(status_code)),
                old(self)@.reliable,
            ),
    {
        let class = ResponseClass::of_status(status_code);
        self.handle(InviteClientInput::Response(class))
    }

    /// A timer of this transaction fired.
    pub fn handle_timer(&mut self, event: &TimerEvent) -> (actions: Vec<InviteClientAction>)
        ensures
            final(self)@.id == old(self)@.id,
            final(self)@.reliable == old(self)@.reliable,
            (final(self)@.state, actions@) == invite_client_next(
                old(self)@.state,
                invite_client_timer_input(*event),
                old(self)@.reliable,
            ),
    {
        let input = match event {
            TimerEvent::TimerA { .. } => InviteClientInput::TimerA,
            TimerEvent::TimerB { .. } => InviteClientInput::TimerB,
            TimerEvent::TimerD { .. } => InviteClientInput::TimerD,
            _ => InviteClientInput::OtherTimer,
        };
        self.handle(input)
    }

    /// The transport reported an error.
    pub fn handle_transport_error(&mut self) -> (actions: Vec<InviteClientAction>)
        ensures
            final(self)@.id == old(self)@.id,
            final(self)@.reliable == old(self)@.reliable,
            (final(self)@.state, actions@) == invite_client_next(
                old(self)@.state,
                InviteClientInput::TransportError,
                old(self)@.reliable,
            ),
    {
        self.handle(InviteClientInput::TransportError)
    }
}

// ---------------------------------------------------------------------------
// Laws
// ---------------------------------------------------------------------------

/// Position of a state in the order Calling, Proceeding, Completed, Terminated.
pub open spec fn invite_client_rank(s: InviteClientState) -> nat {
    match s {
        InviteClientState::Calling => 0,
        InviteClientState::Proceeding => 1,
        InviteClientState::Completed => 2,
        InviteClientState::Terminated => 3,
    }
}

/// State after the inputs `inputs`, in order.
pub open spec fn invite_client_run(
    state: InviteClientState,
    inputs: Seq<InviteClientInput>,
    reliable: bool,
) -> InviteClientState
    decreases inputs.len(),
{
    if inputs.len() == 0 {
        state
    } else {
        invite_client_next(
            invite_client_run(state, inputs.drop_last(), reliable),
            inputs.last(),
            reliable,
        ).0
    }
}

/// An INVITE client transaction never moves back: each input leaves it in
/// the same state or one further along Calling, Proceeding, Completed,
/// Terminated.
pub proof fn law_invite_client_forward(
    state: InviteClientState,
    input: InviteClientInput,
    reliable: bool,
)
    ensures
        invite_client_rank(invite_client_next(state, input, reliable).0) >= invite_client_rank(
            state,
        ),
{
}

/// A terminated INVITE client transaction stays terminated and asks for
/// nothing, whatever happens to it.
pub proof fn law_invite_client_terminated_final(inputs: Seq<InviteClientInput>, reliable: bool)
    ensures
        invite_client_run(InviteClientState::Terminated, inputs, reliable)
            == InviteClientState::Terminated,
        forall|i: InviteClientInput|
            #![trigger invite_client_next(InviteClientState::Terminated, i, reliable)]
            invite_client_next(InviteClientState::Terminated, i, reliable) == (
                InviteClientState::Terminated,
                Seq::<InviteClientAction>::empty(),
            ),
    decreases inputs.len(),
{
    if inputs.len() > 0 {
        law_invite_client_terminated_final(inputs.drop_last(), reliable);
    }
}

/// Whenever an INVITE client transaction ends, it first cancels its timers
/// and last tells the TU that it ended.
pub proof fn law_invite_client_end_announced(
    state: InviteClientState,
    input: InviteClientInput,
    reliable: bool,
)
    requires
        state != InviteClientState::Terminated,
        invite_client_next(state, input, reliable).0 == InviteClientState::Terminated,
    ensures
        ({
            let acts = invite_client_next(state, input, reliable).1;
            &&& acts.len() >= 2
            &&& acts[0] == InviteClientAction::CancelTimers
            &&& acts.last() matches InviteClientAction::EmitTerminated { .. }
        }),
{
}

/// Every final failure response is acknowledged while the transaction is
/// not terminated, and the INVITE is resent only over unreliable
/// transports; Timer D waits 32 s over those and 0 s otherwise.
pub proof fn law_invite_client_ack_and_retransmit(
    state: InviteClientState,
    input: InviteClientInput,
    reliable: bool,
)
    ensures
        state != InviteClientState::Terminated && input == InviteClientInput::Response(
            ResponseClass::Failure,
        ) ==> invite_client_next(state, input, reliable).1.contains(InviteClientAction::SendAck),
        reliable ==> !invite_client_next(state, input, reliable).1.contains(
            InviteClientAction::RetransmitRequest,
        ),
        forall|d: u64|
            #![trigger invite_client_next(state, input, reliable).1.contains(
                InviteClientAction::StartTimerD { delay_ms: d },
            )]
            invite_client_next(state, input, reliable).1.contains(
                InviteClientAction::StartTimerD { delay_ms: d },
            ) ==> d == timer_d_delay(reliable),
{
    let acts = invite_client_next(state, input, reliable).1;
    if state != InviteClientState::Terminated && input == InviteClientInput::Response(
        ResponseClass::Failure,
    ) {
        if state == InviteClientState::Completed {
            assert(acts[0] == InviteClientAction::SendAck);
        } else {
            assert(acts[1] == InviteClientAction::SendAck);
        }
    }
}

/// The TU learns of every final response exactly once: in Calling or
/// Proceeding, a 2xx or a 3xx-6xx response ends the wait for a final
/// response (the transaction becomes Completed or Terminated) and its
/// actions hand the response to the TU; once Completed or Terminated, no
/// input hands a final response to the TU again.
pub proof fn law_invite_client_final_delivered(
    state: InviteClientState,
    input: InviteClientInput,
    reliable: bool,
)
    ensures
        (state == InviteClientState::Calling || state == InviteClientState::Proceeding) && (input
            == InviteClientInput::Response(ResponseClass::Success) || input
            == InviteClientInput::Response(ResponseClass::Failure)) ==> ({
            let (next, acts) = invite_client_next(state, input, reliable);
            &&& acts.contains(InviteClientAction::EmitFinal)
            &&& (next == InviteClientState::Completed || next == InviteClientState::Terminated)
        }),
        (state == InviteClientState::Completed || state == InviteClientState::Terminated)
            ==> !invite_client_next(state, input, reliable).1.contains(
            InviteClientAction::EmitFinal,
        ),
{
    let acts = invite_client_next(state, input, reliable).1;
    if (state == InviteClientState::Calling || state == InviteClientState::Proceeding) {
        if input == InviteClientInput::Response(ResponseClass::Success) {
            assert(acts[1] == InviteClientAction::EmitFinal);
        } else if input == InviteClientInput::Response(ResponseClass::Failure) {
            assert(acts[3] == InviteClientAction::EmitFinal);
        }
    }
    if state == InviteClientState::Completed || state == InviteClientState::Terminated {
        if acts.contains(InviteClientAction::EmitFinal) {
            let k = choose|k: int| 0 <= k < acts.len() && acts[k] == InviteClientAction::EmitFinal;
            assert(acts[k] != InviteClientAction::EmitFinal);
        }
    }
}

/// A 3xx-6xx response to a pending INVITE is acknowledged and starts
/// Timer D, whatever came before it.
pub proof fn law_invite_client_failure_completes(state: InviteClientState, reliable: bool)
    requires
        state == InviteClientState::Calling || state == InviteClientState::Proceeding,
    ensures
        ({
            let (next, acts) = invite_client_next(
                state,
                InviteClientInput::Response(ResponseClass::Failure),
                reliable,
            );
            &&& next == InviteClientState::Completed
            &&& acts.contains(InviteClientAction::SendAck)
            &&& acts.contains(InviteClientAction::StartTimerD { delay_ms: timer_d_delay(reliable) })
            &&& acts.contains(InviteClientAction::EmitFinal)
        }),
{
    let acts = invite_client_next(state, InviteClientInput::Response(ResponseClass::Failure), reliable).1;
    assert(acts[1] == InviteClientAction::SendAck);
    assert(acts[2] == InviteClientAction::StartTimerD { delay_ms: timer_d_delay(reliable) });
    assert(acts[3] == InviteClientAction::EmitFinal);
}

} // verus!
