//! Non-INVITE server transaction (RFC 3261 section 17.2.2).
//!
//! ```text
//! Trying --1xx from TU--> Proceeding --1xx from TU--> Proceeding
//! Trying/Proceeding --200-699 from TU--> Completed --Timer J--> Terminated
//! ```
//!
//! Retransmitted requests are answered with the last response sent. Each
//! event yields the next state and the list of actions to perform, in order.
use vstd::prelude::*;

use crate::transaction::event::{NonInviteServerState, TerminationReason, TimerEvent, TransactionId};
use crate::transaction::invite_client::{class_of, ResponseClass};

verus! {

/// What a non-INVITE server transaction asks its owner to do.
#[derive(Debug, Clone, Copy, PartialEq, Eq, Structural)]
pub enum NonInviteServerAction {
    /// Send the response the TU just passed down.
    SendResponse,
    /// Send the last response again.
    ResendLastResponse,
    /// Start Timer J.
    StartTimerJ { delay_ms: u64 },
    /// Cancel every timer of the transaction.
    CancelTimers,
    /// Tell the TU that the transaction ended.
    EmitTerminated { reason: TerminationReason },
}

/// What happens to a non-INVITE server transaction.
#[derive(Debug, Clone, Copy, PartialEq, Eq, Structural)]
pub enum NonInviteServerInput {
    /// The request arrived again.
    Request,
    /// The TU passed down a response of this class.
    Response(ResponseClass),
    TimerJ,
    /// A timer that does not concern non-INVITE server transactions.
    OtherTimer,
    TransportError,
}

/// Timer J: 64*T1 = 32 s over unreliable transports, 0 over reliable ones.
pub open spec fn timer_j_delay(reliable: bool) -> u64 {
    if reliable {
        0
    } else {
        32000
    }
}

/// Model of a non-INVITE server transaction: state, class of the last
/// response sent, and whether the transport is reliable.
pub struct SpecNonInviteServer {
    pub id: Seq<char>,
    pub state: NonInviteServerState,
    pub last_response: Option<ResponseClass>,
    pub reliable: bool,
}

/// Next state, class of the last response sent, and actions, on `input`.
pub open spec fn nis_next(
    state: NonInviteServerState,
    last: Option<ResponseClass>,
    input: NonInviteServerInput,
    reliable: bool,
) -> (NonInviteServerState, Option<ResponseClass>, Seq<NonInviteServerAction>) {
    match input {
        NonInviteServerInput::Request => match state {
            NonInviteServerState::Proceeding => if last == Some(ResponseClass::Provisional) {
                (state, last, seq![NonInviteServerAction::ResendLastResponse])
            } else {
                (state, last, Seq::empty())
            },
            NonInviteServerState::Completed => if last is Some {
                (state, last, seq![NonInviteServerAction::ResendLastResponse])
            } else {
                (state, last, Seq::empty())
            },
            _ => (state, last, Seq::empty()),
        },
        NonInviteServerInput::Response(class) => match state {
            NonInviteServerState::Trying | NonInviteServerState::Proceeding => match class {
                ResponseClass::Provisional => (
                    NonInviteServerState::Proceeding,
                    Some(class),
                    seq![NonInviteServerAction::SendResponse],
                ),
                _ => (
                    NonInviteServerState::Completed,
                    Some(class),
                    seq![
                        NonInviteServerAction::SendResponse,
                        NonInviteServerAction::StartTimerJ { delay_ms: timer_j_delay(reliable) },
                    ],
                ),
            },
            _ => (state, last, Seq::empty()),
        },
        NonInviteServerInput::TimerJ => if state == NonInviteServerState::Completed {
            (
                NonInviteServerState::Terminated,
                last,
                seq![
                    NonInviteServerAction::CancelTimers,
                    NonInviteServerAction::EmitTerminated { reason: TerminationReason::Completed },
                ],
            )
        } else {
            (state, last, Seq::empty())
        },
        NonInviteServerInput::OtherTimer => (state, last, Seq::empty()),
        NonInviteServerInput::TransportError => if state == NonInviteServerState::Terminated {
            (state, last, Seq::empty())
        } else {
            (
                NonInviteServerState::Terminated,
                last,
                seq![
                    NonInviteServerAction::CancelTimers,
                    NonInviteServerAction::EmitTerminated {
                        reason: TerminationReason::TransportError,
                    },
                ],
            )
        },
    }
}

/// The input a timer event is to a non-INVITE server transaction.
pub open spec fn nis_timer_input(e: TimerEvent) -> NonInviteServerInput {
    match e {
        TimerEvent::TimerJ { .. } => NonInviteServerInput::TimerJ,
        _ => NonInviteServerInput::OtherTimer,
    }
}

/// A non-INVITE server transaction.
pub struct NonInviteServerTransaction {
    id: TransactionId,
    state: NonInviteServerState,
    last_response: Option<ResponseClass>,
    reliable: bool,
}

impl View for NonInviteServerTransaction {
    type V = SpecNonInviteServer;

    closed spec fn view(&self) -> SpecNonInviteServer {
        SpecNonInviteServer {
            id: self.id.0@,
            state: self.state,
            last_response: self.last_response,
            reliable: self.reliable,
        }
    }
}

fn action_list(a: &[NonInviteServerAction]) -> (v: Vec<NonInviteServerAction>)
    ensures
        v@ == a@,
{
    let mut v: Vec<NonInviteServerAction> = Vec::new();
    let mut i: usize = 0;
    while i < a.len()
        invariant
            i <= a@.len(),
            v@ == a@.take(i as int),
        decreases a@.len() - i,
    {
        v.push(a[i]);
        assert(a@.take(i + 1) == a@.take(i as int).push(a@[i as int]));
        i += 1;
    }
    assert(a@.take(a@.len() as int) == a@);
    v
}

impl NonInviteServerTransaction {
    /// A transaction whose request has just arrived: state Trying, no
    /// response sent yet.
    pub fn new(id: TransactionId, reliable: bool) -> (t: NonInviteServerTransaction)
        ensures
            t@.id == id.0@,
            t@.state == NonInviteServerState::Trying,
            t@.last_response is None,
            t@.reliable == reliable,
    {
        NonInviteServerTransaction {
            id,
            state: NonInviteServerState::Trying,
            last_response: None,
            reliable,
        }
    }

    pub fn id(&self) -> (id: &TransactionId)
        ensures
            id.0@ == self@.id,
    {
        &self.id
    }

    pub fn state(&self) -> (s: NonInviteServerState)
        ensures
            s == self@.state,
    {
        self.state
    }

    /// Applies an input: moves to the next state and returns the actions.
    pub fn handle(&mut self, input: NonInviteServerInput) -> (actions: Vec<NonInviteServerAction>)
        ensures
            final(self)@.id == old(self)@.id,
            final(self)@.reliable == old(self)@.reliable,
            (final(self)@.state, final(self)@.last_response, actions@) == nis_next(
                old(self)@.state,
                old(self)@.last_response,
                input,
                old(self)@.reliable,
            ),
    {
        let d: u64 = if self.reliable {
            0
        } else {
            32000
        };
        match input {
            NonInviteServerInput::Request => match self.state {
                NonInviteServerState::Proceeding => {
                    if self.last_response == Some(ResponseClass::Provisional) {
                        action_list(&[NonInviteServerAction::ResendLastResponse])
                    } else {
                        Vec::new()
                    }
                },
                NonInviteServerState::Completed => {
                    if self.last_response.is_some() {
                        action_list(&[NonInviteServerAction::ResendLastResponse])
                    } else {
                        Vec::new()
                    }
                },
                _ => Vec::new(),
            },
            NonInviteServerInput::Response(class) => match self.state {
                NonInviteServerState::Trying | NonInviteServerState::Proceeding => match class {
                    ResponseClass::Provisional => {
                        self.state = NonInviteServerState::Proceeding;
                        self.last_response = Some(class);
                        action_list(&[NonInviteServerAction::SendResponse])
                    },
                    _ => {
                        self.state = NonInviteServerState::Completed;
                        self.last_response = Some(class);
                        action_list(
                            &[
                                NonInviteServerAction::SendResponse,
                                NonInviteServerAction::StartTimerJ { delay_ms: d },
                            ],
                        )
                    },
                },
                _ => Vec::new(),
            },
            NonInviteServerInput::TimerJ => {
                if self.state == NonInviteServerState::Completed {
                    self.state = NonInviteServerState::Terminated;
                    action_list(
                        &[
                            NonInviteServerAction::CancelTimers,
                            NonInviteServerAction::EmitTerminated {
                                reason: TerminationReason::Completed,
                            },
                        ],
                    )
                } else {
                    Vec::new()
                }
            },
            NonInviteServerInput::OtherTimer => Vec::new(),
            NonInviteServerInput::TransportError => {
                if self.state == NonInviteServerState::Terminated {
                    Vec::new()
                } else {
                    self.state = NonInviteServerState::Terminated;
                    action_list(
                        &[
                            NonInviteServerAction::CancelTimers,
                            NonInviteServerAction::EmitTerminated {
                                reason: TerminationReason::TransportError,
                            },
                        ],
                    )
                }
            },
        }
    }

    /// The request arrived again.
    pub fn handle_request(&mut self) -> (actions: Vec<NonInviteServerAction>)
        ensures
            final(self)@.id == old(self)@.id,
            final(self)@.reliable == old(self)@.reliable,
            (final(self)@.state, final(self)@.last_response, actions@) == nis_next(
                old(self)@.state,
                old(self)@.last_response,
                NonInviteServerInput::Request,
                old(self)@.reliable,
            ),
    {
        self.handle(NonInviteServerInput::Request)
    }

    /// The TU passed down a response of status `status_code`.
    pub fn handle_response_from_tu(&mut self, status_code: u16) -> (actions: Vec<
        NonInviteServerAction,
    >)
        ensures
            final(self)@.id == old(self)@.id,
            final(self)@.reliable == old(self)@.reliable,
            (final(self)@.state, final(self)@.last_response, actions@) == nis_next(
                old(self)@.state,
                old(self)@.last_response,
                NonInviteServerInput::Response(class_of(status_code)),
                old(self)@.reliable,
            ),
    {
        let class = ResponseClass::of_status(status_code);
        self.handle(NonInviteServerInput::Response(class))
    }

    /// A timer of this transaction fired.
    pub fn handle_timer(&mut self, event: &TimerEvent) -> (actions: Vec<NonInviteServerAction>)
        ensures
            final(self)@.id == old(self)@.id,
            final(self)@.reliable == old(self)@.reliable,
            (final(self)@.state, final(self)@.last_response, actions@) == nis_next(
                old(self)@.state,
                old(self)@.last_response,
                nis_timer_input(*event),
                old(self)@.reliable,
            ),
    {
        let input = match event {
            TimerEvent::TimerJ { .. } => NonInviteServerInput::TimerJ,
            _ => NonInviteServerInput::OtherTimer,
        };
        self.handle(input)
    }

    /// The transport reported an error.
    pub fn handle_transport_error(&mut self) -> (actions: Vec<NonInviteServerAction>)
        ensures
            final(self)@.id == old(self)@.id,
            final(self)@.reliable == old(self)@.reliable,
            (final(self)@.state, final(self)@.last_response, actions@) == nis_next(
                old(self)@.state,
                old(self)@.last_response,
                NonInviteServerInput::TransportError,
                old(self)@.reliable,
            ),
    {
        self.handle(NonInviteServerInput::TransportError)
    }
}

// ---------------------------------------------------------------------------
// Laws
// ---------------------------------------------------------------------------

/// Position of a state in the order Trying, Proceeding, Completed, Terminated.
pub open spec fn nis_rank(s: NonInviteServerState) -> nat {
    match s {
        NonInviteServerState::Trying => 0,
        NonInviteServerState::Proceeding => 1,
        NonInviteServerState::Completed => 2,
        NonInviteServerState::Terminated => 3,
    }
}

/// Whether the transaction is consistent: in Proceeding the last response
/// sent was provisional, in Completed it was final, in Trying none was sent.
pub open spec fn nis_consistent(state: NonInviteServerState, last: Option<ResponseClass>) -> bool {
    match state {
        NonInviteServerState::Trying => last is None,
        NonInviteServerState::Proceeding => last == Some(ResponseClass::Provisional),
        NonInviteServerState::Completed => last is Some && last != Some(ResponseClass::Provisional),
        NonInviteServerState::Terminated => true,
    }
}

/// State and last response after the inputs `inputs`, in order.
pub open spec fn nis_run(
    state: NonInviteServerState,
    last: Option<ResponseClass>,
    inputs: Seq<NonInviteServerInput>,
    reliable: bool,
) -> (NonInviteServerState, Option<ResponseClass>)
    decreases inputs.len(),
{
    if inputs.len() == 0 {
        (state, last)
    } else {
        let p = nis_run(state, last, inputs.drop_last(), reliable);
        let n = nis_next(p.0, p.1, inputs.last(), reliable);
        (n.0, n.1)
    }
}

/// A non-INVITE server transaction never moves back, and every input keeps
/// it consistent: a retransmitted request in Proceeding or Completed is
/// always answered with the last response.
pub proof fn law_nis_step(
    state: NonInviteServerState,
    last: Option<ResponseClass>,
    input: NonInviteServerInput,
    reliable: bool,
)
    requires
        nis_consistent(state, last),
    ensures
        nis_rank(nis_next(state, last, input, reliable).0) >= nis_rank(state),
        nis_consistent(nis_next(state, last, input, reliable).0, nis_next(state, last, input, reliable).1),
        input == NonInviteServerInput::Request && (state == NonInviteServerState::Proceeding
            || state == NonInviteServerState::Completed) ==> nis_next(state, last, input, reliable).2
            == seq![NonInviteServerAction::ResendLastResponse],
{
}

/// From a fresh transaction, every sequence of inputs leaves it consistent;
/// once terminated it stays terminated and asks for nothing.
pub proof fn law_nis_run(inputs: Seq<NonInviteServerInput>, reliable: bool)
    ensures
        nis_consistent(
            nis_run(NonInviteServerState::Trying, None, inputs, reliable).0,
            nis_run(NonInviteServerState::Trying, None, inputs, reliable).1,
        ),
        forall|last: Option<ResponseClass>, i: NonInviteServerInput|
            #![trigger nis_next(NonInviteServerState::Terminated, last, i, reliable)]
            nis_next(NonInviteServerState::Terminated, last, i, reliable) == (
                NonInviteServerState::Terminated,
                last,
                Seq::<NonInviteServerAction>::empty(),
            ),
    decreases inputs.len(),
{
    if inputs.len() > 0 {
        law_nis_run(inputs.drop_last(), reliable);
        let p = nis_run(NonInviteServerState::Trying, None, inputs.drop_last(), reliable);
        law_nis_step(p.0, p.1, inputs.last(), reliable);
    }
}

/// Whenever a non-INVITE server transaction ends, it first cancels its
/// timers and then tells the TU that it ended.
pub proof fn law_nis_end_announced(
    state: NonInviteServerState,
    last: Option<ResponseClass>,
    input: NonInviteServerInput,
    reliable: bool,
)
    requires
        state != NonInviteServerState::Terminated,
        nis_next(state, last, input, reliable).0 == NonInviteServerState::Terminated,
    ensures
        ({
            let acts = nis_next(state, last, input, reliable).2;
            &&& acts.len() == 2
            &&& acts[0] == NonInviteServerAction::CancelTimers
            &&& acts[1] matches NonInviteServerAction::EmitTerminated { .. }
        }),
{
}

/// A non-INVITE server transaction never becomes Completed without Timer J
/// pending: every input that moves it into Completed sends the final
/// response and starts Timer J (32 s over unreliable transports, 0 over
/// reliable ones); only a final response from the TU in Trying or
/// Proceeding does so.
pub proof fn law_nis_completed_starts_timer_j(
    state: NonInviteServerState,
    last: Option<ResponseClass>,
    input: NonInviteServerInput,
    reliable: bool,
)
    requires
        state != NonInviteServerState::Completed,
        nis_next(state, last, input, reliable).0 == NonInviteServerState::Completed,
    ensures
        (state == NonInviteServerState::Trying || state == NonInviteServerState::Proceeding),
        input matches NonInviteServerInput::Response(c) && c != ResponseClass::Provisional,
        nis_next(state, last, input, reliable).2.contains(NonInviteServerAction::SendResponse),
        nis_next(state, last, input, reliable).2.contains(
            NonInviteServerAction::StartTimerJ { delay_ms: timer_j_delay(reliable) },
        ),
{
    let acts = nis_next(state, last, input, reliable).2;
    assert(acts[0] == NonInviteServerAction::SendResponse);
    assert(acts[1] == NonInviteServerAction::StartTimerJ { delay_ms: timer_j_delay(reliable) });
}

/// Whether the `k`-th input of `inputs`, fed to a fresh transaction after
/// the ones before it, starts Timer J.
pub open spec fn starts_timer_j_at(inputs: Seq<NonInviteServerInput>, k: int, reliable: bool) -> bool {
    let p = nis_run(NonInviteServerState::Trying, None, inputs.take(k), reliable);
    nis_next(p.0, p.1, inputs[k], reliable).2.contains(
        NonInviteServerAction::StartTimerJ { delay_ms: timer_j_delay(reliable) },
    )
}

/// Over a whole run from a fresh transaction, the transaction is Completed
/// only after an input that started Timer J.
pub proof fn law_nis_timer_j_pending(inputs: Seq<NonInviteServerInput>, reliable: bool)
    requires
        nis_run(NonInviteServerState::Trying, None, inputs, reliable).0
            == NonInviteServerState::Completed,
    ensures
        exists|k: int| 0 <= k < inputs.len() && #[trigger] starts_timer_j_at(inputs, k, reliable),
    decreases inputs.len(),
{
    let n = inputs.len();
    assert(n > 0);
    let init = inputs.drop_last();
    assert(inputs.take(n - 1) =~= init);
    let p = nis_run(NonInviteServerState::Trying, None, init, reliable);
    if p.0 == NonInviteServerState::Completed {
        law_nis_timer_j_pending(init, reliable);
        let k = choose|k: int| 0 <= k < init.len() && #[trigger] starts_timer_j_at(init, k, reliable);
        assert(inputs.take(k) =~= init.take(k));
        assert(inputs[k] == init[k]);
        assert(starts_timer_j_at(inputs, k, reliable));
    } else {
        law_nis_completed_starts_timer_j(p.0, p.1, inputs.last(), reliable);
        assert(inputs[n - 1] == inputs.last());
        assert(starts_timer_j_at(inputs, n - 1, reliable));
    }
}

} // verus!
