//! Transaction identifiers, transaction states (RFC 3261 section 17),
//! termination reasons and the timers A to K.
use vstd::prelude::*;

use crate::text::{copy_str, copy_string, push_str};

verus! {

// ---------------------------------------------------------------------------
// Methods and branches
// ---------------------------------------------------------------------------

/// SIP request method.
#[derive(Debug, Clone, PartialEq, Eq, Hash, Structural)]
pub enum Method {
    Invite,
    Ack,
    Bye,
    Cancel,
    Register,
    Options,
    Info,
    Update,
    Prack,
    Subscribe,
    Notify,
    Refer,
    Message,
    Publish,
}

pub open spec fn method_name(m: Method) -> Seq<char> {
    match m {
        Method::Invite => "INVITE"@,
        Method::Ack => "ACK"@,
        Method::Bye => "BYE"@,
        Method::Cancel => "CANCEL"@,
        Method::Register => "REGISTER"@,
        Method::Options => "OPTIONS"@,
        Method::Info => "INFO"@,
        Method::Update => "UPDATE"@,
        Method::Prack => "PRACK"@,
        Method::Subscribe => "SUBSCRIBE"@,
        Method::Notify => "NOTIFY"@,
        Method::Refer => "REFER"@,
        Method::Message => "MESSAGE"@,
        Method::Publish => "PUBLISH"@,
    }
}

impl Method {
    /// The method token as it appears in a request line.
    pub fn to_string(&self) -> (s: String)
        ensures
            s@ == method_name(*self),
    {
        match self {
            Method::Invite => copy_str("INVITE"),
            Method::Ack => copy_str("ACK"),
            Method::Bye => copy_str("BYE"),
            Method::Cancel => copy_str("CANCEL"),
            Method::Register => copy_str("REGISTER"),
            Method::Options => copy_str("OPTIONS"),
            Method::Info => copy_str("INFO"),
            Method::Update => copy_str("UPDATE"),
            Method::Prack => copy_str("PRACK"),
            Method::Subscribe => copy_str("SUBSCRIBE"),
            Method::Notify => copy_str("NOTIFY"),
            Method::Refer => copy_str("REFER"),
            Method::Message => copy_str("MESSAGE"),
            Method::Publish => copy_str("PUBLISH"),
        }
    }
}

/// The `branch` parameter of a Via header.
#[derive(Debug, Clone, PartialEq, Eq, Hash)]
pub struct BranchId(pub String);

// ---------------------------------------------------------------------------
// Identifiers
// ---------------------------------------------------------------------------

/// Unique identifier of a transaction.
#[derive(Debug, Clone, PartialEq, Eq, Hash)]
pub struct TransactionId(pub String);

pub open spec fn is_lower_hex(c: char) -> bool {
    ('0' <= c && c <= '9') || ('a' <= c && c <= 'f')
}

/// Text of a random (version 4, RFC 9562 variant) UUID in the hyphenated
/// lower-case form `xxxxxxxx-xxxx-4xxx-Nxxx-xxxxxxxxxxxx`, `N` in `89ab`.
pub open spec fn is_v4_uuid_text(s: Seq<char>) -> bool {
    &&& s.len() == 36
    &&& forall|i: int|
        0 <= i < 36 ==> if i == 8 || i == 13 || i == 18 || i == 23 {
            #[trigger] s[i] == '-'
        } else {
            is_lower_hex(s[i])
        }
    &&& s[14] == '4'
    &&& (s[19] == '8' || s[19] == '9' || s[19] == 'a' || s[19] == 'b')
}

/// `uuid::Uuid::new_v4()` rendered by `to_string()`: a fresh random UUID.
/// Its digits are random; stated is only its shape, which the crate fixes:
/// `new_v4` sets the version nibble to 4 and the variant bits to `10`, and
/// `Display` writes the hyphenated lower-case form.
#[verifier::external_body]
pub(crate) fn new_v4_string() -> (s: String)
    ensures
        is_v4_uuid_text(s@),
{
    uuid::Uuid::new_v4().to_string()
}

impl TransactionId {
    /// `<branch>:<METHOD>`.
    pub fn from_branch_and_method(branch: &BranchId, method: &Method) -> (id: TransactionId)
        ensures
            id.0@ == branch.0@ + ":"@ + method_name(*method),
    {
        let mut s = copy_string(&branch.0);
        push_str(&mut s, ":");
        let m = method.to_string();
        push_str(&mut s, m.as_str());
        TransactionId(s)
    }

    /// A fresh identifier: the text of a random UUID.
    pub fn new_random() -> (id: TransactionId)
        ensures
            is_v4_uuid_text(id.0@),
    {
        TransactionId(new_v4_string())
    }

    /// The identifier's text.
    pub fn to_string(&self) -> (s: String)
        ensures
            s@ == self.0@,
    {
        copy_string(&self.0)
    }
}

/// Key matching a message to its transaction: the Via branch, the method
/// and the Via sent-by.
#[derive(Debug, Clone, PartialEq, Eq, Hash)]
pub struct TransactionKey {
    pub branch_id: BranchId,
    pub method: Method,
    pub sent_by: String,
}

impl TransactionKey {
    pub fn new(branch_id: BranchId, method: Method, sent_by: String) -> (k: TransactionKey)
        ensures
            k.branch_id == branch_id,
            k.method == method,
            k.sent_by == sent_by,
    {
        TransactionKey { branch_id, method, sent_by }
    }

    /// `<branch>:<METHOD>`.
    pub fn to_string(&self) -> (s: String)
        ensures
            s@ == self.branch_id.0@ + ":"@ + method_name(self.method),
    {
        let mut s = copy_string(&self.branch_id.0);
        push_str(&mut s, ":");
        let m = self.method.to_string();
        push_str(&mut s, m.as_str());
        s
    }
}

// ---------------------------------------------------------------------------
// States
// ---------------------------------------------------------------------------

/// States of an INVITE client transaction (RFC 3261 section 17.1.1).
#[derive(Debug, Clone, Copy, PartialEq, Eq, Structural)]
pub enum InviteClientState {
    Calling,
    Proceeding,
    Completed,
    Terminated,
}

/// States of a non-INVITE client transaction (RFC 3261 section 17.1.2).
#[derive(Debug, Clone, Copy, PartialEq, Eq, Structural)]
pub enum NonInviteClientState {
    Trying,
    Proceeding,
    Completed,
    Terminated,
}

/// States of an INVITE server transaction (RFC 3261 section 17.2.1).
#[derive(Debug, Clone, Copy, PartialEq, Eq, Structural)]
pub enum InviteServerState {
    Proceeding,
    Confirmed,
    Completed,
    Terminated,
}

/// States of a non-INVITE server transaction (RFC 3261 section 17.2.2).
#[derive(Debug, Clone, Copy, PartialEq, Eq, Structural)]
pub enum NonInviteServerState {
    Trying,
    Proceeding,
    Completed,
    Terminated,
}

/// Why a transaction ended.
#[derive(Debug, Clone, Copy, PartialEq, Eq, Structural)]
pub enum TerminationReason {
    Completed,
    Timeout,
    TransportError,
    UserCancel,
}

impl InviteClientState {
    /// The state's name.
    pub fn to_string(&self) -> (s: String)
        ensures
            s@ == match *self {
                InviteClientState::Calling => "Calling"@,
                InviteClientState::Proceeding => "Proceeding"@,
                InviteClientState::Completed => "Completed"@,
                InviteClientState::Terminated => "Terminated"@,
            },
    {
        match self {
            InviteClientState::Calling => copy_str("Calling"),
            InviteClientState::Proceeding => copy_str("Proceeding"),
            InviteClientState::Completed => copy_str("Completed"),
            InviteClientState::Terminated => copy_str("Terminated"),
        }
    }
}

impl NonInviteClientState {
    /// The state's name.
    pub fn to_string(&self) -> (s: String)
        ensures
            s@ == match *self {
                NonInviteClientState::Trying => "Trying"@,
                NonInviteClientState::Proceeding => "Proceeding"@,
                NonInviteClientState::Completed => "Completed"@,
                NonInviteClientState::Terminated => "Terminated"@,
            },
    {
        match self {
            NonInviteClientState::Trying => copy_str("Trying"),
            NonInviteClientState::Proceeding => copy_str("Proceeding"),
            NonInviteClientState::Completed => copy_str("Completed"),
            NonInviteClientState::Terminated => copy_str("Terminated"),
        }
    }
}

impl InviteServerState {
    /// The state's name.
    pub fn to_string(&self) -> (s: String)
        ensures
            s@ == match *self {
                InviteServerState::Proceeding => "Proceeding"@,
                InviteServerState::Confirmed => "Confirmed"@,
                InviteServerState::Completed => "Completed"@,
                InviteServerState::Terminated => "Terminated"@,
            },
    {
        match self {
            InviteServerState::Proceeding => copy_str("Proceeding"),
            InviteServerState::Confirmed => copy_str("Confirmed"),
            InviteServerState::Completed => copy_str("Completed"),
            InviteServerState::Terminated => copy_str("Terminated"),
        }
    }
}

impl NonInviteServerState {
    /// The state's name.
    pub fn to_string(&self) -> (s: String)
        ensures
            s@ == match *self {
                NonInviteServerState::Trying => "Trying"@,
                NonInviteServerState::Proceeding => "Proceeding"@,
                NonInviteServerState::Completed => "Completed"@,
                NonInviteServerState::Terminated => "Terminated"@,
            },
    {
        match self {
            NonInviteServerState::Trying => copy_str("Trying"),
            NonInviteServerState::Proceeding => copy_str("Proceeding"),
            NonInviteServerState::Completed => copy_str("Completed"),
            NonInviteServerState::Terminated => copy_str("Terminated"),
        }
    }
}

impl TerminationReason {
    /// The reason's name.
    pub fn to_string(&self) -> (s: String)
        ensures
            s@ == match *self {
                TerminationReason::Completed => "Completed"@,
                TerminationReason::Timeout => "Timeout"@,
                TerminationReason::TransportError => "TransportError"@,
                TerminationReason::UserCancel => "UserCancel"@,
            },
    {
        match self {
            TerminationReason::Completed => copy_str("Completed"),
            TerminationReason::Timeout => copy_str("Timeout"),
            TerminationReason::TransportError => copy_str("TransportError"),
            TerminationReason::UserCancel => copy_str("UserCancel"),
        }
    }
}

// ---------------------------------------------------------------------------
// Timers
// ---------------------------------------------------------------------------

/// Expiry of one of the transaction timers of RFC 3261 section 17.
#[derive(Debug)]
pub enum TimerEvent {
    /// INVITE client retransmission (T1, doubling up to T2; UDP only).
    TimerA { transaction_id: TransactionId },
    /// INVITE client transaction timeout (64*T1).
    TimerB { transaction_id: TransactionId },
    /// INVITE client wait for response retransmissions (32 s UDP, 0 s reliable).
    TimerD { transaction_id: TransactionId },
    /// Non-INVITE client retransmission (T1, doubling up to T2; UDP only).
    TimerE { transaction_id: TransactionId },
    /// Non-INVITE client transaction timeout (64*T1).
    TimerF { transaction_id: TransactionId },
    /// INVITE server response retransmission (T1, doubling up to T2).
    TimerG { transaction_id: TransactionId },
    /// INVITE server wait for ACK (64*T1).
    TimerH { transaction_id: TransactionId },
    /// INVITE server wait in Confirmed (T4 UDP, 0 s reliable).
    TimerI { transaction_id: TransactionId },
    /// Non-INVITE server wait for request retransmissions (64*T1 UDP, 0 s reliable).
    TimerJ { transaction_id: TransactionId },
    /// Non-INVITE client wait for response retransmissions (T4 UDP, 0 s reliable).
    TimerK { transaction_id: TransactionId },
}

/// The transaction a timer belongs to.
pub open spec fn timer_transaction(e: TimerEvent) -> TransactionId {
    match e {
        TimerEvent::TimerA { transaction_id } => transaction_id,
        TimerEvent::TimerB { transaction_id } => transaction_id,
        TimerEvent::TimerD { transaction_id } => transaction_id,
        TimerEvent::TimerE { transaction_id } => transaction_id,
        TimerEvent::TimerF { transaction_id } => transaction_id,
        TimerEvent::TimerG { transaction_id } => transaction_id,
        TimerEvent::TimerH { transaction_id } => transaction_id,
        TimerEvent::TimerI { transaction_id } => transaction_id,
        TimerEvent::TimerJ { transaction_id } => transaction_id,
        TimerEvent::TimerK { transaction_id } => transaction_id,
    }
}

fn copy_id(id: &TransactionId) -> (r: TransactionId)
    ensures
        r.0@ == id.0@,
{
    TransactionId(copy_string(&id.0))
}

/// The identifier of the transaction a timer belongs to.
pub fn transaction_id_from_timer(event: &TimerEvent) -> (id: TransactionId)
    ensures
        id.0@ == timer_transaction(*event).0@,
{
    match event {
        TimerEvent::TimerA { transaction_id } => copy_id(transaction_id),
        TimerEvent::TimerB { transaction_id } => copy_id(transaction_id),
        TimerEvent::TimerD { transaction_id } => copy_id(transaction_id),
        TimerEvent::TimerE { transaction_id } => copy_id(transaction_id),
        TimerEvent::TimerF { transaction_id } => copy_id(transaction_id),
        TimerEvent::TimerG { transaction_id } => copy_id(transaction_id),
        TimerEvent::TimerH { transaction_id } => copy_id(transaction_id),
        TimerEvent::TimerI { transaction_id } => copy_id(transaction_id),
        TimerEvent::TimerJ { transaction_id } => copy_id(transaction_id),
        TimerEvent::TimerK { transaction_id } => copy_id(transaction_id),
    }
}

} // verus!
