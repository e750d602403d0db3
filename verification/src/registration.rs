//! Client registration: the registrar address of an address-of-record,
//! and the decisions a registration takes on each answer to its REGISTER
//! requests and on each tick of its timers.
use vstd::prelude::*;

use crate::message::uri::{
    spec_parse_uri, uri_text, SipUri, SpecSipUri, UriHeaders, UriParams,
};
use crate::text::{chars_of, copy_str, parse_uint, parse_uint_vec};

verus! {

/// The registrar address of an address-of-record: the URI without user
/// info, parameters and headers (`sip:alice@example.com` gives
/// `sip:example.com`); the text itself when it is no URI.
pub open spec fn aor_domain(aor: Seq<char>) -> Seq<char> {
    match spec_parse_uri(aor) {
        Ok(u) => uri_text(
            SpecSipUri {
                user_info: None,
                params: Seq::empty(),
                headers: Seq::empty(),
                ..u
            },
        ),
        Err(_) => aor,
    }
}

/// The registrar address of `aor`; see `aor_domain`.
pub fn extract_domain_from_aor(aor: &str) -> (s: String)
    ensures
        s@ == aor_domain(aor@),
{
    match SipUri::parse(aor) {
        Ok(uri) => {
            let domain_uri = SipUri {
                scheme: uri.scheme,
                user_info: None,
                host: uri.host,
                port: uri.port,
                params: UriParams::new(),
                headers: UriHeaders::new(),
            };
            let s = domain_uri.to_string();
            assert(domain_uri@ =~= (SpecSipUri {
                user_info: None,
                params: Seq::empty(),
                headers: Seq::empty(),
                ..spec_parse_uri(aor@)->Ok_0
            }));
            s
        },
        Err(_) => copy_str(aor),
    }
}

/// Where a client registration stands.
#[derive(Debug, Clone, Copy, PartialEq, Eq, Structural)]
pub enum RegState {
    Unregistered,
    Registering,
    Registered,
    Unregistering,
    Expired,
}

/// What the decisions of a registration read and change: its state, the
/// CSeq number of its last REGISTER, the nonce count of its last
/// Authorization, whether a challenge has been answered already, and the
/// lifetime it asks for, in seconds.
#[derive(Debug, Clone, Copy, PartialEq, Eq, Structural)]
pub struct RegAuthModel {
    pub state: RegState,
    pub cseq: u32,
    pub nonce_count: u32,
    pub auth_attempted: bool,
    pub expires: u64,
}

/// Addition that stops at `u32::MAX`.
pub open spec fn sat_add(a: u32, b: u32) -> u32 {
    if a + b > u32::MAX {
        u32::MAX
    } else {
        (a + b) as u32
    }
}

/// A registration whose first REGISTER (CSeq 1) is on its way.
pub open spec fn fresh_registration(expires: u64) -> RegAuthModel {
    RegAuthModel {
        state: RegState::Registering,
        cseq: 1,
        nonce_count: 0,
        auth_attempted: false,
        expires,
    }
}

impl RegAuthModel {
    /// The record of a registration just started with lifetime `expires`.
    pub fn new(expires: u64) -> (r: RegAuthModel)
        ensures
            r == fresh_registration(expires),
    {
        RegAuthModel {
            state: RegState::Registering,
            cseq: 1,
            nonce_count: 0,
            auth_attempted: false,
            expires,
        }
    }
}

/// How an answer to a REGISTER is handled, by its status code.
#[derive(Debug, Clone, Copy, PartialEq, Eq, Structural)]
pub enum ResponseKind {
    /// A 2xx answer.
    Success,
    /// 401: the challenge is in WWW-Authenticate, the answer goes in
    /// Authorization.
    Unauthorized,
    /// 407: the challenge is in Proxy-Authenticate, the answer goes in
    /// Proxy-Authorization.
    ProxyAuthRequired,
    /// 423: the registrar asks for a longer lifetime.
    IntervalTooBrief,
    /// Any other answer.
    Failure,
}

pub open spec fn response_kind(code: u16) -> ResponseKind {
    if 200 <= code <= 299 {
        ResponseKind::Success
    } else if code == 401 {
        ResponseKind::Unauthorized
    } else if code == 407 {
        ResponseKind::ProxyAuthRequired
    } else if code == 423 {
        ResponseKind::IntervalTooBrief
    } else {
        ResponseKind::Failure
    }
}

/// Which handling an answer with status `code` gets.
pub fn classify_response(code: u16) -> (k: ResponseKind)
    ensures
        k == response_kind(code),
{
    if 200 <= code && code <= 299 {
        ResponseKind::Success
    } else if code == 401 {
        ResponseKind::Unauthorized
    } else if code == 407 {
        ResponseKind::ProxyAuthRequired
    } else if code == 423 {
        ResponseKind::IntervalTooBrief
    } else {
        ResponseKind::Failure
    }
}

/// The outcome of a 2xx answer.
#[derive(Debug, Clone, Copy, PartialEq, Eq, Structural)]
pub enum SuccessStep {
    /// The registration was being removed and now is: announce it
    /// unregistered and forget when it was registered.
    Unregistered,
    /// The registration was being made or refreshed and now holds: note the
    /// time, take the contacts of the answer if it lists any, announce it.
    Registered,
    /// The registration was in no pending state: nothing to announce.
    Unchanged,
}

/// A 2xx answer: the lifetime it grants, where it has an Expires header,
/// replaces the one asked for; a pending removal completes, a pending
/// registration completes, any other state stays.
pub open spec fn success_next(m: RegAuthModel, granted: Option<u32>) -> (RegAuthModel, SuccessStep) {
    let e = match granted {
        Some(g) => g as u64,
        None => m.expires,
    };
    if m.state == RegState::Unregistering {
        (RegAuthModel { state: RegState::Unregistered, expires: e, ..m }, SuccessStep::Unregistered)
    } else if m.state == RegState::Registering {
        (RegAuthModel { state: RegState::Registered, expires: e, ..m }, SuccessStep::Registered)
    } else {
        (RegAuthModel { expires: e, ..m }, SuccessStep::Unchanged)
    }
}

/// Handles a 2xx answer that grants `granted_expires` seconds, if it says;
/// see `success_next`.
pub fn success_step(info: &mut RegAuthModel, granted_expires: Option<u32>) -> (step: SuccessStep)
    ensures
        (*final(info), step) == success_next(*old(info), granted_expires),
{
    match granted_expires {
        Some(e) => {
            info.expires = e as u64;
        },
        None => {},
    }
    match info.state {
        RegState::Unregistering => {
            info.state = RegState::Unregistered;
            SuccessStep::Unregistered
        },
        RegState::Registering => {
            info.state = RegState::Registered;
            SuccessStep::Registered
        },
        _ => SuccessStep::Unchanged,
    }
}

/// The outcome of a 401 or 407 answer.
#[derive(Debug, Clone, Copy, PartialEq, Eq, Structural)]
pub enum AuthStep {
    /// A challenge was answered already: stop, announce that
    /// authentication failed, answer nothing.
    GiveUp,
    /// There are no credentials to answer with: announce that
    /// authentication failed and fail.
    NoCredentials,
    /// The answer carries no challenge header: fail, changing nothing.
    MissingChallenge,
    /// Send the REGISTER again, with the Digest answer to the challenge,
    /// under the new CSeq and nonce count.
    Retry,
}

/// A 401 or 407 answer. A registration answers one challenge only: a
/// second one ends it. Without credentials it ends too. Without a
/// challenge header nothing changes. Otherwise CSeq and the nonce count go
/// up by one (stopping at `u32::MAX`), the challenge is marked answered and
/// the registration is pending again.
pub open spec fn challenge_next(m: RegAuthModel, has_credentials: bool, has_challenge: bool) -> (
    RegAuthModel,
    AuthStep,
) {
    if m.auth_attempted {
        (RegAuthModel { state: RegState::Unregistered, ..m }, AuthStep::GiveUp)
    } else if !has_credentials {
        (RegAuthModel { state: RegState::Unregistered, ..m }, AuthStep::NoCredentials)
    } else if !has_challenge {
        (m, AuthStep::MissingChallenge)
    } else {
        (
            RegAuthModel {
                state: RegState::Registering,
                cseq: sat_add(m.cseq, 1),
                nonce_count: sat_add(m.nonce_count, 1),
                auth_attempted: true,
                expires: m.expires,
            },
            AuthStep::Retry,
        )
    }
}

/// Handles a 401 or 407 answer, given whether credentials are configured
/// and whether the answer carries its challenge header; see
/// `challenge_next`.
pub fn auth_challenge_step(info: &mut RegAuthModel, has_credentials: bool, has_challenge: bool) -> (step: AuthStep)
    ensures
        (*final(info), step) == challenge_next(*old(info), has_credentials, has_challenge),
        old(info).auth_attempted ==> step == AuthStep::GiveUp && final(info).state
            == RegState::Unregistered && final(info).cseq == old(info).cseq
            && final(info).nonce_count == old(info).nonce_count,
        !old(info).auth_attempted && !has_credentials ==> step == AuthStep::NoCredentials
            && final(info).state == RegState::Unregistered,
        !old(info).auth_attempted && has_credentials && !has_challenge ==> step
            == AuthStep::MissingChallenge && *final(info) == *old(info),
        !old(info).auth_attempted && has_credentials && has_challenge ==> step == AuthStep::Retry
            && final(info).cseq == sat_add(old(info).cseq, 1) && final(info).nonce_count
            == sat_add(old(info).nonce_count, 1) && final(info).auth_attempted
            && final(info).state == RegState::Registering,
{
    if info.auth_attempted {
        info.state = RegState::Unregistered;
        return AuthStep::GiveUp;
    }
    if !has_credentials {
        info.state = RegState::Unregistered;
        return AuthStep::NoCredentials;
    }
    if !has_challenge {
        return AuthStep::MissingChallenge;
    }
    info.cseq = info.cseq.saturating_add(1);
    info.nonce_count = info.nonce_count.saturating_add(1);
    info.auth_attempted = true;
    info.state = RegState::Registering;
    AuthStep::Retry
}

/// The view of an optional text.
pub open spec fn opt_str_view(t: Option<&str>) -> Option<Seq<char>> {
    match t {
        Some(s) => Some(s@),
        None => None,
    }
}

/// The value of a Min-Expires header: its text read as a `u64`, as
/// `str::parse` reads it.
pub open spec fn min_expires_value(header: Option<Seq<char>>) -> Option<nat> {
    match header {
        Some(t) => parse_uint(t, u64::MAX as nat),
        None => None,
    }
}

/// A 423 answer with Min-Expires header text `header`. Without a readable
/// value nothing changes and the step fails (`false`); otherwise the
/// registration asks for that lifetime, under the next CSeq (stopping at
/// `u32::MAX`), pending again, and the REGISTER goes out again (`true`).
pub open spec fn interval_next(m: RegAuthModel, header: Option<Seq<char>>) -> (RegAuthModel, bool) {
    match min_expires_value(header) {
        Some(e) => (
            RegAuthModel {
                state: RegState::Registering,
                cseq: sat_add(m.cseq, 1),
                expires: e as u64,
                ..m
            },
            true,
        ),
        None => (m, false),
    }
}

/// Handles a 423 answer, given the text of its Min-Expires header; see
/// `interval_next`.
pub fn interval_too_brief_step(info: &mut RegAuthModel, min_expires: Option<&str>) -> (retry: bool)
    ensures
        (*final(info), retry) == interval_next(*old(info), opt_str_view(min_expires)),
{
    let value = match min_expires {
        Some(t) => {
            let v = chars_of(t);
            parse_uint_vec(&v, u64::MAX)
        },
        None => None,
    };
    match value {
        Some(e) => {
            info.expires = e;
            info.cseq = info.cseq.saturating_add(1);
            info.state = RegState::Registering;
            true
        },
        None => false,
    }
}

/// Why a registration failed.
#[derive(Debug, Clone, Copy, PartialEq, Eq, Structural)]
pub enum RegistrationFailureReason {
    ServerRejected,
    Timeout,
    NetworkUnreachable,
}

/// The reason read off a failure code: 408 timed out, 503 the network is
/// unreachable, anything else (403 and 404 among them) the server refused.
pub open spec fn failure_reason(code: u16) -> RegistrationFailureReason {
    if code == 408 {
        RegistrationFailureReason::Timeout
    } else if code == 503 {
        RegistrationFailureReason::NetworkUnreachable
    } else {
        RegistrationFailureReason::ServerRejected
    }
}

/// Handles any other answer, with status `code`: the registration ends
/// and fails for `failure_reason(code)`.
pub fn failure_step(info: &mut RegAuthModel, code: u16) -> (reason: RegistrationFailureReason)
    ensures
        reason == failure_reason(code),
        *final(info) == (RegAuthModel { state: RegState::Unregistered, ..*old(info) }),
{
    info.state = RegState::Unregistered;
    if code == 408 {
        RegistrationFailureReason::Timeout
    } else if code == 503 {
        RegistrationFailureReason::NetworkUnreachable
    } else {
        RegistrationFailureReason::ServerRejected
    }
}

/// A request that the registration's state does not allow; `current` is
/// that state.
#[derive(Debug, Clone, Copy, PartialEq, Eq, Structural)]
pub struct InvalidState {
    pub current: RegState,
}

/// Removing a registration: allowed when it is registered or expired; it
/// then goes out under the next CSeq (stopping at `u32::MAX`), pending
/// removal. Otherwise nothing changes.
pub open spec fn unregister_next(m: RegAuthModel) -> (RegAuthModel, Result<(), InvalidState>) {
    if m.state == RegState::Registered || m.state == RegState::Expired {
        (RegAuthModel { state: RegState::Unregistering, cseq: sat_add(m.cseq, 1), ..m }, Ok(()))
    } else {
        (m, Err(InvalidState { current: m.state }))
    }
}

/// Starts removing a registration; see `unregister_next`.
pub fn unregister_step(info: &mut RegAuthModel) -> (r: Result<(), InvalidState>)
    ensures
        (*final(info), r) == unregister_next(*old(info)),
{
    match info.state {
        RegState::Registered | RegState::Expired => {
            info.cseq = info.cseq.saturating_add(1);
            info.state = RegState::Unregistering;
            Ok(())
        },
        _ => Err(InvalidState { current: info.state }),
    }
}

/// Refreshing a registration: allowed when it is registered; it then goes
/// out under the next CSeq (stopping at `u32::MAX`), pending again.
/// Otherwise nothing changes.
pub open spec fn refresh_next(m: RegAuthModel) -> (RegAuthModel, Result<(), InvalidState>) {
    if m.state == RegState::Registered {
        (RegAuthModel { state: RegState::Registering, cseq: sat_add(m.cseq, 1), ..m }, Ok(()))
    } else {
        (m, Err(InvalidState { current: m.state }))
    }
}

/// Starts refreshing a registration; see `refresh_next`.
pub fn refresh_step(info: &mut RegAuthModel) -> (r: Result<(), InvalidState>)
    ensures
        (*final(info), r) == refresh_next(*old(info)),
{
    match info.state {
        RegState::Registered => {
            info.cseq = info.cseq.saturating_add(1);
            info.state = RegState::Registering;
            Ok(())
        },
        _ => Err(InvalidState { current: info.state }),
    }
}

/// The expiry check of one registration, given the seconds left of its
/// lifetime (`None` when it holds no registration time): a registered
/// registration with nothing left expires (`true`: announce it); anything
/// else stays.
pub open spec fn expire_next(m: RegAuthModel, remaining: Option<u64>) -> (RegAuthModel, bool) {
    if m.state == RegState::Registered && remaining == Some(0u64) {
        (RegAuthModel { state: RegState::Expired, ..m }, true)
    } else {
        (m, false)
    }
}

/// Checks one registration for expiry; see `expire_next`.
pub fn expire_step(info: &mut RegAuthModel, remaining: Option<u64>) -> (expired: bool)
    ensures
        (*final(info), expired) == expire_next(*old(info), remaining),
{
    if info.state == RegState::Registered && remaining == Some(0u64) {
        info.state = RegState::Expired;
        true
    } else {
        false
    }
}

/// What the handling of an answer reads from it besides its status code:
/// the lifetime its Expires header grants, whether it carries a
/// WWW-Authenticate and a Proxy-Authenticate challenge, and the text of its
/// Min-Expires header.
pub struct AnswerFacts {
    pub granted_expires: Option<u32>,
    pub www_challenge: bool,
    pub proxy_challenge: bool,
    pub min_expires: Option<String>,
}

/// What an `AnswerFacts` carries.
pub struct SpecAnswerFacts {
    pub granted_expires: Option<u32>,
    pub www_challenge: bool,
    pub proxy_challenge: bool,
    pub min_expires: Option<Seq<char>>,
}

impl View for AnswerFacts {
    type V = SpecAnswerFacts;

    open spec fn view(&self) -> SpecAnswerFacts {
        SpecAnswerFacts {
            granted_expires: self.granted_expires,
            www_challenge: self.www_challenge,
            proxy_challenge: self.proxy_challenge,
            min_expires: match self.min_expires {
                Some(t) => Some(t@),
                None => None,
            },
        }
    }
}

/// The outcome of an answer to a REGISTER.
#[derive(Debug, Clone, Copy, PartialEq, Eq, Structural)]
pub enum ResponseStep {
    Success(SuccessStep),
    Challenge(AuthStep),
    /// A 423 answer: whether the REGISTER goes out again.
    IntervalTooBrief(bool),
    Failed(RegistrationFailureReason),
}

/// An answer with status `code`: a 2xx completes what is pending, a 401
/// is answered from its WWW-Authenticate challenge and a 407 from its
/// Proxy-Authenticate challenge, a 423 takes the Min-Expires lifetime, any
/// other code ends the registration.
pub open spec fn response_next(
    m: RegAuthModel,
    code: u16,
    has_credentials: bool,
    facts: SpecAnswerFacts,
) -> (RegAuthModel, ResponseStep) {
    match response_kind(code) {
        ResponseKind::Success => {
            let (n, s) = success_next(m, facts.granted_expires);
            (n, ResponseStep::Success(s))
        },
        ResponseKind::Unauthorized => {
            let (n, s) = challenge_next(m, has_credentials, facts.www_challenge);
            (n, ResponseStep::Challenge(s))
        },
        ResponseKind::ProxyAuthRequired => {
            let (n, s) = challenge_next(m, has_credentials, facts.proxy_challenge);
            (n, ResponseStep::Challenge(s))
        },
        ResponseKind::IntervalTooBrief => {
            let (n, r) = interval_next(m, facts.min_expires);
            (n, ResponseStep::IntervalTooBrief(r))
        },
        ResponseKind::Failure => (
            RegAuthModel { state: RegState::Unregistered, ..m },
            ResponseStep::Failed(failure_reason(code)),
        ),
    }
}

/// Handles an answer with status `code` to a REGISTER of this
/// registration, given whether credentials are configured; see
/// `response_next`.
pub fn response_step(
    info: &mut RegAuthModel,
    code: u16,
    has_credentials: bool,
    facts: &AnswerFacts,
) -> (step: ResponseStep)
    ensures
        (*final(info), step) == response_next(*old(info), code, has_credentials, facts@),
{
    match classify_response(code) {
        ResponseKind::Success => ResponseStep::Success(success_step(info, facts.granted_expires)),
        ResponseKind::Unauthorized => ResponseStep::Challenge(
            auth_challenge_step(info, has_credentials, facts.www_challenge),
        ),
        ResponseKind::ProxyAuthRequired => ResponseStep::Challenge(
            auth_challenge_step(info, has_credentials, facts.proxy_challenge),
        ),
        ResponseKind::IntervalTooBrief => {
            let header = match &facts.min_expires {
                Some(t) => Some(t.as_str()),
                None => None,
            };
            ResponseStep::IntervalTooBrief(interval_too_brief_step(info, header))
        },
        ResponseKind::Failure => ResponseStep::Failed(failure_step(info, code)),
    }
}

/// A registration answers one challenge at most: once a challenge has
/// been answered, the next one ends the registration, whatever it holds.
pub proof fn law_challenge_answered_once(
    m: RegAuthModel,
    has_credentials: bool,
    has_challenge: bool,
    has_credentials2: bool,
    has_challenge2: bool,
)
    requires
        challenge_next(m, has_credentials, has_challenge).1 == AuthStep::Retry,
    ensures
        ({
            let again = challenge_next(
                challenge_next(m, has_credentials, has_challenge).0,
                has_credentials2,
                has_challenge2,
            );
            again.1 == AuthStep::GiveUp && again.0.state == RegState::Unregistered
        }),
{
}

/// No step lowers the CSeq number: each REGISTER goes out under a number
/// at least that of the one before.
pub proof fn law_cseq_never_decreases(
    m: RegAuthModel,
    granted: Option<u32>,
    has_credentials: bool,
    has_challenge: bool,
    header: Option<Seq<char>>,
    remaining: Option<u64>,
)
    ensures
        success_next(m, granted).0.cseq == m.cseq,
        challenge_next(m, has_credentials, has_challenge).0.cseq >= m.cseq,
        interval_next(m, header).0.cseq >= m.cseq,
        unregister_next(m).0.cseq >= m.cseq,
        refresh_next(m).0.cseq >= m.cseq,
        expire_next(m, remaining).0.cseq == m.cseq,
{
}

/// A registration just started, answered with 2xx, is registered; a
/// refresh and its 2xx leave it registered; a removal and its 2xx leave it
/// unregistered.
pub proof fn law_register_refresh_unregister(expires: u64, g1: Option<u32>, g2: Option<u32>, g3: Option<u32>)
    ensures
        ({
            let (r1, s1) = success_next(fresh_registration(expires), g1);
            let (r2, ok2) = refresh_next(r1);
            let (r3, s3) = success_next(r2, g2);
            let (r4, ok4) = unregister_next(r3);
            let (r5, s5) = success_next(r4, g3);
            &&& s1 == SuccessStep::Registered && r1.state == RegState::Registered
            &&& ok2 is Ok && s3 == SuccessStep::Registered && r3.state == RegState::Registered
            &&& ok4 is Ok && s5 == SuccessStep::Unregistered && r5.state == RegState::Unregistered
            &&& r5.cseq == 3
        }),
{
}

} // verus!
