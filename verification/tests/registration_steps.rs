use siprs::registration::{
    response_step, AnswerFacts, ResponseStep, auth_challenge_step, classify_response, expire_step, failure_step, interval_too_brief_step,
    refresh_step, success_step, unregister_step, AuthStep, InvalidState, RegAuthModel, RegState,
    RegistrationFailureReason, ResponseKind, SuccessStep,
};

fn registered(cseq: u32) -> RegAuthModel {
    RegAuthModel {
        state: RegState::Registered,
        cseq,
        nonce_count: 0,
        auth_attempted: false,
        expires: 3600,
    }
}

#[test]
fn new_registration_starts_at_cseq_one() {
    let m = RegAuthModel::new(3600);
    assert_eq!(m.state, RegState::Registering);
    assert_eq!(m.cseq, 1);
    assert_eq!(m.nonce_count, 0);
    assert!(!m.auth_attempted);
    assert_eq!(m.expires, 3600);
}

#[test]
fn responses_are_classified_by_code() {
    assert_eq!(classify_response(200), ResponseKind::Success);
    assert_eq!(classify_response(202), ResponseKind::Success);
    assert_eq!(classify_response(299), ResponseKind::Success);
    assert_eq!(classify_response(401), ResponseKind::Unauthorized);
    assert_eq!(classify_response(407), ResponseKind::ProxyAuthRequired);
    assert_eq!(classify_response(423), ResponseKind::IntervalTooBrief);
    assert_eq!(classify_response(180), ResponseKind::Failure);
    assert_eq!(classify_response(300), ResponseKind::Failure);
    assert_eq!(classify_response(403), ResponseKind::Failure);
}

#[test]
fn ok_completes_a_pending_registration() {
    let mut m = RegAuthModel::new(3600);
    assert_eq!(success_step(&mut m, None), SuccessStep::Registered);
    assert_eq!(m.state, RegState::Registered);
    assert_eq!(m.expires, 3600);
    assert_eq!(m.cseq, 1);
}

#[test]
fn ok_takes_the_granted_lifetime() {
    let mut m = RegAuthModel::new(3600);
    assert_eq!(success_step(&mut m, Some(1800)), SuccessStep::Registered);
    assert_eq!(m.expires, 1800);
}

#[test]
fn ok_completes_a_pending_removal() {
    let mut m = registered(4);
    assert_eq!(unregister_step(&mut m), Ok(()));
    assert_eq!(m.state, RegState::Unregistering);
    assert_eq!(m.cseq, 5);
    assert_eq!(success_step(&mut m, Some(0)), SuccessStep::Unregistered);
    assert_eq!(m.state, RegState::Unregistered);
    assert_eq!(m.expires, 0);
}

#[test]
fn ok_in_no_pending_state_changes_only_the_lifetime() {
    let mut m = registered(2);
    assert_eq!(success_step(&mut m, Some(120)), SuccessStep::Unchanged);
    assert_eq!(m.state, RegState::Registered);
    assert_eq!(m.expires, 120);
    assert_eq!(m.cseq, 2);
}

#[test]
fn first_challenge_is_answered() {
    let mut m = RegAuthModel::new(3600);
    assert_eq!(auth_challenge_step(&mut m, true, true), AuthStep::Retry);
    assert_eq!(m.state, RegState::Registering);
    assert_eq!(m.cseq, 2);
    assert_eq!(m.nonce_count, 1);
    assert!(m.auth_attempted);
}

#[test]
fn second_challenge_ends_the_registration() {
    let mut m = RegAuthModel::new(3600);
    assert_eq!(auth_challenge_step(&mut m, true, true), AuthStep::Retry);
    assert_eq!(auth_challenge_step(&mut m, true, true), AuthStep::GiveUp);
    assert_eq!(m.state, RegState::Unregistered);
    assert_eq!(m.cseq, 2);
    assert_eq!(m.nonce_count, 1);
}

#[test]
fn challenge_without_credentials_fails() {
    let mut m = RegAuthModel::new(3600);
    assert_eq!(auth_challenge_step(&mut m, false, true), AuthStep::NoCredentials);
    assert_eq!(m.state, RegState::Unregistered);
    assert_eq!(m.cseq, 1);
}

#[test]
fn challenge_without_header_changes_nothing() {
    let mut m = RegAuthModel::new(3600);
    let before = m;
    assert_eq!(auth_challenge_step(&mut m, true, false), AuthStep::MissingChallenge);
    assert_eq!(m, before);
}

#[test]
fn challenge_counters_stop_at_the_top() {
    let mut m = RegAuthModel {
        state: RegState::Registering,
        cseq: u32::MAX,
        nonce_count: u32::MAX,
        auth_attempted: false,
        expires: 60,
    };
    assert_eq!(auth_challenge_step(&mut m, true, true), AuthStep::Retry);
    assert_eq!(m.cseq, u32::MAX);
    assert_eq!(m.nonce_count, u32::MAX);
}

#[test]
fn interval_too_brief_takes_min_expires() {
    let mut m = RegAuthModel::new(3600);
    assert!(interval_too_brief_step(&mut m, Some("7200")));
    assert_eq!(m.expires, 7200);
    assert_eq!(m.cseq, 2);
    assert_eq!(m.state, RegState::Registering);
}

#[test]
fn interval_too_brief_without_value_fails() {
    let mut m = RegAuthModel::new(3600);
    let before = m;
    assert!(!interval_too_brief_step(&mut m, None));
    assert!(!interval_too_brief_step(&mut m, Some("soon")));
    assert!(!interval_too_brief_step(&mut m, Some("")));
    assert!(!interval_too_brief_step(&mut m, Some("18446744073709551616")));
    assert_eq!(m, before);
    assert!(interval_too_brief_step(&mut m, Some("+60")));
    assert_eq!(m.expires, 60);
}

#[test]
fn failures_give_their_reason() {
    let mut m = RegAuthModel::new(3600);
    assert_eq!(failure_step(&mut m, 403), RegistrationFailureReason::ServerRejected);
    assert_eq!(m.state, RegState::Unregistered);
    assert_eq!(failure_step(&mut m, 404), RegistrationFailureReason::ServerRejected);
    assert_eq!(failure_step(&mut m, 408), RegistrationFailureReason::Timeout);
    assert_eq!(failure_step(&mut m, 503), RegistrationFailureReason::NetworkUnreachable);
    assert_eq!(failure_step(&mut m, 500), RegistrationFailureReason::ServerRejected);
    assert_eq!(m.cseq, 1);
}

#[test]
fn unregister_needs_a_registration() {
    let mut m = RegAuthModel::new(3600);
    assert_eq!(
        unregister_step(&mut m),
        Err(InvalidState { current: RegState::Registering })
    );
    assert_eq!(m.cseq, 1);
    let mut e = RegAuthModel { state: RegState::Expired, ..registered(7) };
    assert_eq!(unregister_step(&mut e), Ok(()));
    assert_eq!(e.state, RegState::Unregistering);
    assert_eq!(e.cseq, 8);
}

#[test]
fn refresh_needs_a_registration() {
    let mut m = RegAuthModel { state: RegState::Expired, ..registered(3) };
    assert_eq!(refresh_step(&mut m), Err(InvalidState { current: RegState::Expired }));
    assert_eq!(m.cseq, 3);
    let mut r = registered(3);
    assert_eq!(refresh_step(&mut r), Ok(()));
    assert_eq!(r.state, RegState::Registering);
    assert_eq!(r.cseq, 4);
}

#[test]
fn registration_expires_when_nothing_is_left() {
    let mut m = registered(1);
    assert!(!expire_step(&mut m, Some(10)));
    assert!(!expire_step(&mut m, None));
    assert_eq!(m.state, RegState::Registered);
    assert!(expire_step(&mut m, Some(0)));
    assert_eq!(m.state, RegState::Expired);
    assert!(!expire_step(&mut m, Some(0)));
    let mut p = RegAuthModel::new(60);
    assert!(!expire_step(&mut p, Some(0)));
    assert_eq!(p.state, RegState::Registering);
}

fn facts(www: bool, proxy: bool, min_expires: Option<&str>) -> AnswerFacts {
    AnswerFacts {
        granted_expires: None,
        www_challenge: www,
        proxy_challenge: proxy,
        min_expires: min_expires.map(|t| t.to_string()),
    }
}

#[test]
fn answers_are_dispatched_by_code() {
    let mut m = RegAuthModel::new(3600);
    assert_eq!(
        response_step(&mut m, 401, true, &facts(true, false, None)),
        ResponseStep::Challenge(AuthStep::Retry)
    );
    assert_eq!(m.cseq, 2);
    assert_eq!(
        response_step(&mut m, 200, true, &facts(false, false, None)),
        ResponseStep::Success(SuccessStep::Registered)
    );
    assert_eq!(m.state, RegState::Registered);
}

#[test]
fn proxy_challenge_reads_its_own_header() {
    let mut m = RegAuthModel::new(3600);
    assert_eq!(
        response_step(&mut m, 407, true, &facts(true, false, None)),
        ResponseStep::Challenge(AuthStep::MissingChallenge)
    );
    assert_eq!(
        response_step(&mut m, 407, true, &facts(false, true, None)),
        ResponseStep::Challenge(AuthStep::Retry)
    );
    assert_eq!(
        response_step(&mut m, 401, true, &facts(true, false, None)),
        ResponseStep::Challenge(AuthStep::GiveUp)
    );
    assert_eq!(m.state, RegState::Unregistered);
}

#[test]
fn interval_and_failure_answers() {
    let mut m = RegAuthModel::new(60);
    assert_eq!(
        response_step(&mut m, 423, true, &facts(false, false, Some("7200"))),
        ResponseStep::IntervalTooBrief(true)
    );
    assert_eq!(m.expires, 7200);
    assert_eq!(
        response_step(&mut m, 503, true, &facts(false, false, None)),
        ResponseStep::Failed(RegistrationFailureReason::NetworkUnreachable)
    );
    assert_eq!(m.state, RegState::Unregistered);
}
