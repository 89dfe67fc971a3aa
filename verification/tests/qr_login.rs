use std::time::Duration;
use waywallen::qr_login::{
    clamp_poll_interval, login_deadline_ms, qr_data_url, qr_login_step, qr_start_step, QrLoginEvent,
    QrLoginState, QrLoginStep, QrStartEvent, QrStartStep, MAX_POLL_INTERVAL_MS, MIN_POLL_INTERVAL_MS,
};
use waywallen::source_types::{QrLoginBegin, QrLoginPoll, QrLoginPollState};

const MIN_POLL_INTERVAL: Duration = Duration::from_millis(MIN_POLL_INTERVAL_MS);
const MAX_POLL_INTERVAL: Duration = Duration::from_millis(MAX_POLL_INTERVAL_MS);

#[test]
fn qr_data_url_is_svg() {
    let url = qr_data_url("https://example.invalid/challenge").unwrap();
    assert!(url.starts_with("data:image/svg+xml;base64,"));
}

#[test]
fn poll_interval_is_bounded() {
    assert_eq!(Duration::from_millis(clamp_poll_interval(1)), MIN_POLL_INTERVAL);
    assert_eq!(Duration::from_millis(clamp_poll_interval(60_000)), MAX_POLL_INTERVAL);
}

#[test]
fn deadline_is_bounded() {
    assert_eq!(login_deadline_ms(None), 180_000);
    assert_eq!(login_deadline_ms(Some(10)), 1_000);
    assert_eq!(login_deadline_ms(Some(10_000_000)), 600_000);
    assert_eq!(login_deadline_ms(Some(5_000)), 5_000);
    assert_eq!(clamp_poll_interval(1_000), 1_000);
}

fn poll(state: QrLoginPollState, challenge: &str) -> QrLoginPoll {
    QrLoginPoll {
        state,
        challenge: challenge.to_string(),
        poll_after_ms: Some(10),
        display_value: "me".to_string(),
        error: String::new(),
    }
}

#[test]
fn poll_outcomes_decide_the_next_step() {
    let (interval, step) = qr_login_step(QrLoginEvent::Polled(poll(QrLoginPollState::AwaitingScan, "abc")));
    assert_eq!(interval, Some(250));
    match step {
        QrLoginStep::Publish { state, qr_image, display_value, .. } => {
            assert_eq!(state, QrLoginState::AwaitingScan);
            assert!(qr_image.starts_with("data:image/svg+xml;base64,"));
            assert_eq!(display_value, "me");
        }
        QrLoginStep::Finish { .. } => panic!("expected publish"),
    }
    let (_, step) = qr_login_step(QrLoginEvent::Polled(poll(QrLoginPollState::ChallengeChanged, "")));
    match step {
        QrLoginStep::Finish { state, error, cancel_provider, .. } => {
            assert_eq!(state, QrLoginState::Failed);
            assert_eq!(error, "QR login provider returned an empty replacement challenge");
            assert!(cancel_provider);
        }
        QrLoginStep::Publish { .. } => panic!("expected finish"),
    }
    let (_, step) = qr_login_step(QrLoginEvent::Polled(poll(QrLoginPollState::Succeeded, "")));
    match step {
        QrLoginStep::Finish { state, display_value, cancel_provider, .. } => {
            assert_eq!(state, QrLoginState::Succeeded);
            assert_eq!(display_value, "me");
            assert!(!cancel_provider);
        }
        QrLoginStep::Publish { .. } => panic!("expected finish"),
    }
    let (interval, step) = qr_login_step(QrLoginEvent::DeadlineReached);
    assert_eq!(interval, None);
    match step {
        QrLoginStep::Finish { state, error, cancel_provider, .. } => {
            assert_eq!(state, QrLoginState::Expired);
            assert_eq!(error, "QR login expired");
            assert!(cancel_provider);
        }
        QrLoginStep::Publish { .. } => panic!("expected finish"),
    }
    let (_, step) = qr_login_step(QrLoginEvent::Shutdown);
    assert!(matches!(step, QrLoginStep::Finish { state: QrLoginState::Cancelled, .. }));
}

#[test]
fn oversized_challenge_cannot_become_a_qr_code() {
    let huge = "x".repeat(10_000);
    assert!(qr_data_url(&huge).is_err());
    let (_, step) = qr_login_step(QrLoginEvent::Polled(poll(QrLoginPollState::AwaitingScan, &huge)));
    match step {
        QrLoginStep::Finish { state, error, .. } => {
            assert_eq!(state, QrLoginState::Failed);
            assert_eq!(error, "build QR code");
        }
        QrLoginStep::Publish { .. } => panic!("expected finish"),
    }
}

fn begun(challenge: &str) -> QrStartEvent {
    QrStartEvent::Begun(QrLoginBegin {
        operation_id: 9,
        challenge: challenge.to_string(),
        poll_after_ms: 10,
        expires_in_ms: None,
        title: "Sign in".to_string(),
        instruction: "Scan".to_string(),
    })
}

#[test]
fn only_one_session_starts_at_a_time() {
    match qr_start_step(true, QrStartEvent::Requested, false, false) {
        QrStartStep::Refuse(m) => assert_eq!(m, "another QR login session is already active"),
        _ => panic!("a second session must be refused"),
    }
    assert!(matches!(qr_start_step(false, QrStartEvent::Requested, false, false), QrStartStep::Begin));
}

#[test]
fn failed_begin_is_cancelled_or_failed() {
    match qr_start_step(false, QrStartEvent::BeginFailed("boom".to_string()), false, false) {
        QrStartStep::Finish { state, error, cancel_provider, .. } => {
            assert_eq!(state, QrLoginState::Failed);
            assert_eq!(error, "boom");
            assert!(!cancel_provider);
        }
        _ => panic!("expected a failed session"),
    }
    match qr_start_step(false, QrStartEvent::BeginFailed("boom".to_string()), true, false) {
        QrStartStep::Finish { state, error, .. } => {
            assert_eq!(state, QrLoginState::Cancelled);
            assert!(error.is_empty());
        }
        _ => panic!("expected a cancelled session"),
    }
    assert!(matches!(
        qr_start_step(false, QrStartEvent::BeginInterrupted, false, true),
        QrStartStep::Finish { state: QrLoginState::Cancelled, cancel_provider: false, .. }
    ));
}

#[test]
fn begun_session_runs_unless_cancelled() {
    match qr_start_step(false, begun("https://example.invalid/challenge"), false, false) {
        QrStartStep::Run { qr_image, title, instruction, deadline_ms, poll_interval_ms } => {
            assert!(qr_image.starts_with("data:image/svg+xml;base64,"));
            assert_eq!(title, "Sign in");
            assert_eq!(instruction, "Scan");
            assert_eq!(deadline_ms, 180_000);
            assert_eq!(poll_interval_ms, MIN_POLL_INTERVAL_MS);
        }
        _ => panic!("expected a running session"),
    }
    match qr_start_step(false, begun("https://example.invalid/challenge"), false, true) {
        QrStartStep::Finish { state, title, cancel_provider, .. } => {
            assert_eq!(state, QrLoginState::Cancelled);
            assert_eq!(title, "Sign in");
            assert!(cancel_provider);
        }
        _ => panic!("expected a cancelled session"),
    }
    let too_long = "x".repeat(8000);
    match qr_start_step(false, begun(&too_long), false, false) {
        QrStartStep::Finish { state, error, cancel_provider, .. } => {
            assert_eq!(state, QrLoginState::Failed);
            assert_eq!(error, "build QR code");
            assert!(cancel_provider);
        }
        _ => panic!("expected a failed session"),
    }
}
