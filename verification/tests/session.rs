use waywallen::session::{
    portal_action, session_removed_matches, ExitReason, PortalAction, SessionAction,
    SessionEvent, SessionMonitorState, SessionState,
};

#[test]
fn portal_query_end_is_acknowledged_without_exiting() {
    assert_eq!(
        portal_action(SessionState::QueryEnd),
        PortalAction::AcknowledgeQueryEnd
    );
    assert_ne!(
        portal_action(SessionState::QueryEnd),
        PortalAction::EndSession
    );
}

#[test]
fn portal_ending_requests_portal_exit_reason() {
    let mut state = SessionMonitorState::default();

    assert_eq!(
        state.handle(SessionEvent::PortalSessionEnding),
        Some(SessionAction::Exit(ExitReason::PortalSessionEnding))
    );
}

#[test]
fn duplicate_session_end_is_ignored() {
    let mut state = SessionMonitorState::default();

    assert_eq!(
        state.handle(SessionEvent::LoginSessionRemoved),
        Some(SessionAction::Exit(ExitReason::LoginSessionRemoved))
    );
    assert_eq!(state.handle(SessionEvent::PortalSessionEnding), None);
}

#[test]
fn screen_saver_starts_only_after_portal_is_unavailable() {
    let mut state = SessionMonitorState::default();

    assert_eq!(
        state.handle(SessionEvent::Locked(true)),
        Some(SessionAction::UpdateLocked(true))
    );
    assert!(!state.screen_saver_started);
    assert_eq!(
        state.handle(SessionEvent::PortalUnavailable),
        Some(SessionAction::StartScreenSaver)
    );
    assert_eq!(state.handle(SessionEvent::PortalUnavailable), None);
}

#[test]
fn session_removed_only_matches_current_session() {
    let current_path = "/org/freedesktop/login1/session/3";
    let other_path = "/org/freedesktop/login1/session/4";

    assert!(session_removed_matches(
        "3",
        current_path,
        "3",
        current_path
    ));
    assert!(!session_removed_matches(
        "3",
        current_path,
        "3",
        other_path
    ));
    assert!(!session_removed_matches(
        "3",
        current_path,
        "4",
        other_path
    ));
}

#[test]
fn activity_is_reported_inverted_and_running_continues() {
    let mut state = SessionMonitorState::default();
    assert_eq!(
        state.handle(SessionEvent::SessionActive(false)),
        Some(SessionAction::UpdateInactive(true))
    );
    assert_eq!(portal_action(SessionState::Running), PortalAction::Continue);
    assert_eq!(portal_action(SessionState::Ending), PortalAction::EndSession);
    assert!(!state.exit_requested);
}
