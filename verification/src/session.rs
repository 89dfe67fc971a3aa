//! Desktop-session decisions: what the daemon does on lock, activity and
//! session-end signals, with each session end acted on once.

use vstd::prelude::*;
use crate::text::str_eq;

verus! {

/// A signal from one of the session watchers.
#[derive(Debug, Clone, Copy, PartialEq, Eq, Structural)]
pub enum SessionEvent {
    Locked(bool),
    SessionActive(bool),
    PortalUnavailable,
    PortalSessionEnding,
    LoginSessionRemoved,
}

/// Why the daemon stops.
#[derive(Debug, Clone, Copy, PartialEq, Eq, Structural)]
pub enum ExitReason {
    DaemonShutdown,
    PortalSessionEnding,
    LoginSessionRemoved,
}

/// What the session monitor does next.
#[derive(Debug, Clone, Copy, PartialEq, Eq, Structural)]
pub enum SessionAction {
    UpdateLocked(bool),
    UpdateInactive(bool),
    StartScreenSaver,
    Exit(ExitReason),
}

/// What the monitor has already done.
#[derive(Debug, Clone, Copy, PartialEq, Eq, Structural)]
pub struct SessionMonitorState {
    pub screen_saver_started: bool,
    pub exit_requested: bool,
}

/// The monitor's rule: the state after `event` and the action to take.
pub open spec fn session_step(s: SessionMonitorState, event: SessionEvent) -> (
    SessionMonitorState,
    Option<SessionAction>,
) {
    match event {
        SessionEvent::Locked(active) => (s, Some(SessionAction::UpdateLocked(active))),
        SessionEvent::SessionActive(active) => (s, Some(SessionAction::UpdateInactive(!active))),
        SessionEvent::PortalUnavailable => if !s.screen_saver_started {
            (
                SessionMonitorState { screen_saver_started: true, ..s },
                Some(SessionAction::StartScreenSaver),
            )
        } else {
            (s, None)
        },
        SessionEvent::PortalSessionEnding => if !s.exit_requested {
            (
                SessionMonitorState { exit_requested: true, ..s },
                Some(SessionAction::Exit(ExitReason::PortalSessionEnding)),
            )
        } else {
            (s, None)
        },
        SessionEvent::LoginSessionRemoved => if !s.exit_requested {
            (
                SessionMonitorState { exit_requested: true, ..s },
                Some(SessionAction::Exit(ExitReason::LoginSessionRemoved)),
            )
        } else {
            (s, None)
        },
    }
}

impl Default for SessionMonitorState {
    fn default() -> (r: Self)
        ensures
            !r.screen_saver_started && !r.exit_requested,
    {
        SessionMonitorState { screen_saver_started: false, exit_requested: false }
    }
}

impl SessionMonitorState {
    /// Decides the action for one event.
    pub fn handle(&mut self, event: SessionEvent) -> (r: Option<SessionAction>)
        ensures
            (*final(self), r) == session_step(*old(self), event),
    {
        match event {
            SessionEvent::Locked(active) => Some(SessionAction::UpdateLocked(active)),
            SessionEvent::SessionActive(active) => Some(SessionAction::UpdateInactive(!active)),
            SessionEvent::PortalUnavailable => {
                if !self.screen_saver_started {
                    self.screen_saver_started = true;
                    Some(SessionAction::StartScreenSaver)
                } else {
                    None
                }
            },
            SessionEvent::PortalSessionEnding => {
                if !self.exit_requested {
                    self.exit_requested = true;
                    Some(SessionAction::Exit(ExitReason::PortalSessionEnding))
                } else {
                    None
                }
            },
            SessionEvent::LoginSessionRemoved => {
                if !self.exit_requested {
                    self.exit_requested = true;
                    Some(SessionAction::Exit(ExitReason::LoginSessionRemoved))
                } else {
                    None
                }
            },
        }
    }
}

/// The states and actions of a run of events from `s`.
pub open spec fn session_run(s: SessionMonitorState, events: Seq<SessionEvent>) -> (
    SessionMonitorState,
    Seq<Option<SessionAction>>,
)
    decreases events.len(),
{
    if events.len() == 0 {
        (s, Seq::empty())
    } else {
        let (mid, actions) = session_run(s, events.drop_last());
        let (next, action) = session_step(mid, events.last());
        (next, actions.push(action))
    }
}

/// Whether an action ends the daemon.
pub open spec fn is_exit(a: Option<SessionAction>) -> bool {
    a matches Some(SessionAction::Exit(_))
}

/// Over any run of events from a fresh monitor, at most one action is an
/// exit and at most one starts the screen-saver watcher; the flags record
/// whether each has happened.
pub proof fn law_session_end_acted_on_once(events: Seq<SessionEvent>)
    ensures
        ({
            let (last, actions) = session_run(
                SessionMonitorState { screen_saver_started: false, exit_requested: false },
                events,
            );
            &&& actions.len() == events.len()
            &&& forall|i: int, j: int|
                0 <= i < j < actions.len() && is_exit(#[trigger] actions[i]) ==> !is_exit(#[trigger] actions[j])
            &&& forall|i: int, j: int|
                0 <= i < j < actions.len() && #[trigger] actions[i] == Some(
                    SessionAction::StartScreenSaver,
                ) ==> #[trigger] actions[j] != Some(SessionAction::StartScreenSaver)
            &&& last.exit_requested <==> exists|i: int|
                0 <= i < actions.len() && is_exit(#[trigger] actions[i])
            &&& last.screen_saver_started <==> exists|i: int|
                0 <= i < actions.len() && #[trigger] actions[i] == Some(SessionAction::StartScreenSaver)
        }),
    decreases events.len(),
{
    if events.len() > 0 {
        law_session_end_acted_on_once(events.drop_last());
        let (mid, prev) = session_run(
            SessionMonitorState { screen_saver_started: false, exit_requested: false },
            events.drop_last(),
        );
        let (next, action) = session_step(mid, events.last());
        let actions = prev.push(action);
        assert forall|i: int| 0 <= i < prev.len() implies #[trigger] actions[i] == prev[i] by {}
        if exists|i: int| 0 <= i < actions.len() && is_exit(#[trigger] actions[i]) {
            let i = choose|i: int| 0 <= i < actions.len() && is_exit(#[trigger] actions[i]);
            if i < prev.len() {
                assert(prev[i] == actions[i]);
            }
        }
        if exists|i: int| 0 <= i < actions.len() && #[trigger] actions[i] == Some(SessionAction::StartScreenSaver) {
            let i = choose|i: int| 0 <= i < actions.len() && #[trigger] actions[i] == Some(SessionAction::StartScreenSaver);
            if i < prev.len() {
                assert(prev[i] == actions[i]);
            }
        }
        if mid.exit_requested {
            let i = choose|i: int| 0 <= i < prev.len() && is_exit(#[trigger] prev[i]);
            assert(actions[i] == prev[i]);
        }
        if mid.screen_saver_started {
            let i = choose|i: int| 0 <= i < prev.len() && #[trigger] prev[i] == Some(SessionAction::StartScreenSaver);
            assert(actions[i] == prev[i]);
        }
    }
}

/// State of the desktop session as the portal reports it.
#[derive(Debug, Clone, Copy, PartialEq, Eq, Structural)]
pub enum SessionState {
    Running,
    QueryEnd,
    Ending,
}

/// What the portal watcher does on a session-state change.
#[derive(Debug, Clone, Copy, PartialEq, Eq, Structural)]
pub enum PortalAction {
    Continue,
    AcknowledgeQueryEnd,
    EndSession,
}

/// A query for the session's end is acknowledged without leaving; only an
/// ending session ends the daemon.
pub fn portal_action(state: SessionState) -> (r: PortalAction)
    ensures
        r == match state {
            SessionState::Running => PortalAction::Continue,
            SessionState::QueryEnd => PortalAction::AcknowledgeQueryEnd,
            SessionState::Ending => PortalAction::EndSession,
        },
{
    match state {
        SessionState::Running => PortalAction::Continue,
        SessionState::QueryEnd => PortalAction::AcknowledgeQueryEnd,
        SessionState::Ending => PortalAction::EndSession,
    }
}

/// Whether a removed login session is the daemon's own: same id and same
/// object path.
pub fn session_removed_matches(
    current_id: &str,
    current_path: &str,
    removed_id: &str,
    removed_path: &str,
) -> (r: bool)
    ensures
        r == (current_id@ == removed_id@ && current_path@ == removed_path@),
{
    str_eq(current_id, removed_id) && str_eq(current_path, removed_path)
}

} // verus!
