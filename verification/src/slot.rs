//! Renderer slot lifecycle: the state a renderer is in, the events that move
//! it, and the rule that decides whether a slot is kept or removed.

use vstd::prelude::*;

verus! {

#[derive(Debug, Clone, Copy, PartialEq, Eq, Structural)]
pub enum RendererActivity {
    Playing,
    Paused,
    Muted,
}

impl RendererActivity {
    pub fn as_str(self) -> (r: &'static str)
        ensures
            r@ == match self {
                RendererActivity::Playing => "playing"@,
                RendererActivity::Paused => "paused"@,
                RendererActivity::Muted => "muted"@,
            },
    {
        match self {
            RendererActivity::Playing => "playing",
            RendererActivity::Paused => "paused",
            RendererActivity::Muted => "muted",
        }
    }
}

/// Why a renderer start was requested.
#[derive(Debug, Clone, Copy, PartialEq, Eq, Structural)]
pub enum RendererStartCause {
    ExplicitApply { preempt_pending: bool },
    ExplicitSpawn,
    AutoReplayResume,
    ManualStopResume,
    DisplayReconnect,
    ProcessRestart,
}

impl RendererStartCause {
    pub fn as_str(self) -> (r: &'static str)
        ensures
            r@ == match self {
                RendererStartCause::ExplicitApply { preempt_pending: true } => "explicit-immediate"@,
                RendererStartCause::ExplicitApply {
                    preempt_pending: false,
                } => "explicit-coalescing"@,
                RendererStartCause::ExplicitSpawn => "explicit-spawn"@,
                RendererStartCause::AutoReplayResume => "auto-replay"@,
                RendererStartCause::ManualStopResume => "manual-stop-resume"@,
                RendererStartCause::DisplayReconnect => "display-reconnect"@,
                RendererStartCause::ProcessRestart => "process-restart"@,
            },
    {
        match self {
            RendererStartCause::ExplicitApply { preempt_pending } => {
                if preempt_pending {
                    "explicit-immediate"
                } else {
                    "explicit-coalescing"
                }
            },
            RendererStartCause::ExplicitSpawn => "explicit-spawn",
            RendererStartCause::AutoReplayResume => "auto-replay",
            RendererStartCause::ManualStopResume => "manual-stop-resume",
            RendererStartCause::DisplayReconnect => "display-reconnect",
            RendererStartCause::ProcessRestart => "process-restart",
        }
    }

    pub open spec fn spec_allows_failed(self) -> bool {
        match self {
            RendererStartCause::ExplicitApply { preempt_pending } => preempt_pending,
            RendererStartCause::ExplicitSpawn | RendererStartCause::DisplayReconnect => true,
            _ => false,
        }
    }

    pub open spec fn spec_preempts_pending(self) -> bool {
        match self {
            RendererStartCause::ExplicitApply { preempt_pending } => preempt_pending,
            RendererStartCause::ExplicitSpawn
            | RendererStartCause::ManualStopResume
            | RendererStartCause::DisplayReconnect => true,
            _ => false,
        }
    }

    /// Whether this cause may start a renderer whose last run failed.
    pub fn allows_failed(self) -> (r: bool)
        ensures
            r == self.spec_allows_failed(),
    {
        match self {
            RendererStartCause::ExplicitApply { preempt_pending } => preempt_pending,
            RendererStartCause::ExplicitSpawn | RendererStartCause::DisplayReconnect => true,
            _ => false,
        }
    }

    /// Whether this cause replaces a start that is still pending.
    pub fn preempts_pending(self) -> (r: bool)
        ensures
            r == self.spec_preempts_pending(),
    {
        match self {
            RendererStartCause::ExplicitApply { preempt_pending } => preempt_pending,
            RendererStartCause::ExplicitSpawn
            | RendererStartCause::ManualStopResume
            | RendererStartCause::DisplayReconnect => true,
            _ => false,
        }
    }
}

/// A start waiting for its earliest time (milliseconds on the daemon's
/// monotonic clock).
#[derive(Debug, Clone, Copy, PartialEq, Eq, Structural)]
pub struct PendingRendererStart {
    pub cause: RendererStartCause,
    pub not_before_ms: u64,
    pub token: u64,
}

#[derive(Debug, Clone, PartialEq, Eq)]
pub struct RendererExitSnapshot {
    pub code: Option<i32>,
    pub signal: Option<i32>,
    pub reason: String,
}

/// How a renderer process ended.
#[derive(Debug, Clone, Copy, PartialEq, Eq, Structural)]
pub enum RendererProcessExitKind {
    Stopped,
    Killed,
    Failed,
}

#[derive(Debug, Clone, PartialEq, Eq)]
pub enum RendererLifecycleState {
    Starting { generation: u64 },
    Running { generation: u64, activity: RendererActivity },
    Stopping { generation: u64, keep: bool },
    Stopped { keep: bool, last_exit: Option<RendererExitSnapshot> },
    Killed { keep: bool, last_exit: RendererExitSnapshot },
    Failed { failure: RendererExitSnapshot },
}

impl RendererLifecycleState {
    pub open spec fn spec_generation(&self) -> Option<u64> {
        match self {
            RendererLifecycleState::Starting { generation } => Some(*generation),
            RendererLifecycleState::Running { generation, .. } => Some(*generation),
            RendererLifecycleState::Stopping { generation, .. } => Some(*generation),
            _ => None,
        }
    }

    pub open spec fn spec_has_process(&self) -> bool {
        self is Starting || self is Running || self is Stopping
    }

    pub fn as_str(&self) -> (r: &'static str)
        ensures
            r@ == match self {
                RendererLifecycleState::Starting { .. } => "starting"@,
                RendererLifecycleState::Running { activity, .. } => match activity {
                    RendererActivity::Playing => "playing"@,
                    RendererActivity::Paused => "paused"@,
                    RendererActivity::Muted => "muted"@,
                },
                RendererLifecycleState::Stopping { .. } => "stopping"@,
                RendererLifecycleState::Stopped { .. } => "stopped"@,
                RendererLifecycleState::Killed { .. } => "killed"@,
                RendererLifecycleState::Failed { .. } => "failed"@,
            },
    {
        match self {
            RendererLifecycleState::Starting { .. } => "starting",
            RendererLifecycleState::Running { activity, .. } => activity.as_str(),
            RendererLifecycleState::Stopping { .. } => "stopping",
            RendererLifecycleState::Stopped { .. } => "stopped",
            RendererLifecycleState::Killed { .. } => "killed",
            RendererLifecycleState::Failed { .. } => "failed",
        }
    }

    /// The process generation, while a process exists.
    pub fn generation(&self) -> (r: Option<u64>)
        ensures
            r == self.spec_generation(),
    {
        match self {
            RendererLifecycleState::Starting { generation } => Some(*generation),
            RendererLifecycleState::Running { generation, .. } => Some(*generation),
            RendererLifecycleState::Stopping { generation, .. } => Some(*generation),
            _ => None,
        }
    }

    pub fn activity(&self) -> (r: Option<RendererActivity>)
        ensures
            r == match self {
                RendererLifecycleState::Running { activity, .. } => Some(*activity),
                _ => None::<RendererActivity>,
            },
    {
        match self {
            RendererLifecycleState::Running { activity, .. } => Some(*activity),
            _ => None,
        }
    }

    pub fn has_process(&self) -> (r: bool)
        ensures
            r == self.spec_has_process(),
    {
        match self {
            RendererLifecycleState::Starting { .. } => true,
            RendererLifecycleState::Running { .. } => true,
            RendererLifecycleState::Stopping { .. } => true,
            _ => false,
        }
    }

    pub fn is_running(&self) -> (r: bool)
        ensures
            r == self is Running,
    {
        match self {
            RendererLifecycleState::Running { .. } => true,
            _ => false,
        }
    }

    pub fn is_failed(&self) -> (r: bool)
        ensures
            r == self is Failed,
    {
        match self {
            RendererLifecycleState::Failed { .. } => true,
            _ => false,
        }
    }

    /// How the last process ended, once none runs.
    pub fn last_exit(&self) -> (r: Option<&RendererExitSnapshot>)
        ensures
            match self {
                RendererLifecycleState::Stopped { last_exit, .. } => match last_exit {
                    Some(e) => r == Some(e),
                    None => r is None,
                },
                RendererLifecycleState::Killed { last_exit, .. } => r == Some(last_exit),
                RendererLifecycleState::Failed { failure } => r == Some(failure),
                _ => r is None,
            },
    {
        match self {
            RendererLifecycleState::Stopped { last_exit, .. } => match last_exit {
                Some(e) => Some(e),
                None => None,
            },
            RendererLifecycleState::Killed { last_exit, .. } => Some(last_exit),
            RendererLifecycleState::Failed { failure } => Some(failure),
            _ => None,
        }
    }
}

#[derive(Debug, Clone)]
pub enum RendererLifecycleEvent {
    StartRequested { generation: u64, start_token: u64, reactivate_failed: bool },
    ProcessAttached { generation: u64 },
    ActivityResolved(RendererActivity),
    StopRequested { keep: bool },
    ProcessExited { generation: u64, kind: RendererProcessExitKind, exit: RendererExitSnapshot },
    SpawnFailed { generation: u64, failure: RendererExitSnapshot },
    SpecReplaced { reactivate_failed: bool },
}

#[derive(Debug, Clone, Copy, PartialEq, Eq, Structural)]
pub enum RendererTransition {
    Changed,
    Unchanged,
    Remove,
}

/// The lifecycle rule: the state and active start token after `event`,
/// and whether the slot changed, stayed or must be removed.
pub open spec fn next_slot_state(
    state: RendererLifecycleState,
    token: Option<u64>,
    event: RendererLifecycleEvent,
) -> (RendererLifecycleState, Option<u64>, RendererTransition) {
    let unchanged = (state, token, RendererTransition::Unchanged);
    match event {
        RendererLifecycleEvent::StartRequested { generation, start_token, reactivate_failed } => {
            let startable = match state {
                RendererLifecycleState::Stopped { keep, .. } => keep,
                RendererLifecycleState::Killed { keep, .. } => keep,
                RendererLifecycleState::Failed { .. } => reactivate_failed,
                _ => false,
            };
            if startable {
                (
                    RendererLifecycleState::Starting { generation },
                    Some(start_token),
                    RendererTransition::Changed,
                )
            } else {
                unchanged
            }
        },
        RendererLifecycleEvent::ProcessAttached { generation } => match state {
            RendererLifecycleState::Starting { generation: current } if current == generation => (
                RendererLifecycleState::Running { generation, activity: RendererActivity::Playing },
                None,
                RendererTransition::Changed,
            ),
            _ => unchanged,
        },
        RendererLifecycleEvent::ActivityResolved(activity) => match state {
            RendererLifecycleState::Running { generation, activity: current } if current
                != activity => (
                RendererLifecycleState::Running { generation, activity },
                token,
                RendererTransition::Changed,
            ),
            _ => unchanged,
        },
        RendererLifecycleEvent::StopRequested { keep } => match state {
            RendererLifecycleState::Starting { generation } => (
                RendererLifecycleState::Stopping { generation, keep },
                token,
                RendererTransition::Changed,
            ),
            RendererLifecycleState::Running { generation, .. } => (
                RendererLifecycleState::Stopping { generation, keep },
                token,
                RendererTransition::Changed,
            ),
            RendererLifecycleState::Stopping { generation, keep: current } if current && !keep => (
                RendererLifecycleState::Stopping { generation, keep: false },
                token,
                RendererTransition::Changed,
            ),
            RendererLifecycleState::Stopped { keep: current, last_exit } if current && !keep => (
                RendererLifecycleState::Stopped { keep: false, last_exit },
                token,
                RendererTransition::Remove,
            ),
            RendererLifecycleState::Killed { keep: current, last_exit } if current && !keep => (
                RendererLifecycleState::Killed { keep: false, last_exit },
                token,
                RendererTransition::Remove,
            ),
            RendererLifecycleState::Failed { .. } if !keep => (
                state,
                token,
                RendererTransition::Remove,
            ),
            _ => unchanged,
        },
        RendererLifecycleEvent::ProcessExited { generation, kind, exit } => {
            let current_keep = match state {
                RendererLifecycleState::Starting { generation: g } if g == generation => Some(true),
                RendererLifecycleState::Running { generation: g, .. } if g == generation => Some(
                    true,
                ),
                RendererLifecycleState::Stopping { generation: g, keep } if g == generation => Some(
                    keep,
                ),
                _ => None,
            };
            match current_keep {
                None => unchanged,
                Some(keep) => match kind {
                    RendererProcessExitKind::Stopped => (
                        RendererLifecycleState::Stopped { keep, last_exit: Some(exit) },
                        None,
                        if keep {
                            RendererTransition::Changed
                        } else {
                            RendererTransition::Remove
                        },
                    ),
                    RendererProcessExitKind::Killed => (
                        RendererLifecycleState::Killed { keep, last_exit: exit },
                        None,
                        if keep {
                            RendererTransition::Changed
                        } else {
                            RendererTransition::Remove
                        },
                    ),
                    RendererProcessExitKind::Failed => if keep {
                        (
                            RendererLifecycleState::Failed { failure: exit },
                            None,
                            RendererTransition::Changed,
                        )
                    } else {
                        (state, token, RendererTransition::Remove)
                    },
                },
            }
        },
        RendererLifecycleEvent::SpawnFailed { generation, failure } => {
            let current_keep = match state {
                RendererLifecycleState::Starting { generation: g } if g == generation => Some(true),
                RendererLifecycleState::Stopping { generation: g, keep } if g == generation => Some(
                    keep,
                ),
                _ => None,
            };
            match current_keep {
                None => unchanged,
                Some(keep) => if keep {
                    (
                        RendererLifecycleState::Failed { failure },
                        None,
                        RendererTransition::Changed,
                    )
                } else {
                    (state, token, RendererTransition::Remove)
                },
            }
        },
        RendererLifecycleEvent::SpecReplaced { reactivate_failed } => {
            let resettable = match state {
                RendererLifecycleState::Stopped { keep, .. } => keep,
                RendererLifecycleState::Killed { keep, .. } => keep,
                RendererLifecycleState::Failed { .. } => reactivate_failed,
                _ => false,
            };
            if resettable {
                (
                    RendererLifecycleState::Stopped { keep: true, last_exit: None },
                    token,
                    RendererTransition::Changed,
                )
            } else {
                unchanged
            }
        },
    }
}

/// Applies one lifecycle event to a state and its active start token.
pub fn lifecycle_step(
    state: RendererLifecycleState,
    token: Option<u64>,
    event: RendererLifecycleEvent,
) -> (r: (RendererLifecycleState, Option<u64>, RendererTransition))
    ensures
        r == next_slot_state(state, token, event),
{
    let ghost s0 = state;
    match event {
        RendererLifecycleEvent::StartRequested { generation, start_token, reactivate_failed } => {
            let startable = match &state {
                RendererLifecycleState::Stopped { keep, .. } => *keep,
                RendererLifecycleState::Killed { keep, .. } => *keep,
                RendererLifecycleState::Failed { .. } => reactivate_failed,
                _ => false,
            };
            if startable {
                (
                    RendererLifecycleState::Starting { generation },
                    Some(start_token),
                    RendererTransition::Changed,
                )
            } else {
                (state, token, RendererTransition::Unchanged)
            }
        },
        RendererLifecycleEvent::ProcessAttached { generation } => {
            let attach = match &state {
                RendererLifecycleState::Starting { generation: current } => *current == generation,
                _ => false,
            };
            if attach {
                (
                    RendererLifecycleState::Running {
                        generation,
                        activity: RendererActivity::Playing,
                    },
                    None,
                    RendererTransition::Changed,
                )
            } else {
                (state, token, RendererTransition::Unchanged)
            }
        },
        RendererLifecycleEvent::ActivityResolved(activity) => {
            let running = match &state {
                RendererLifecycleState::Running { generation, activity: current } => {
                    if *current != activity {
                        Some(*generation)
                    } else {
                        None
                    }
                },
                _ => None,
            };
            match running {
                Some(generation) => (
                    RendererLifecycleState::Running { generation, activity },
                    token,
                    RendererTransition::Changed,
                ),
                None => (state, token, RendererTransition::Unchanged),
            }
        },
        RendererLifecycleEvent::StopRequested { keep } => match state {
            RendererLifecycleState::Starting { generation } => (
                RendererLifecycleState::Stopping { generation, keep },
                token,
                RendererTransition::Changed,
            ),
            RendererLifecycleState::Running { generation, .. } => (
                RendererLifecycleState::Stopping { generation, keep },
                token,
                RendererTransition::Changed,
            ),
            RendererLifecycleState::Stopping { generation, keep: current } => {
                if current && !keep {
                    (
                        RendererLifecycleState::Stopping { generation, keep: false },
                        token,
                        RendererTransition::Changed,
                    )
                } else {
                    (
                        RendererLifecycleState::Stopping { generation, keep: current },
                        token,
                        RendererTransition::Unchanged,
                    )
                }
            },
            RendererLifecycleState::Stopped { keep: current, last_exit } => {
                if current && !keep {
                    (
                        RendererLifecycleState::Stopped { keep: false, last_exit },
                        token,
                        RendererTransition::Remove,
                    )
                } else {
                    (
                        RendererLifecycleState::Stopped { keep: current, last_exit },
                        token,
                        RendererTransition::Unchanged,
                    )
                }
            },
            RendererLifecycleState::Killed { keep: current, last_exit } => {
                if current && !keep {
                    (
                        RendererLifecycleState::Killed { keep: false, last_exit },
                        token,
                        RendererTransition::Remove,
                    )
                } else {
                    (
                        RendererLifecycleState::Killed { keep: current, last_exit },
                        token,
                        RendererTransition::Unchanged,
                    )
                }
            },
            RendererLifecycleState::Failed { failure } => {
                if !keep {
                    (RendererLifecycleState::Failed { failure }, token, RendererTransition::Remove)
                } else {
                    (
                        RendererLifecycleState::Failed { failure },
                        token,
                        RendererTransition::Unchanged,
                    )
                }
            },
        },
        RendererLifecycleEvent::ProcessExited { generation, kind, exit } => {
            let current_keep = match &state {
                RendererLifecycleState::Starting { generation: g } => {
                    if *g == generation {
                        Some(true)
                    } else {
                        None
                    }
                },
                RendererLifecycleState::Running { generation: g, .. } => {
                    if *g == generation {
                        Some(true)
                    } else {
                        None
                    }
                },
                RendererLifecycleState::Stopping { generation: g, keep } => {
                    if *g == generation {
                        Some(*keep)
                    } else {
                        None
                    }
                },
                _ => None,
            };
            match current_keep {
                None => (state, token, RendererTransition::Unchanged),
                Some(keep) => {
                    let outcome = if keep {
                        RendererTransition::Changed
                    } else {
                        RendererTransition::Remove
                    };
                    match kind {
                        RendererProcessExitKind::Stopped => (
                            RendererLifecycleState::Stopped { keep, last_exit: Some(exit) },
                            None,
                            outcome,
                        ),
                        RendererProcessExitKind::Killed => (
                            RendererLifecycleState::Killed { keep, last_exit: exit },
                            None,
                            outcome,
                        ),
                        RendererProcessExitKind::Failed => {
                            if keep {
                                (
                                    RendererLifecycleState::Failed { failure: exit },
                                    None,
                                    RendererTransition::Changed,
                                )
                            } else {
                                (state, token, RendererTransition::Remove)
                            }
                        },
                    }
                },
            }
        },
        RendererLifecycleEvent::SpawnFailed { generation, failure } => {
            let current_keep = match &state {
                RendererLifecycleState::Starting { generation: g } => {
                    if *g == generation {
                        Some(true)
                    } else {
                        None
                    }
                },
                RendererLifecycleState::Stopping { generation: g, keep } => {
                    if *g == generation {
                        Some(*keep)
                    } else {
                        None
                    }
                },
                _ => None,
            };
            match current_keep {
                None => (state, token, RendererTransition::Unchanged),
                Some(keep) => {
                    if keep {
                        (
                            RendererLifecycleState::Failed { failure },
                            None,
                            RendererTransition::Changed,
                        )
                    } else {
                        (state, token, RendererTransition::Remove)
                    }
                },
            }
        },
        RendererLifecycleEvent::SpecReplaced { reactivate_failed } => {
            let resettable = match &state {
                RendererLifecycleState::Stopped { keep, .. } => *keep,
                RendererLifecycleState::Killed { keep, .. } => *keep,
                RendererLifecycleState::Failed { .. } => reactivate_failed,
                _ => false,
            };
            if resettable {
                (
                    RendererLifecycleState::Stopped { keep: true, last_exit: None },
                    token,
                    RendererTransition::Changed,
                )
            } else {
                (state, token, RendererTransition::Unchanged)
            }
        },
    }
}

/// One renderer's spawn specification and lifecycle bookkeeping; `S` is the
/// spawn request the daemon replays to start the renderer.
pub struct RendererSlot<S> {
    pub spawn_request: S,
    pub name: String,
    pub spec_revision: u64,
    pub state: RendererLifecycleState,
    pub restart_failures: u32,
    pub pending_start: Option<PendingRendererStart>,
    pub active_start_token: Option<u64>,
}

impl<S> RendererSlot<S> {
    /// A slot for a renderer whose process is already running.
    pub fn running(spawn_request: S, name: String, process_generation: u64) -> (r: Self)
        ensures
            r.spawn_request == spawn_request,
            r.name == name,
            r.spec_revision == 1,
            r.state == (RendererLifecycleState::Running {
                generation: process_generation,
                activity: RendererActivity::Playing,
            }),
            r.restart_failures == 0,
            r.pending_start is None,
            r.active_start_token is None,
    {
        RendererSlot {
            spawn_request,
            name,
            spec_revision: 1,
            state: RendererLifecycleState::Running {
                generation: process_generation,
                activity: RendererActivity::Playing,
            },
            restart_failures: 0,
            pending_start: None,
            active_start_token: None,
        }
    }

    /// A kept slot with no process, ready to be started.
    pub fn retained(spawn_request: S, name: String) -> (r: Self)
        ensures
            r.spawn_request == spawn_request,
            r.name == name,
            r.spec_revision == 1,
            r.state == (RendererLifecycleState::Stopped { keep: true, last_exit: None }),
            r.restart_failures == 0,
            r.pending_start is None,
            r.active_start_token is None,
    {
        RendererSlot {
            spawn_request,
            name,
            spec_revision: 1,
            state: RendererLifecycleState::Stopped { keep: true, last_exit: None },
            restart_failures: 0,
            pending_start: None,
            active_start_token: None,
        }
    }

    /// Applies a lifecycle event; only the state and the active start token
    /// move.
    pub fn transition(&mut self, event: RendererLifecycleEvent) -> (r: RendererTransition)
        ensures
            (final(self).state, final(self).active_start_token, r) == next_slot_state(
                old(self).state,
                old(self).active_start_token,
                event,
            ),
            final(self).spawn_request == old(self).spawn_request,
            final(self).name == old(self).name,
            final(self).spec_revision == old(self).spec_revision,
            final(self).restart_failures == old(self).restart_failures,
            final(self).pending_start == old(self).pending_start,
    {
        let mut state = RendererLifecycleState::Starting { generation: 0 };
        std::mem::swap(&mut state, &mut self.state);
        let (next, token, outcome) = lifecycle_step(state, self.active_start_token, event);
        self.state = next;
        self.active_start_token = token;
        outcome
    }

    /// Installs a new spawn specification: bumps the revision (never to
    /// zero), clears the failure count and lets a kept or, when asked, a
    /// failed slot start afresh.
    pub fn replace_spec(&mut self, spawn_request: S, name: String, reactivate_failed: bool)
        ensures
            final(self).spawn_request == spawn_request,
            final(self).name == name,
            final(self).spec_revision == (if old(self).spec_revision == u64::MAX {
                1
            } else {
                old(self).spec_revision + 1
            }),
            final(self).restart_failures == 0,
            final(self).pending_start == old(self).pending_start,
            (final(self).state, final(self).active_start_token) == ({
                let n = next_slot_state(
                    old(self).state,
                    old(self).active_start_token,
                    RendererLifecycleEvent::SpecReplaced { reactivate_failed },
                );
                (n.0, n.1)
            }),
    {
        self.spawn_request = spawn_request;
        self.name = name;
        self.spec_revision = if self.spec_revision == u64::MAX {
            1
        } else {
            self.spec_revision + 1
        };
        self.restart_failures = 0;
        let _ = self.transition(RendererLifecycleEvent::SpecReplaced { reactivate_failed });
    }
}

// ---------------------------------------------------------------------------
// Laws

/// An event that leaves a slot unchanged touches neither its state nor its
/// start token.
pub proof fn law_unchanged_means_untouched(
    state: RendererLifecycleState,
    token: Option<u64>,
    event: RendererLifecycleEvent,
)
    ensures
        next_slot_state(state, token, event).2 == RendererTransition::Unchanged ==> (
        next_slot_state(state, token, event).0 == state && next_slot_state(state, token, event).1
            == token),
{
}

/// Dropping is irreversible: a slot stopping without keep stays so, or is
/// removed, whatever happens next.
pub proof fn law_drop_is_irreversible(
    generation: u64,
    token: Option<u64>,
    event: RendererLifecycleEvent,
)
    ensures
        ({
            let n = next_slot_state(
                RendererLifecycleState::Stopping { generation, keep: false },
                token,
                event,
            );
            n.2 == RendererTransition::Remove || n.0 == (RendererLifecycleState::Stopping {
                generation,
                keep: false,
            })
        }),
{
}

/// Exits, spawn failures and attachments of another process generation do
/// not touch the slot.
pub proof fn law_stale_generation_is_ignored(
    state: RendererLifecycleState,
    token: Option<u64>,
    event: RendererLifecycleEvent,
)
    requires
        match event {
            RendererLifecycleEvent::ProcessExited { generation, .. } => state.spec_generation()
                != Some(generation),
            RendererLifecycleEvent::SpawnFailed { generation, .. } => state.spec_generation()
                != Some(generation),
            RendererLifecycleEvent::ProcessAttached { generation } => state.spec_generation()
                != Some(generation),
            _ => false,
        },
    ensures
        next_slot_state(state, token, event) == (state, token, RendererTransition::Unchanged),
{
}

/// Whether `state` keeps a slot whose current process is of `generation`:
/// starting or running it, or stopping it while keeping the slot.
pub open spec fn keeps_process(state: RendererLifecycleState, generation: u64) -> bool {
    match state {
        RendererLifecycleState::Starting { generation: g } => g == generation,
        RendererLifecycleState::Running { generation: g, .. } => g == generation,
        RendererLifecycleState::Stopping { generation: g, keep } => g == generation && keep,
        _ => false,
    }
}

/// When the current process of a kept slot exits, the kind of exit decides
/// where the slot rests: an orderly exit leaves it stopped, a killed
/// process leaves it killed, a crash leaves it failed, each with the exit
/// recorded and no start active. A crashed slot then does not start on a
/// plain start request: only an explicit reactivation starts it, whereas a
/// stopped or killed one starts on any start request.
pub proof fn law_exit_kind_decides_resting_state(
    state: RendererLifecycleState,
    token: Option<u64>,
    generation: u64,
    kind: RendererProcessExitKind,
    exit: RendererExitSnapshot,
    next_generation: u64,
    start_token: u64,
)
    requires
        keeps_process(state, generation),
    ensures
        ({
            let (rest, rest_token, t) = next_slot_state(
                state,
                token,
                RendererLifecycleEvent::ProcessExited { generation, kind, exit },
            );
            let plain = next_slot_state(
                rest,
                rest_token,
                RendererLifecycleEvent::StartRequested {
                    generation: next_generation,
                    start_token,
                    reactivate_failed: false,
                },
            );
            &&& t == RendererTransition::Changed
            &&& rest_token is None
            &&& kind == RendererProcessExitKind::Stopped ==> rest == (RendererLifecycleState::Stopped {
                keep: true,
                last_exit: Some(exit),
            })
            &&& kind == RendererProcessExitKind::Killed ==> rest == (RendererLifecycleState::Killed {
                keep: true,
                last_exit: exit,
            })
            &&& kind == RendererProcessExitKind::Failed ==> rest == (RendererLifecycleState::Failed { failure: exit })
            &&& kind == RendererProcessExitKind::Failed ==> plain.2 == RendererTransition::Unchanged && plain.0 == rest
            &&& kind != RendererProcessExitKind::Failed ==> plain.0 == (RendererLifecycleState::Starting {
                generation: next_generation,
            })
        }),
{
}

/// A failed slot starts again, or is reset, only when the event asks for
/// reactivation explicitly.
pub proof fn law_failed_needs_explicit_reactivation(
    failure: RendererExitSnapshot,
    token: Option<u64>,
    event: RendererLifecycleEvent,
)
    requires
        match event {
            RendererLifecycleEvent::StartRequested { reactivate_failed, .. } => !reactivate_failed,
            RendererLifecycleEvent::SpecReplaced { reactivate_failed } => !reactivate_failed,
            _ => false,
        },
    ensures
        next_slot_state(RendererLifecycleState::Failed { failure }, token, event) == (
            RendererLifecycleState::Failed { failure },
            token,
            RendererTransition::Unchanged,
        ),
{
}

/// A slot keeps exactly its process while it has a generation.
pub proof fn law_process_iff_generation(state: RendererLifecycleState)
    ensures
        state.spec_has_process() <==> state.spec_generation() is Some,
{
}

/// A kept slot ends up stopped and kept after an orderly stop of its
/// current process.
pub proof fn law_keep_carried_through_stop(
    generation: u64,
    activity: RendererActivity,
    token: Option<u64>,
    exit: RendererExitSnapshot,
)
    ensures
        ({
            let a = next_slot_state(
                RendererLifecycleState::Running { generation, activity },
                token,
                RendererLifecycleEvent::StopRequested { keep: true },
            );
            let b = next_slot_state(
                a.0,
                a.1,
                RendererLifecycleEvent::ProcessExited {
                    generation,
                    kind: RendererProcessExitKind::Stopped,
                    exit,
                },
            );
            &&& a.2 == RendererTransition::Changed
            &&& b.2 == RendererTransition::Changed
            &&& b.0 == (RendererLifecycleState::Stopped { keep: true, last_exit: Some(exit) })
        }),
{
}

} // verus!
