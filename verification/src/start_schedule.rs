//! When a renderer is (re)started: pending starts per renderer, how a new
//! request coalesces with a pending one, the bound on process restarts,
//! and what a start deadline leads to.

use vstd::prelude::*;
use crate::slot::{
    next_slot_state, PendingRendererStart, RendererExitSnapshot, RendererLifecycleEvent,
    RendererLifecycleState, RendererSlot, RendererStartCause, RendererTransition,
};

verus! {

/// Delay before an automatic-replay resume starts a renderer (ms).
pub const AUTO_REPLAY_START_DELAY_MS: u64 = 2000;

/// What a start request did to the slot's pending start.
#[derive(Debug, Clone, Copy, PartialEq, Eq, Structural)]
pub enum StartRequestOutcome {
    /// No start is pending any more; its deadline is cancelled.
    Cleared,
    /// The pending start stays as it was; nothing else happens.
    Unchanged,
    /// The pending start with this token is to be advanced now.
    Advance(u64),
}

/// The earliest start time for a cause (ms on the monotonic clock).
pub open spec fn not_before_for(cause: RendererStartCause, now_ms: u64, retry_delay_ms: u64) -> int {
    match cause {
        RendererStartCause::AutoReplayResume => now_ms + AUTO_REPLAY_START_DELAY_MS,
        RendererStartCause::ProcessRestart => now_ms + retry_delay_ms,
        _ => now_ms as int,
    }
}

pub open spec fn is_restart(c: RendererStartCause) -> bool {
    c == RendererStartCause::ProcessRestart
}

/// The slot's pending start, restart count and token counter after a
/// start request, and the outcome. `has_demand`: an enabled link of the
/// renderer reaches a connected display; `retry_delay_ms`: the back-off
/// for the next restart.
pub open spec fn spec_request_start(
    pending: Option<PendingRendererStart>,
    restart_failures: u32,
    counter: u64,
    has_demand: bool,
    cause: RendererStartCause,
    now_ms: u64,
    retry_delay_ms: u64,
    max_restart_failures: u32,
) -> (Option<PendingRendererStart>, u32, u64, StartRequestOutcome) {
    if !has_demand {
        (None, restart_failures, counter, StartRequestOutcome::Cleared)
    } else if is_restart(cause) && pending is Some && is_restart(pending->0.cause) {
        (pending, restart_failures, counter, StartRequestOutcome::Advance(pending->0.token))
    } else if is_restart(cause) && restart_failures >= max_restart_failures {
        (None, restart_failures, counter, StartRequestOutcome::Cleared)
    } else {
        let base = not_before_for(cause, now_ms, retry_delay_ms);
        let coalesced = match pending {
            Some(current) => !cause.spec_preempts_pending() && !(is_restart(current.cause)
                || is_restart(cause)),
            None => false,
        };
        if coalesced {
            (pending, restart_failures, counter, StartRequestOutcome::Unchanged)
        } else {
            let (next_cause, not_before) = match pending {
                Some(current) => if !cause.spec_preempts_pending() && (is_restart(current.cause)
                    || is_restart(cause)) {
                    (
                        RendererStartCause::ProcessRestart,
                        if current.not_before_ms > base {
                            current.not_before_ms as int
                        } else {
                            base
                        },
                    )
                } else {
                    (cause, base)
                },
                None => (cause, base),
            };
            let failures = if is_restart(cause) {
                if restart_failures == u32::MAX {
                    restart_failures
                } else {
                    (restart_failures + 1) as u32
                }
            } else {
                restart_failures
            };
            let token = (counter + 1) as u64;
            (
                Some(
                    PendingRendererStart {
                        cause: next_cause,
                        not_before_ms: not_before as u64,
                        token,
                    },
                ),
                failures,
                token,
                StartRequestOutcome::Advance(token),
            )
        }
    }
}

/// Applies a start request to a slot. `counter` is the router's start-token
/// counter; a new pending start takes its next value.
pub fn request_start<S>(
    slot: &mut RendererSlot<S>,
    counter: &mut u64,
    has_demand: bool,
    cause: RendererStartCause,
    now_ms: u64,
    retry_delay_ms: u64,
    max_restart_failures: u32,
) -> (r: StartRequestOutcome)
    requires
        *old(counter) < u64::MAX,
        now_ms + AUTO_REPLAY_START_DELAY_MS <= u64::MAX,
        now_ms + retry_delay_ms <= u64::MAX,
    ensures
        (final(slot).pending_start, final(slot).restart_failures, *final(counter), r)
            == spec_request_start(
            old(slot).pending_start,
            old(slot).restart_failures,
            *old(counter),
            has_demand,
            cause,
            now_ms,
            retry_delay_ms,
            max_restart_failures,
        ),
        final(slot).state == old(slot).state,
        final(slot).active_start_token == old(slot).active_start_token,
        final(slot).spec_revision == old(slot).spec_revision,
        final(slot).spawn_request == old(slot).spawn_request,
        final(slot).name == old(slot).name,
{
    if !has_demand {
        slot.pending_start = None;
        return StartRequestOutcome::Cleared;
    }
    let restart = cause == RendererStartCause::ProcessRestart;
    match slot.pending_start {
        Some(p) => if restart && p.cause == RendererStartCause::ProcessRestart {
            return StartRequestOutcome::Advance(p.token);
        },
        None => {},
    }
    if restart && slot.restart_failures >= max_restart_failures {
        slot.pending_start = None;
        return StartRequestOutcome::Cleared;
    }
    let base: u64 = match cause {
        RendererStartCause::AutoReplayResume => now_ms + AUTO_REPLAY_START_DELAY_MS,
        RendererStartCause::ProcessRestart => now_ms + retry_delay_ms,
        _ => now_ms,
    };
    let mut next_cause = cause;
    let mut not_before = base;
    match slot.pending_start {
        Some(current) => {
            if !cause.preempts_pending() {
                if current.cause == RendererStartCause::ProcessRestart || restart {
                    next_cause = RendererStartCause::ProcessRestart;
                    if current.not_before_ms > not_before {
                        not_before = current.not_before_ms;
                    }
                } else {
                    return StartRequestOutcome::Unchanged;
                }
            }
        },
        None => {},
    }
    if restart {
        slot.restart_failures = if slot.restart_failures == u32::MAX {
            u32::MAX
        } else {
            slot.restart_failures + 1
        };
    }
    *counter = *counter + 1;
    let token = *counter;
    slot.pending_start = Some(PendingRendererStart { cause: next_cause, not_before_ms: not_before, token });
    StartRequestOutcome::Advance(token)
}

/// What a pending start leads to when it is looked at.
#[derive(Debug, Clone, Copy, PartialEq, Eq, Structural)]
pub enum AdvanceDecision {
    /// No pending start with that token: nothing to do.
    Ignore,
    /// The pending start is dropped and its deadline cancelled.
    Cancel,
    /// Not yet: wake up at the pending start's time.
    Schedule(PendingRendererStart),
    /// A process is still around: wait for it.
    Wait,
    /// Start now: reserve a process generation and call `start_ready`.
    Ready(PendingRendererStart),
}

pub open spec fn spec_advance(
    state: RendererLifecycleState,
    pending: Option<PendingRendererStart>,
    token: u64,
    has_demand: bool,
    has_live_handle: bool,
    now_ms: u64,
) -> (Option<PendingRendererStart>, AdvanceDecision) {
    match pending {
        None => (pending, AdvanceDecision::Ignore),
        Some(p) => if p.token != token {
            (pending, AdvanceDecision::Ignore)
        } else if !has_demand {
            (None, AdvanceDecision::Cancel)
        } else if p.not_before_ms > now_ms {
            (pending, AdvanceDecision::Schedule(p))
        } else if state is Running {
            (None, AdvanceDecision::Cancel)
        } else if has_live_handle || state is Starting || state is Stopping {
            (pending, AdvanceDecision::Wait)
        } else {
            (pending, AdvanceDecision::Ready(p))
        },
    }
}

/// Looks at the pending start with `token` at `now_ms`.
pub fn advance_decision<S>(
    slot: &mut RendererSlot<S>,
    token: u64,
    has_demand: bool,
    has_live_handle: bool,
    now_ms: u64,
) -> (r: AdvanceDecision)
    ensures
        (final(slot).pending_start, r) == spec_advance(
            old(slot).state,
            old(slot).pending_start,
            token,
            has_demand,
            has_live_handle,
            now_ms,
        ),
        final(slot).state == old(slot).state,
        final(slot).active_start_token == old(slot).active_start_token,
        final(slot).restart_failures == old(slot).restart_failures,
        final(slot).spec_revision == old(slot).spec_revision,
        final(slot).spawn_request == old(slot).spawn_request,
        final(slot).name == old(slot).name,
{
    let p = match slot.pending_start {
        None => {
            return AdvanceDecision::Ignore;
        },
        Some(p) => p,
    };
    if p.token != token {
        return AdvanceDecision::Ignore;
    }
    if !has_demand {
        slot.pending_start = None;
        return AdvanceDecision::Cancel;
    }
    if p.not_before_ms > now_ms {
        return AdvanceDecision::Schedule(p);
    }
    if slot.state.is_running() {
        slot.pending_start = None;
        return AdvanceDecision::Cancel;
    }
    let busy = match slot.state {
        RendererLifecycleState::Starting { .. } | RendererLifecycleState::Stopping { .. } => true,
        _ => false,
    };
    if has_live_handle || busy {
        return AdvanceDecision::Wait;
    }
    AdvanceDecision::Ready(p)
}

/// A start to perform.
#[derive(Debug, Clone, Copy, PartialEq, Eq, Structural)]
pub struct StartEffect {
    pub process_generation: u64,
    pub spec_revision: u64,
    pub start_token: u64,
    pub cause: RendererStartCause,
}

/// Moves a slot whose pending start is ready to `Starting` with a freshly
/// reserved process generation; the pending start is consumed either way.
/// `None` when the lifecycle refuses the start (the pending start is then
/// cancelled).
pub fn start_ready<S>(slot: &mut RendererSlot<S>, pending: PendingRendererStart, generation: u64) -> (r:
    Option<StartEffect>)
    ensures
        ({
            let (state, token, transition) = next_slot_state(
                old(slot).state,
                old(slot).active_start_token,
                RendererLifecycleEvent::StartRequested {
                    generation,
                    start_token: pending.token,
                    reactivate_failed: pending.cause.spec_allows_failed(),
                },
            );
            &&& final(slot).state == state
            &&& final(slot).active_start_token == token
            &&& final(slot).pending_start is None
            &&& transition == RendererTransition::Changed ==> r == Some(
                StartEffect {
                    process_generation: generation,
                    spec_revision: old(slot).spec_revision,
                    start_token: pending.token,
                    cause: pending.cause,
                },
            )
            &&& transition != RendererTransition::Changed ==> r is None
        }),
        final(slot).restart_failures == old(slot).restart_failures,
        final(slot).spec_revision == old(slot).spec_revision,
        final(slot).spawn_request == old(slot).spawn_request,
        final(slot).name == old(slot).name,
{
    let transition = slot.transition(
        RendererLifecycleEvent::StartRequested {
            generation,
            start_token: pending.token,
            reactivate_failed: pending.cause.allows_failed(),
        },
    );
    slot.pending_start = None;
    if transition != RendererTransition::Changed {
        return None;
    }
    Some(
        StartEffect {
            process_generation: generation,
            spec_revision: slot.spec_revision,
            start_token: pending.token,
            cause: pending.cause,
        },
    )
}

/// A failed spawn of the start with `start_token`: when that start is
/// still the slot's active one, the lifecycle records the failure; `true`
/// when the slot is then to be removed.
pub fn spawn_failed<S>(
    slot: &mut RendererSlot<S>,
    start_token: u64,
    generation: u64,
    failure: RendererExitSnapshot,
) -> (r: bool)
    ensures
        old(slot).active_start_token != Some(start_token) ==> !r && final(slot).state == old(
            slot,
        ).state && final(slot).active_start_token == old(slot).active_start_token,
        old(slot).active_start_token == Some(start_token) ==> ({
            let (state, token, transition) = next_slot_state(
                old(slot).state,
                old(slot).active_start_token,
                RendererLifecycleEvent::SpawnFailed { generation, failure },
            );
            &&& final(slot).state == state
            &&& final(slot).active_start_token == token
            &&& r == (transition == RendererTransition::Remove)
        }),
        final(slot).pending_start == old(slot).pending_start,
        final(slot).restart_failures == old(slot).restart_failures,
{
    let active = match slot.active_start_token {
        Some(t) => t == start_token,
        None => false,
    };
    if !active {
        return false;
    }
    slot.transition(RendererLifecycleEvent::SpawnFailed { generation, failure })
        == RendererTransition::Remove
}

/// A process of `generation` was spawned but the router refused to
/// register it (a newer start or a stop overtook it). With no live handle
/// for the renderer, a slot still starting that generation is stopped,
/// keeping its specification. Returns whether the slot now owns the stop
/// of that generation, in which case its exit is settled as the slot's own;
/// otherwise the process is a stale one to discard.
pub fn registration_refused<S>(slot: &mut RendererSlot<S>, no_live_handle: bool, generation: u64) -> (owns_stop: bool)
    ensures
        ({
            let starting = no_live_handle && old(slot).state == (RendererLifecycleState::Starting { generation });
            let (state, token, _t) = next_slot_state(
                old(slot).state,
                old(slot).active_start_token,
                RendererLifecycleEvent::StopRequested { keep: true },
            );
            &&& starting ==> final(slot).state == state && final(slot).active_start_token == token
            &&& !starting ==> final(slot).state == old(slot).state && final(slot).active_start_token
                == old(slot).active_start_token
            &&& owns_stop == (no_live_handle && final(slot).state.spec_generation() == Some(generation)
                && final(slot).state is Stopping)
        }),
        final(slot).pending_start == old(slot).pending_start,
        final(slot).restart_failures == old(slot).restart_failures,
{
    if !no_live_handle {
        return false;
    }
    let starting = match slot.state {
        RendererLifecycleState::Starting { generation: g } => g == generation,
        _ => false,
    };
    if starting {
        let _ = slot.transition(RendererLifecycleEvent::StopRequested { keep: true });
    }
    match slot.state {
        RendererLifecycleState::Stopping { generation: g, .. } => g == generation,
        _ => false,
    }
}

/// After a process exit: what happens to the renderer's start.
#[derive(Debug, Clone, Copy, PartialEq, Eq, Structural)]
pub enum ResumeAfterExit {
    /// Ask for a process restart.
    RequestRestart,
    /// Advance the pending start with this token.
    Advance(u64),
    Nothing,
}

pub open spec fn killed_and_kept(state: RendererLifecycleState) -> bool {
    state matches RendererLifecycleState::Killed { keep: true, .. }
}

/// A killed renderer that is kept asks for a restart (unless a restart is
/// already pending); any other pending start is advanced.
pub fn resume_after_exit(state: &RendererLifecycleState, pending: Option<PendingRendererStart>) -> (r:
    ResumeAfterExit)
    ensures
        r == match pending {
            Some(p) => if killed_and_kept(*state) && !is_restart(p.cause) {
                ResumeAfterExit::RequestRestart
            } else {
                ResumeAfterExit::Advance(p.token)
            },
            None => if killed_and_kept(*state) {
                ResumeAfterExit::RequestRestart
            } else {
                ResumeAfterExit::Nothing
            },
        },
{
    let killed_kept = match state {
        RendererLifecycleState::Killed { keep, .. } => *keep,
        _ => false,
    };
    match pending {
        Some(p) => if killed_kept && p.cause != RendererStartCause::ProcessRestart {
            ResumeAfterExit::RequestRestart
        } else {
            ResumeAfterExit::Advance(p.token)
        },
        None => if killed_kept {
            ResumeAfterExit::RequestRestart
        } else {
            ResumeAfterExit::Nothing
        },
    }
}

/// Restarts stop at the limit: once `max` process restarts were counted, a
/// further restart request only clears the pending start; and the count
/// moves only on restart requests.
pub proof fn law_restart_limit(
    pending: Option<PendingRendererStart>,
    failures: u32,
    counter: u64,
    cause: RendererStartCause,
    now_ms: u64,
    retry_delay_ms: u64,
    max: u32,
)
    ensures
        ({
            let (p, f, c, o) = spec_request_start(
                pending,
                failures,
                counter,
                true,
                cause,
                now_ms,
                retry_delay_ms,
                max,
            );
            &&& is_restart(cause) && failures >= max && !(pending is Some && is_restart(
                pending->0.cause,
            )) ==> o == StartRequestOutcome::Cleared && p is None && f == failures
            &&& !is_restart(cause) ==> f == failures
            &&& o is Unchanged ==> p == pending && c == counter
        }),
{
}

/// A pending start is only ever started with its own token, with demand,
/// at or after its time, and with no process of the renderer around.
pub proof fn law_start_only_when_ready(
    state: RendererLifecycleState,
    pending: Option<PendingRendererStart>,
    token: u64,
    has_demand: bool,
    has_live_handle: bool,
    now_ms: u64,
)
    ensures
        spec_advance(state, pending, token, has_demand, has_live_handle, now_ms).1 is Ready ==> ({
            let p = spec_advance(state, pending, token, has_demand, has_live_handle, now_ms).1->Ready_0;
            pending == Some(p) && p.token == token && has_demand && p.not_before_ms <= now_ms
                && !has_live_handle && !state.spec_has_process()
        }),
{
}

} // verus!
