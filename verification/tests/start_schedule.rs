use waywallen::slot::{
    PendingRendererStart, RendererActivity, RendererExitSnapshot, RendererLifecycleState,
    RendererSlot, RendererStartCause,
};
use waywallen::start_schedule::{
    advance_decision, registration_refused, request_start, resume_after_exit, spawn_failed, start_ready, AdvanceDecision,
    ResumeAfterExit, StartRequestOutcome, AUTO_REPLAY_START_DELAY_MS,
};

fn kept_slot() -> RendererSlot<()> {
    RendererSlot::retained((), "image".to_string())
}

#[test]
fn request_without_demand_clears_the_pending_start() {
    let mut slot = kept_slot();
    slot.pending_start = Some(PendingRendererStart {
        cause: RendererStartCause::ExplicitSpawn,
        not_before_ms: 0,
        token: 3,
    });
    let mut counter = 3;
    let outcome = request_start(&mut slot, &mut counter, false, RendererStartCause::ExplicitSpawn, 10, 0, 5);
    assert_eq!(outcome, StartRequestOutcome::Cleared);
    assert!(slot.pending_start.is_none());
    assert_eq!(counter, 3);
}

#[test]
fn auto_replay_resume_waits_and_coalesces() {
    let mut slot = kept_slot();
    let mut counter = 0;
    let now = 1_000;
    let first = request_start(&mut slot, &mut counter, true, RendererStartCause::AutoReplayResume, now, 0, 5);
    assert_eq!(first, StartRequestOutcome::Advance(1));
    assert_eq!(slot.pending_start.unwrap().not_before_ms, now + AUTO_REPLAY_START_DELAY_MS);
    let second = request_start(&mut slot, &mut counter, true, RendererStartCause::AutoReplayResume, now + 5, 0, 5);
    assert_eq!(second, StartRequestOutcome::Unchanged);
    assert_eq!(counter, 1);
    // An explicit spawn preempts the pending resume.
    let third = request_start(&mut slot, &mut counter, true, RendererStartCause::ExplicitSpawn, now + 6, 0, 5);
    assert_eq!(third, StartRequestOutcome::Advance(2));
    assert_eq!(slot.pending_start.unwrap().not_before_ms, now + 6);
}

#[test]
fn process_restarts_back_off_and_stop_at_the_limit() {
    let mut slot = kept_slot();
    let mut counter = 0;
    let o = request_start(&mut slot, &mut counter, true, RendererStartCause::ProcessRestart, 100, 50, 2);
    assert_eq!(o, StartRequestOutcome::Advance(1));
    assert_eq!(slot.restart_failures, 1);
    assert_eq!(slot.pending_start.unwrap().not_before_ms, 150);
    // A second restart request reuses the pending restart.
    let o = request_start(&mut slot, &mut counter, true, RendererStartCause::ProcessRestart, 120, 50, 2);
    assert_eq!(o, StartRequestOutcome::Advance(1));
    slot.pending_start = None;
    request_start(&mut slot, &mut counter, true, RendererStartCause::ProcessRestart, 200, 50, 2);
    assert_eq!(slot.restart_failures, 2);
    slot.pending_start = None;
    let o = request_start(&mut slot, &mut counter, true, RendererStartCause::ProcessRestart, 300, 50, 2);
    assert_eq!(o, StartRequestOutcome::Cleared);
    assert_eq!(slot.restart_failures, 2);
}

#[test]
fn a_restart_merges_into_a_pending_resume() {
    let mut slot = kept_slot();
    let mut counter = 0;
    request_start(&mut slot, &mut counter, true, RendererStartCause::AutoReplayResume, 0, 0, 5);
    let o = request_start(&mut slot, &mut counter, true, RendererStartCause::ProcessRestart, 10, 100, 5);
    assert_eq!(o, StartRequestOutcome::Advance(2));
    let pending = slot.pending_start.unwrap();
    assert_eq!(pending.cause, RendererStartCause::ProcessRestart);
    assert_eq!(pending.not_before_ms, 2_000);
}

#[test]
fn advancing_checks_token_time_demand_and_process() {
    let mut slot = kept_slot();
    let pending = PendingRendererStart { cause: RendererStartCause::ExplicitSpawn, not_before_ms: 50, token: 7 };
    slot.pending_start = Some(pending);
    assert_eq!(advance_decision(&mut slot, 6, true, false, 100), AdvanceDecision::Ignore);
    assert_eq!(advance_decision(&mut slot, 7, true, false, 10), AdvanceDecision::Schedule(pending));
    assert_eq!(advance_decision(&mut slot, 7, true, true, 100), AdvanceDecision::Wait);
    assert_eq!(advance_decision(&mut slot, 7, true, false, 100), AdvanceDecision::Ready(pending));
    let effect = start_ready(&mut slot, pending, 9).expect("started");
    assert_eq!(effect.process_generation, 9);
    assert_eq!(effect.start_token, 7);
    assert!(slot.pending_start.is_none());
    assert!(matches!(slot.state, RendererLifecycleState::Starting { generation: 9 }));
    let failed = spawn_failed(&mut slot, 7, 9, RendererExitSnapshot { code: None, signal: None, reason: "boom".into() });
    assert!(!failed);
    assert!(slot.state.is_failed());
    slot.pending_start = Some(pending);
    assert_eq!(advance_decision(&mut slot, 7, false, false, 100), AdvanceDecision::Cancel);
    assert!(slot.pending_start.is_none());
}

#[test]
fn running_renderer_drops_its_pending_start() {
    let mut slot = RendererSlot::running((), "v".to_string(), 4);
    let pending = PendingRendererStart { cause: RendererStartCause::ExplicitSpawn, not_before_ms: 0, token: 1 };
    slot.pending_start = Some(pending);
    assert_eq!(advance_decision(&mut slot, 1, true, true, 0), AdvanceDecision::Cancel);
    assert!(matches!(slot.state, RendererLifecycleState::Running { activity: RendererActivity::Playing, .. }));
}

#[test]
fn killed_and_kept_renderer_asks_for_a_restart() {
    let killed = RendererLifecycleState::Killed {
        keep: true,
        last_exit: RendererExitSnapshot { code: Some(9), signal: None, reason: "killed".into() },
    };
    assert_eq!(resume_after_exit(&killed, None), ResumeAfterExit::RequestRestart);
    let restart = PendingRendererStart { cause: RendererStartCause::ProcessRestart, not_before_ms: 0, token: 2 };
    assert_eq!(resume_after_exit(&killed, Some(restart)), ResumeAfterExit::Advance(2));
    let stopped = RendererLifecycleState::Stopped { keep: true, last_exit: None };
    assert_eq!(resume_after_exit(&stopped, None), ResumeAfterExit::Nothing);
}

#[test]
fn refused_registration_stops_a_slot_still_starting_it() {
    let mut slot = kept_slot();
    slot.state = RendererLifecycleState::Starting { generation: 4 };
    assert!(registration_refused(&mut slot, true, 4));
    assert!(matches!(slot.state, RendererLifecycleState::Stopping { generation: 4, keep: true }));

    // A live handle, or another generation, leaves the slot alone.
    let mut slot = kept_slot();
    slot.state = RendererLifecycleState::Starting { generation: 4 };
    assert!(!registration_refused(&mut slot, false, 4));
    assert!(matches!(slot.state, RendererLifecycleState::Starting { generation: 4 }));
    assert!(!registration_refused(&mut slot, true, 5));
    assert!(matches!(slot.state, RendererLifecycleState::Starting { generation: 4 }));
}
