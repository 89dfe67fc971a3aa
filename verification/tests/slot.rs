use waywallen::slot::{
    RendererActivity, RendererExitSnapshot, RendererLifecycleEvent, RendererLifecycleState,
    RendererProcessExitKind, RendererSlot, RendererStartCause, RendererTransition,
};

fn exit(reason: &str) -> RendererExitSnapshot {
    RendererExitSnapshot {
        code: None,
        signal: None,
        reason: reason.into(),
    }
}

fn slot(state: RendererLifecycleState) -> RendererSlot<()> {
    RendererSlot {
        spawn_request: (),
        name: "image".into(),
        spec_revision: 1,
        state,
        restart_failures: 0,
        pending_start: None,
        active_start_token: None,
    }
}

#[test]
fn keep_is_carried_through_stop_completion() {
    let mut slot = slot(RendererLifecycleState::Running {
        generation: 7,
        activity: RendererActivity::Playing,
    });
    assert_eq!(
        slot.transition(RendererLifecycleEvent::StopRequested { keep: true }),
        RendererTransition::Changed
    );
    assert_eq!(
        slot.transition(RendererLifecycleEvent::ProcessExited {
            generation: 7,
            kind: RendererProcessExitKind::Stopped,
            exit: exit("stopped"),
        }),
        RendererTransition::Changed
    );
    assert!(matches!(
        slot.state,
        RendererLifecycleState::Stopped { keep: true, .. }
    ));
}

#[test]
fn drop_is_irreversible_while_stopping() {
    let mut slot = slot(RendererLifecycleState::Stopping {
        generation: 7,
        keep: true,
    });
    assert_eq!(
        slot.transition(RendererLifecycleEvent::StopRequested { keep: false }),
        RendererTransition::Changed
    );
    assert_eq!(
        slot.transition(RendererLifecycleEvent::StopRequested { keep: true }),
        RendererTransition::Unchanged
    );
    assert!(matches!(
        slot.state,
        RendererLifecycleState::Stopping { keep: false, .. }
    ));
}

#[test]
fn failed_requires_explicit_reactivation() {
    let mut slot = slot(RendererLifecycleState::Failed {
        failure: exit("failed"),
    });
    assert_eq!(
        slot.transition(RendererLifecycleEvent::StartRequested {
            generation: 8,
            start_token: 1,
            reactivate_failed: false,
        }),
        RendererTransition::Unchanged
    );
    assert_eq!(
        slot.transition(RendererLifecycleEvent::StartRequested {
            generation: 8,
            start_token: 2,
            reactivate_failed: true,
        }),
        RendererTransition::Changed
    );
    assert!(matches!(
        slot.state,
        RendererLifecycleState::Starting { generation: 8 }
    ));
}

#[test]
fn replacing_failed_spec_makes_it_startable() {
    let mut slot = slot(RendererLifecycleState::Failed {
        failure: exit("failed"),
    });
    assert_eq!(
        slot.transition(RendererLifecycleEvent::SpecReplaced {
            reactivate_failed: true,
        }),
        RendererTransition::Changed
    );
    assert!(matches!(
        slot.state,
        RendererLifecycleState::Stopped {
            keep: true,
            last_exit: None
        }
    ));
}

#[test]
fn stale_exit_does_not_replace_current_generation() {
    let mut slot = slot(RendererLifecycleState::Running {
        generation: 8,
        activity: RendererActivity::Playing,
    });
    assert_eq!(
        slot.transition(RendererLifecycleEvent::ProcessExited {
            generation: 7,
            kind: RendererProcessExitKind::Failed,
            exit: exit("stale"),
        }),
        RendererTransition::Unchanged
    );
    assert!(matches!(
        slot.state,
        RendererLifecycleState::Running { generation: 8, .. }
    ));
}

#[test]
fn constructors_and_spec_replacement() {
    let running = RendererSlot::running(5u8, "video".to_string(), 3);
    assert_eq!(running.state.generation(), Some(3));
    assert!(running.state.is_running());
    assert!(running.state.has_process());
    let mut kept = RendererSlot::retained(1u8, "image".to_string());
    assert_eq!(kept.state.as_str(), "stopped");
    kept.restart_failures = 4;
    kept.replace_spec(2u8, "image2".to_string(), false);
    assert_eq!(kept.spec_revision, 2);
    assert_eq!(kept.restart_failures, 0);
    assert_eq!(kept.spawn_request, 2);
    assert!(RendererStartCause::ExplicitSpawn.allows_failed());
    assert!(!RendererStartCause::ProcessRestart.allows_failed());
    assert!(RendererStartCause::ManualStopResume.preempts_pending());
}
