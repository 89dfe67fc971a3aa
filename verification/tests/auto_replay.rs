use waywallen::auto_replay::{
    display_auto_paused, display_auto_stopped, global_effects, AutoAction, AutoReplayState, AutoRules,
    AutoScope, Contribution, Effects, Facts, FLAG_ACTIVE, FLAG_FULLSCREEN,
};

fn none() -> Contribution {
    Contribution { action: AutoAction::NoAction, scope: AutoScope::CurrentDisplay }
}

/// The rules of the default policy: pause the current display under a
/// fullscreen window, stop everything while the session is locked.
fn default_rules() -> AutoRules {
    AutoRules {
        any_window: none(),
        focused: none(),
        maximized: none(),
        fullscreen: Contribution { action: AutoAction::Pause, scope: AutoScope::CurrentDisplay },
        session_locked: Contribution { action: AutoAction::Stop, scope: AutoScope::AllDisplays },
        session_inactive: none(),
        resume_delay_ms: 0,
    }
}

fn facts(flags: u32) -> Facts {
    Facts {
        flags,
        session_locked: false,
        session_inactive: false,
    }
}

fn effects(pause: bool, pause_all: bool, stop: bool, stop_local: bool, mute: bool) -> Effects {
    Effects { pause, pause_all, stop, stop_local, mute }
}

#[test]
fn simultaneous_conditions_preserve_mute_and_pause() {
    let policy = AutoRules {
        focused: Contribution { action: AutoAction::Mute, scope: AutoScope::CurrentDisplay },
        ..default_rules()
    };
    let mut state = AutoReplayState::new();
    state.update(policy, facts(FLAG_ACTIVE | FLAG_FULLSCREEN), false, 1_000, false);
    assert_eq!(state.effects(), effects(true, false, false, false, true));
}

#[test]
fn scope_and_session_have_separate_owners() {
    let policy = AutoRules {
        fullscreen: Contribution { action: AutoAction::Pause, scope: AutoScope::AllDisplays },
        ..default_rules()
    };
    let mut state = AutoReplayState::new();
    let mut input = facts(FLAG_FULLSCREEN);
    input.session_locked = true;
    state.update(policy, input, false, 1_000, false);
    assert_eq!(state.effects(), effects(false, true, false, false, false));
    state.update(policy, input, true, 1_000, true);
    assert_eq!(state.effects(), effects(false, false, true, false, false));
}

#[test]
fn conditions_release_independently_and_retrigger_cancels_deadline() {
    let policy = AutoRules {
        focused: Contribution { action: AutoAction::Mute, scope: AutoScope::CurrentDisplay },
        resume_delay_ms: 100,
        ..default_rules()
    };
    let mut state = AutoReplayState::new();
    let now = 5_000;
    state.update(policy, facts(FLAG_ACTIVE | FLAG_FULLSCREEN), false, now, false);
    state.update(policy, facts(FLAG_ACTIVE), false, now, false);
    assert!(state.effects().pause && state.effects().mute);
    assert_eq!(state.next_deadline(), Some(now + 100));
    let later = now + 100;
    state.update(policy, facts(FLAG_ACTIVE), false, later, false);
    assert!(!state.effects().pause && state.effects().mute);
    state.update(policy, facts(0), false, later, false);
    state.update(policy, facts(FLAG_ACTIVE), false, later, false);
    assert!(state.next_deadline().is_none());
    assert!(state.effects().mute);
    assert_eq!(state.resume_token, 5);
}

#[test]
fn local_stop_retains_its_scope_until_resume_deadline() {
    let mut state = AutoReplayState::new();
    let policy = AutoRules {
        fullscreen: Contribution { action: AutoAction::Stop, scope: AutoScope::CurrentDisplay },
        resume_delay_ms: 100,
        ..default_rules()
    };
    let now = 7;
    state.update(policy, facts(FLAG_FULLSCREEN), false, now, false);
    assert!(state.effects().stop_local);
    assert!(!state.effects().stop);
    state.update(policy, facts(0), false, now, false);
    assert!(state.effects().stop_local);
    state.update(policy, facts(0), false, now + 100, false);
    assert!(!state.effects().stop_local);
}

#[test]
fn settings_reset_removes_old_delayed_contributions() {
    let mut state = AutoReplayState::new();
    let now = 42;
    state.update(default_rules(), facts(FLAG_FULLSCREEN), false, now, false);
    let policy = AutoRules { fullscreen: none(), ..default_rules() };
    state.update(policy, facts(FLAG_FULLSCREEN), false, now, true);
    assert_eq!(state.effects(), Effects::default());
    assert!(state.next_deadline().is_none());
}

#[test]
fn merge_is_a_union() {
    let mut a = effects(true, false, false, false, false);
    a.merge(effects(false, false, true, false, true));
    assert_eq!(a, effects(true, false, true, false, true));
    let before = a;
    a.merge(Effects::default());
    assert_eq!(a, before);
}

#[test]
fn display_pause_and_local_stop_stay_on_their_display() {
    let session = effects(false, false, false, false, false);
    let covered = effects(true, false, false, true, false);
    let muting = effects(false, true, false, false, true);
    let global = global_effects(session, &[covered, muting]);
    assert_eq!(global, effects(false, true, false, false, true));
    assert!(display_auto_paused(global, covered));
    assert!(display_auto_stopped(global, covered));
    assert!(!display_auto_stopped(global, muting));
    assert_eq!(global_effects(covered, &[]), covered);
}

#[test]
fn a_global_stop_wins_over_pauses() {
    let session = effects(false, false, true, false, false);
    let own = effects(true, true, false, false, false);
    let global = global_effects(session, &[own]);
    assert!(global.stop && global.pause_all);
    assert!(!display_auto_paused(global, own));
    assert!(display_auto_stopped(global, own));
}
