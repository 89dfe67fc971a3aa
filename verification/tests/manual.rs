use waywallen::manual::{ManualControls, ManualLifecycleState, PausedRenderers};

#[test]
fn manual_switches_report_changes() {
    let mut controls = ManualControls::new();
    assert!(!controls.set_manual_pause(false));
    assert!(controls.set_manual_pause(true));
    assert!(!controls.set_manual_pause(true));
    assert!(!controls.toggle_manual_pause());
    assert!(controls.toggle_manual_pause());
    assert!(controls.set_manual_mute(true));
    assert!(!controls.toggle_manual_mute());
    assert!(controls.set_manual_stop(true));
    assert!(!controls.set_manual_stop(true));
    assert!(controls.set_other_playback_active(true));
    assert!(!controls.set_other_playback_active(true));
    assert_eq!(
        controls.manual_lifecycle_state(),
        ManualLifecycleState { paused: true, muted: false, stopped: true }
    );
    assert!(controls.other_playback_active);
}

#[test]
fn renderers_paused_by_hand() {
    let mut paused = PausedRenderers::new();
    assert!(!paused.contains("r1"));
    assert!(paused.set_paused("r1", true));
    assert!(!paused.set_paused("r1", true));
    assert!(paused.set_paused("r2", true));
    assert!(paused.contains("r1") && paused.contains("r2"));
    assert!(paused.set_paused("r1", false));
    assert!(!paused.set_paused("r1", false));
    assert!(!paused.contains("r1"));
    assert!(paused.contains("r2"));
}
