use waywallen::consumption::{effective_display_paused, has_frame_demand, DisplayConsumption, PublishedPause};

#[test]
fn resuming_display_requests_one_frame() {
    let mut display = DisplayConsumption::new();
    assert_eq!(display.set_manual_paused(true), (true, true));
    assert!(display.display_paused());
    assert!(!display.resume_frame_requested);
    assert_eq!(display.reconcile(true, false), (false, true));
    assert_eq!(display.published_pause, Some(PublishedPause { manual: true, effective: true }));

    assert_eq!(display.set_manual_paused(false), (true, true));
    assert!(display.resume_frame_requested);
    // No renderer wants frames yet: the request waits.
    assert_eq!(display.reconcile(false, false), (false, true));
    assert!(display.resume_frame_requested);
    assert_eq!(display.reconcile(false, true), (true, false));
    assert!(!display.resume_frame_requested);
    assert_eq!(display.reconcile(false, true), (false, false));
}

#[test]
fn unchanged_manual_pause_does_nothing() {
    let mut display = DisplayConsumption::new();
    assert_eq!(display.set_manual_paused(false), (false, false));
    assert_eq!(display, DisplayConsumption::new());
}

#[test]
fn manual_and_automatic_pause_overlap() {
    let mut display = DisplayConsumption::new();
    assert_eq!(display.set_auto_paused(true), (true, true));
    // Pausing by hand a display that is already paused changes nothing else.
    assert_eq!(display.set_manual_paused(true), (true, false));
    assert_eq!(display.set_auto_paused(false), (true, false));
    assert!(display.display_paused());
    assert!(!display.resume_frame_requested);
    assert_eq!(display.set_manual_paused(false), (true, true));
    assert!(display.resume_frame_requested);
}

#[test]
fn frame_demand_needs_an_enabled_link_to_a_running_display() {
    assert!(has_frame_demand(true, Some(false)));
    assert!(!has_frame_demand(true, Some(true)));
    assert!(!has_frame_demand(true, None));
    assert!(!has_frame_demand(false, Some(false)));
}

#[test]
fn paused_renderer_pauses_its_displays_in_effect() {
    assert!(!effective_display_paused(false, false, &[]));
    assert!(!effective_display_paused(false, false, &[(false, false), (false, false)]));
    assert!(effective_display_paused(false, false, &[(false, false), (false, true)]));
    assert!(effective_display_paused(false, false, &[(true, false)]));
    assert!(effective_display_paused(true, false, &[]));
    assert!(effective_display_paused(false, true, &[]));
}
