use waywallen::audio::{
    audio_service_step, AudioDispatchState, AudioServiceActions, AudioServiceEvent,
    error_kind, group_is_external, next_audio_identity, next_playback_lookup, PlaybackScan, AudioServiceState, CaptureErrorKind,
    CaptureWorker, PlaybackWorker, PulsePlaybackStream, DEFAULT_IDLE_TIMEOUT_MS, MAX_BACKOFF_MS,
};
use waywallen::subscriptions::RendererProcessOwnershipSnapshot;

fn stream(process_id: i32) -> PulsePlaybackStream {
    PulsePlaybackStream {
        index: process_id as u32,
        process_id,
        corked: 0,
        muted: 0,
        has_nonzero_volume: 1,
    }
}

/// Scans the streams as the daemon does, asking `process_group_for` only
/// when the scan needs a process group.
fn has_external_playback_with(
    streams: &[PulsePlaybackStream],
    ownership: &RendererProcessOwnershipSnapshot,
    mut process_group_for: impl FnMut(i32) -> Option<i32>,
) -> bool {
    let mut from = 0;
    loop {
        match next_playback_lookup(streams, from) {
            PlaybackScan::External => return true,
            PlaybackScan::NoExternal => return false,
            PlaybackScan::LookUp { index, process_id } => {
                if group_is_external(ownership, process_group_for(process_id)) {
                    return true;
                }
                from = index + 1;
            }
        }
    }
}

#[test]
fn active_owned_process_group_is_ignored() {
    let ownership = RendererProcessOwnershipSnapshot::from_process_groups(vec![42]);
    assert!(!has_external_playback_with(&[stream(7)], &ownership, |_| Some(42)));
}

#[test]
fn active_process_from_different_group_is_external() {
    let ownership = RendererProcessOwnershipSnapshot::from_process_groups(vec![42]);
    assert!(has_external_playback_with(&[stream(7)], &ownership, |_| Some(77)));
}

#[test]
fn missing_process_identity_is_external() {
    let ownership = RendererProcessOwnershipSnapshot::empty();
    assert!(has_external_playback_with(&[stream(0)], &ownership, |_| None));
}

#[test]
fn corked_muted_and_zero_volume_streams_are_inactive() {
    let ownership = RendererProcessOwnershipSnapshot::empty();
    let mut corked = stream(1);
    corked.corked = 1;
    let mut muted = stream(2);
    muted.muted = 1;
    let mut zero = stream(3);
    zero.has_nonzero_volume = 0;
    assert!(!has_external_playback_with(
        &[corked, muted, zero],
        &ownership,
        |_| Some(9),
    ));
}

#[test]
fn audio_identity_advances() {
    assert_eq!(next_audio_identity(None), (0, 1));
    assert_eq!(next_audio_identity(Some((3, 9))), (3, 10));
    assert_eq!(next_audio_identity(Some((3, u64::MAX))), (4, 0));
}

#[test]
fn warm_idle_reuses_then_closes_capture() {
    let mut w = CaptureWorker::new();
    let fx = w.configure(true, true, 0, DEFAULT_IDLE_TIMEOUT_MS);
    assert!(fx.clear_frames && fx.state.is_none());
    assert!(w.should_open(0));
    assert_eq!(w.opened(), AudioServiceState::Active);
    let fx = w.configure(true, false, 1_000, 100);
    assert_eq!(fx.state, Some(AudioServiceState::WarmIdle));
    assert_eq!(w.idle_deadline_ms, Some(1_100));
    assert_eq!(w.poll_timeout_ms(1_050), 50);
    let fx = w.idle_tick(1_050);
    assert!(fx.state.is_none() && w.backend_open);
    let fx = w.idle_tick(1_100);
    assert!(fx.close_backend);
    assert_eq!(fx.state, Some(AudioServiceState::Closed));
    assert!(!w.backend_open);
}

#[test]
fn missing_library_is_latched_until_demand_cycles() {
    let mut w = CaptureWorker::new();
    w.configure(true, true, 0, 0);
    assert_eq!(w.open_failed(CaptureErrorKind::LibraryUnavailable, 0), AudioServiceState::Closed);
    assert!(!w.should_open(10_000));
    w.configure(true, false, 0, 0);
    w.configure(true, true, 0, 0);
    assert!(w.should_open(0));
}

#[test]
fn transient_failures_back_off_up_to_the_limit() {
    let mut w = CaptureWorker::new();
    w.configure(true, true, 0, 0);
    assert_eq!(w.open_failed(CaptureErrorKind::ServerUnavailable, 0), AudioServiceState::Backoff);
    assert!(!w.should_open(999));
    assert!(w.should_open(1_000));
    for _ in 0..10 {
        w.open_failed(CaptureErrorKind::StreamFailed, 0);
    }
    assert_eq!(w.backoff_ms, MAX_BACKOFF_MS);
    w.opened();
    let fx = w.capture_failed(5);
    assert!(fx.close_backend && fx.clear_frames);
    assert_eq!(w.retry_deadline_ms, Some(1_005));
}

#[test]
fn disabling_capture_closes_immediately_and_preserves_demand() {
    let mut w = CaptureWorker::new();
    w.configure(true, true, 0, 0);
    w.opened();
    let fx = w.configure(false, true, 0, 0);
    assert!(fx.close_backend);
    assert_eq!(fx.state, Some(AudioServiceState::Closed));
    assert!(!w.should_open(0));
    assert!(w.shutdown() == false);
}

#[test]
fn playback_demand_opens_observer_and_closes_it_when_disabled() {
    let mut p = PlaybackWorker::new();
    assert!(!p.set_demand(true));
    assert!(p.should_open(0));
    p.opened();
    assert!(!p.should_open(0));
    assert!(p.set_demand(false));
    assert!(!p.backend_open);
    p.set_demand(true);
    p.open_failed(CaptureErrorKind::MissingSymbol, 0);
    assert!(!p.should_open(100));
    p.set_demand(false);
    p.set_demand(true);
    assert!(p.should_open(0));
    p.opened();
    p.observer_failed(10);
    assert!(!p.should_open(10));
    assert!(p.should_open(1_010));
}

#[test]
fn capture_library_codes_map_to_error_kinds() {
    assert_eq!(error_kind(1), CaptureErrorKind::LibraryUnavailable);
    assert_eq!(error_kind(2), CaptureErrorKind::MissingSymbol);
    assert_eq!(error_kind(3), CaptureErrorKind::ServerUnavailable);
    assert_eq!(error_kind(4), CaptureErrorKind::MonitorUnavailable);
    assert_eq!(error_kind(5), CaptureErrorKind::StreamFailed);
    assert_eq!(error_kind(6), CaptureErrorKind::OutOfMemory);
    assert_eq!(error_kind(0), CaptureErrorKind::Unknown);
    assert_eq!(error_kind(-1), CaptureErrorKind::Unknown);
}

#[test]
fn process_groups_are_asked_only_while_needed() {
    let ownership = RendererProcessOwnershipSnapshot::from_process_groups(vec![42]);
    let mut muted = stream(5);
    muted.muted = 1;
    let streams = [muted, stream(7), stream(8), stream(9)];
    let mut asked = Vec::new();
    let found = has_external_playback_with(&streams, &ownership, |pid| {
        asked.push(pid);
        if pid == 8 { Some(77) } else { Some(42) }
    });
    assert!(found);
    assert_eq!(asked, vec![7, 8]);
    assert_eq!(next_playback_lookup(&streams, 4), PlaybackScan::NoExternal);
    assert_eq!(next_playback_lookup(&[stream(0)], 0), PlaybackScan::External);
}

fn quiet() -> AudioServiceActions {
    AudioServiceActions { configure_capture: false, send_end: None, playback_demand: None, dispatch_frame: false }
}

#[test]
fn audio_dispatch_sends_each_window_once_in_order() {
    let mut s = AudioDispatchState { capture_enabled: true, capture_demand: true, playback_demand: false, last_sent: None };
    let tick = |frame| AudioServiceEvent::DispatchTick { latest_frame: Some(frame) };
    assert!(audio_service_step(&mut s, tick((0, 1))).dispatch_frame);
    assert_eq!(audio_service_step(&mut s, tick((0, 1))), quiet());
    assert!(audio_service_step(&mut s, tick((0, 2))).dispatch_frame);
    assert_eq!(audio_service_step(&mut s, tick((0, 1))), quiet());
    assert!(audio_service_step(&mut s, tick((1, 0))).dispatch_frame);
    assert_eq!(s.last_sent, Some((1, 0)));
    assert_eq!(audio_service_step(&mut s, AudioServiceEvent::DispatchTick { latest_frame: None }), quiet());
}

#[test]
fn disabling_capture_sends_a_fresh_end_marker() {
    let mut s = AudioDispatchState { capture_enabled: true, capture_demand: true, playback_demand: false, last_sent: Some((0, 3)) };
    let off = AudioServiceEvent::SettingsChanged { capture_enabled: false, mute_when_other_audio: true, latest_frame: Some((0, 5)) };
    let act = audio_service_step(&mut s, off);
    assert!(act.configure_capture);
    assert_eq!(act.send_end, Some((0, 6)));
    assert_eq!(act.playback_demand, Some(true));
    assert_eq!(s.last_sent, Some((0, 6)));
    // Nothing is sent while capture is off.
    assert_eq!(audio_service_step(&mut s, AudioServiceEvent::DispatchTick { latest_frame: Some((0, 7)) }), quiet());
    // Switching it on again skips what was captured before.
    let on = AudioServiceEvent::SettingsChanged { capture_enabled: true, mute_when_other_audio: true, latest_frame: Some((0, 9)) };
    let act = audio_service_step(&mut s, on);
    assert!(act.configure_capture && act.send_end.is_none() && act.playback_demand.is_none());
    assert_eq!(s.last_sent, Some((0, 9)));
    assert_eq!(audio_service_step(&mut s, AudioServiceEvent::DispatchTick { latest_frame: Some((0, 9)) }), quiet());
}

#[test]
fn losing_subscribers_forgets_what_was_sent() {
    let mut s = AudioDispatchState { capture_enabled: true, capture_demand: true, playback_demand: false, last_sent: Some((2, 2)) };
    let act = audio_service_step(&mut s, AudioServiceEvent::SubscribersChanged { audio_subscribers: false });
    assert!(act.configure_capture);
    assert_eq!(s.last_sent, None);
    assert!(!s.capture_demand);
}
