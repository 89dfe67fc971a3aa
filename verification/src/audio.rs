//! Audio response: whether other programs are playing sound, the identity
//! of captured windows, and the decisions of the capture and playback
//! workers (when to open, close, back off and give up on PulseAudio).

use vstd::prelude::*;
use crate::subscriptions::RendererProcessOwnershipSnapshot;

verus! {

/// Idle time before a warm capture closes (ms).
pub const DEFAULT_IDLE_TIMEOUT_MS: u64 = 30000;

/// Poll interval while capture is demanded (ms).
pub const ACTIVE_POLL_INTERVAL_MS: u64 = 5;

/// Poll interval otherwise (ms).
pub const INACTIVE_POLL_INTERVAL_MS: u64 = 100;

/// First retry delay after a failure (ms).
pub const INITIAL_BACKOFF_MS: u64 = 1000;

/// Longest retry delay (ms).
pub const MAX_BACKOFF_MS: u64 = 30000;

/// One playback stream as PulseAudio reports it.
#[derive(Debug, Clone, Copy, PartialEq, Eq, Structural)]
pub struct PulsePlaybackStream {
    pub index: u32,
    pub process_id: i32,
    pub corked: i32,
    pub muted: i32,
    pub has_nonzero_volume: i32,
}

/// Why PulseAudio could not be used.
#[derive(Debug, Clone, Copy, PartialEq, Eq, Structural)]
pub enum CaptureErrorKind {
    LibraryUnavailable,
    MissingSymbol,
    ServerUnavailable,
    MonitorUnavailable,
    StreamFailed,
    OutOfMemory,
    Unknown,
}

/// The failure kind a capture library error code stands for.
pub fn error_kind(code: i32) -> (r: CaptureErrorKind)
    ensures
        r == match code {
            1 => CaptureErrorKind::LibraryUnavailable,
            2 => CaptureErrorKind::MissingSymbol,
            3 => CaptureErrorKind::ServerUnavailable,
            4 => CaptureErrorKind::MonitorUnavailable,
            5 => CaptureErrorKind::StreamFailed,
            6 => CaptureErrorKind::OutOfMemory,
            _ => CaptureErrorKind::Unknown,
        },
{
    match code {
        1 => CaptureErrorKind::LibraryUnavailable,
        2 => CaptureErrorKind::MissingSymbol,
        3 => CaptureErrorKind::ServerUnavailable,
        4 => CaptureErrorKind::MonitorUnavailable,
        5 => CaptureErrorKind::StreamFailed,
        6 => CaptureErrorKind::OutOfMemory,
        _ => CaptureErrorKind::Unknown,
    }
}

#[derive(Debug, Clone, PartialEq, Eq)]
pub struct CaptureError {
    pub kind: CaptureErrorKind,
    pub message: String,
}

impl CaptureErrorKind {
    /// A missing library or symbol does not come back by retrying.
    pub open spec fn spec_is_permanent(self) -> bool {
        self is LibraryUnavailable || self is MissingSymbol
    }

    pub fn is_permanent(self) -> (r: bool)
        ensures
            r == self.spec_is_permanent(),
    {
        match self {
            CaptureErrorKind::LibraryUnavailable | CaptureErrorKind::MissingSymbol => true,
            _ => false,
        }
    }
}

/// What the capture service is doing, as published.
#[derive(Debug, Clone, Copy, PartialEq, Eq, Structural)]
pub enum AudioServiceState {
    Closed,
    Starting,
    Active,
    WarmIdle,
    Backoff,
    Stopping,
}

// ---------------------------------------------------------------------------
// Other programs' playback

/// A stream that is playing audibly.
pub open spec fn audible(s: PulsePlaybackStream) -> bool {
    s.corked == 0 && s.muted == 0 && s.has_nonzero_volume != 0
}

/// What the scan of playback streams for other programs' audio needs
/// next, looking at the streams from some position on in order.
#[derive(Debug, Clone, Copy, PartialEq, Eq, Structural)]
pub enum PlaybackScan {
    /// The first audible stream has no known process: some other program
    /// plays audio.
    External,
    /// No stream left is audible: no other program plays audio.
    NoExternal,
    /// The first audible stream, at `index`, belongs to `process_id`: its
    /// process group decides, and the scan goes on after `index` when the
    /// renderers own it.
    LookUp { index: usize, process_id: i32 },
}

/// The first audible stream at or after `from` is at `k`.
pub open spec fn first_audible_at(streams: Seq<PulsePlaybackStream>, from: int, k: int) -> bool {
    &&& from <= k < streams.len()
    &&& audible(streams[k])
    &&& forall|j: int| from <= j < k ==> !audible(#[trigger] streams[j])
}

/// The next step of the scan from `from`: it skips streams that are not
/// audible and asks for a process group only for an audible stream with a
/// known process.
pub fn next_playback_lookup(streams: &[PulsePlaybackStream], from: usize) -> (r: PlaybackScan)
    requires
        from <= streams@.len(),
    ensures
        r == PlaybackScan::NoExternal <==> forall|k: int| from <= k < streams@.len() ==> !audible(#[trigger] streams@[k]),
        r == PlaybackScan::External <==> exists|k: int|
            first_audible_at(streams@, from as int, k) && (#[trigger] streams@[k]).process_id <= 0,
        r matches PlaybackScan::LookUp { index, process_id } ==> first_audible_at(streams@, from as int, index as int)
            && process_id == streams@[index as int].process_id && process_id > 0,
{
    let mut i = from;
    while i < streams.len()
        invariant
            from <= i <= streams@.len(),
            forall|j: int| from <= j < i ==> !audible(#[trigger] streams@[j]),
        decreases streams@.len() - i,
    {
        let s = streams[i];
        if s.corked == 0 && s.muted == 0 && s.has_nonzero_volume != 0 {
            proof {
                assert(first_audible_at(streams@, from as int, i as int));
                assert forall|k: int| first_audible_at(streams@, from as int, k) implies k == i by {
                    if k < i {
                        assert(!audible(streams@[k]));
                    } else if k > i {
                        assert(!audible(streams@[i as int]));
                    }
                }
            }
            if s.process_id <= 0 {
                return PlaybackScan::External;
            }
            return PlaybackScan::LookUp { index: i, process_id: s.process_id };
        }
        i = i + 1;
    }
    proof {
        assert forall|k: int| !first_audible_at(streams@, from as int, k) by {
            if first_audible_at(streams@, from as int, k) {
                assert(!audible(streams@[k]));
            }
        }
    }
    PlaybackScan::NoExternal
}

/// Whether an audible stream whose process has process group `group`
/// (`None`: none could be found) belongs to another program: the group is
/// unknown or not one the renderers own.
pub fn group_is_external(ownership: &RendererProcessOwnershipSnapshot, group: Option<i32>) -> (r: bool)
    ensures
        r == match group {
            None => true,
            Some(g) => !ownership.groups().contains(g),
        },
{
    match group {
        None => true,
        Some(g) => !ownership.owns_process_group(g),
    }
}

/// The generation and sequence of the next captured window: a fresh
/// stream starts at generation 0, sequence 1; a sequence that cannot grow
/// starts the next generation.
pub fn next_audio_identity(last: Option<(u64, u64)>) -> (r: (u64, u64))
    ensures
        r == match last {
            None => (0u64, 1u64),
            Some((generation, sequence)) => if sequence < u64::MAX {
                (generation, (sequence + 1) as u64)
            } else {
                (if generation < u64::MAX {
                    (generation + 1) as u64
                } else {
                    generation
                }, 0u64)
            },
        },
{
    match last {
        None => (0, 1),
        Some((generation, sequence)) => if sequence < u64::MAX {
            (generation, sequence + 1)
        } else {
            (if generation < u64::MAX {
                generation + 1
            } else {
                generation
            }, 0)
        },
    }
}

// ---------------------------------------------------------------------------
// Audio dispatch

/// Whether window identity `a` comes before `b`: an older generation, or
/// the same generation and a smaller sequence.
pub open spec fn identity_before(a: (u64, u64), b: (u64, u64)) -> bool {
    a.0 < b.0 || (a.0 == b.0 && a.1 < b.1)
}

/// The later of two optional identities (no identity comes first).
pub open spec fn later_identity(a: Option<(u64, u64)>, b: Option<(u64, u64)>) -> Option<(u64, u64)> {
    match (a, b) {
        (None, _) => b,
        (_, None) => a,
        (Some(x), Some(y)) => if identity_before(x, y) {
            b
        } else {
            a
        },
    }
}

/// What the audio service keeps between events.
#[derive(Debug, Clone, Copy, PartialEq, Eq)]
pub struct AudioDispatchState {
    /// Capture is enabled in the settings.
    pub capture_enabled: bool,
    /// Some renderer subscribes to audio.
    pub capture_demand: bool,
    /// Muting while other programs play audio is wanted.
    pub playback_demand: bool,
    /// The identity of the last window sent (or of the end marker).
    pub last_sent: Option<(u64, u64)>,
}

/// What reaches the audio service.
#[derive(Debug, Clone, Copy, PartialEq, Eq)]
pub enum AudioServiceEvent {
    /// The audio subscribers changed; whether there are any now.
    SubscribersChanged { audio_subscribers: bool },
    /// The settings changed (or events were lost); the settings now, and the
    /// identity of the latest captured window, if any.
    SettingsChanged { capture_enabled: bool, mute_when_other_audio: bool, latest_frame: Option<(u64, u64)> },
    /// The dispatch timer ticked; the identity of the latest captured
    /// window, if any.
    DispatchTick { latest_frame: Option<(u64, u64)> },
}

/// What the audio service does after an event.
#[derive(Debug, Clone, Copy, PartialEq, Eq)]
pub struct AudioServiceActions {
    /// Tell the capture worker the (enabled, demanded) pair of the new state.
    pub configure_capture: bool,
    /// Send renderers the end of the stream with this identity.
    pub send_end: Option<(u64, u64)>,
    /// Tell the playback observer whether it is wanted.
    pub playback_demand: Option<bool>,
    /// Send the latest captured window to the audio subscribers.
    pub dispatch_frame: bool,
}

/// The end-of-stream identity sent when capture is switched off: the next
/// one after the later of the last sent and the latest captured.
pub open spec fn end_identity(last_sent: Option<(u64, u64)>, latest: Option<(u64, u64)>) -> (u64, u64) {
    match later_identity(last_sent, latest) {
        None => (0u64, 1u64),
        Some((generation, sequence)) => if sequence < u64::MAX {
            (generation, (sequence + 1) as u64)
        } else {
            (if generation < u64::MAX {
                (generation + 1) as u64
            } else {
                generation
            }, 0u64)
        },
    }
}

/// The rules of the audio service: a change of subscribers reconfigures
/// capture and, when none are left, forgets what was sent; switching
/// capture on raises the last sent identity to the latest window, switching
/// it off sends the end of the stream under a fresh identity; a change of
/// the mute-on-other-audio setting is passed to the playback observer; and
/// a tick sends the latest window only while capture is on and only if it
/// comes after the last one sent.
pub open spec fn audio_service_next(s: AudioDispatchState, e: AudioServiceEvent) -> (AudioDispatchState, AudioServiceActions) {
    let none = AudioServiceActions { configure_capture: false, send_end: None, playback_demand: None, dispatch_frame: false };
    match e {
        AudioServiceEvent::SubscribersChanged { audio_subscribers } => (
            AudioDispatchState {
                capture_demand: audio_subscribers,
                last_sent: if audio_subscribers {
                    s.last_sent
                } else {
                    None
                },
                ..s
            },
            AudioServiceActions { configure_capture: true, ..none },
        ),
        AudioServiceEvent::SettingsChanged { capture_enabled, mute_when_other_audio, latest_frame } => {
            let toggled = capture_enabled != s.capture_enabled;
            let last = if !toggled {
                s.last_sent
            } else if capture_enabled {
                later_identity(s.last_sent, latest_frame)
            } else {
                Some(end_identity(s.last_sent, latest_frame))
            };
            let playback = mute_when_other_audio != s.playback_demand;
            (
                AudioDispatchState {
                    capture_enabled,
                    capture_demand: s.capture_demand,
                    playback_demand: mute_when_other_audio,
                    last_sent: last,
                },
                AudioServiceActions {
                    configure_capture: toggled,
                    send_end: if toggled && !capture_enabled {
                        Some(end_identity(s.last_sent, latest_frame))
                    } else {
                        None
                    },
                    playback_demand: if playback {
                        Some(mute_when_other_audio)
                    } else {
                        None
                    },
                    dispatch_frame: false,
                },
            )
        },
        AudioServiceEvent::DispatchTick { latest_frame } => match latest_frame {
            Some(frame) => if s.capture_enabled && (match s.last_sent {
                None => true,
                Some(sent) => identity_before(sent, frame),
            }) {
                (AudioDispatchState { last_sent: Some(frame), ..s }, AudioServiceActions { dispatch_frame: true, ..none })
            } else {
                (s, none)
            },
            None => (s, none),
        },
    }
}

fn later(a: Option<(u64, u64)>, b: Option<(u64, u64)>) -> (r: Option<(u64, u64)>)
    ensures
        r == later_identity(a, b),
{
    match (a, b) {
        (None, _) => b,
        (_, None) => a,
        (Some(x), Some(y)) => if x.0 < y.0 || (x.0 == y.0 && x.1 < y.1) {
            b
        } else {
            a
        },
    }
}

/// Applies an event to the audio service's state and says what to do.
pub fn audio_service_step(s: &mut AudioDispatchState, e: AudioServiceEvent) -> (r: AudioServiceActions)
    ensures
        (*final(s), r) == audio_service_next(*old(s), e),
{
    let mut actions = AudioServiceActions {
        configure_capture: false,
        send_end: None,
        playback_demand: None,
        dispatch_frame: false,
    };
    match e {
        AudioServiceEvent::SubscribersChanged { audio_subscribers } => {
            s.capture_demand = audio_subscribers;
            if !audio_subscribers {
                s.last_sent = None;
            }
            actions.configure_capture = true;
        },
        AudioServiceEvent::SettingsChanged { capture_enabled, mute_when_other_audio, latest_frame } => {
            if capture_enabled != s.capture_enabled {
                s.capture_enabled = capture_enabled;
                actions.configure_capture = true;
                if capture_enabled {
                    s.last_sent = later(s.last_sent, latest_frame);
                } else {
                    let id = next_audio_identity(later(s.last_sent, latest_frame));
                    s.last_sent = Some(id);
                    actions.send_end = Some(id);
                }
            }
            if mute_when_other_audio != s.playback_demand {
                s.playback_demand = mute_when_other_audio;
                actions.playback_demand = Some(mute_when_other_audio);
            }
        },
        AudioServiceEvent::DispatchTick { latest_frame } => {
            if s.capture_enabled {
                if let Some(frame) = latest_frame {
                    let fresh = match s.last_sent {
                        None => true,
                        Some(sent) => sent.0 < frame.0 || (sent.0 == frame.0 && sent.1 < frame.1),
                    };
                    if fresh {
                        s.last_sent = Some(frame);
                        actions.dispatch_frame = true;
                    }
                }
            }
        },
    }
    actions
}

/// No window is sent twice or out of order: a window goes out only with an
/// identity after the last one sent, and becomes the last one sent; an
/// end marker comes after both the last sent and the latest captured
/// window, unless both identities are exhausted.
pub proof fn law_sent_identities_increase(s: AudioDispatchState, e: AudioServiceEvent)
    ensures
        ({
            let (next, act) = audio_service_next(s, e);
            &&& act.dispatch_frame ==> (e matches AudioServiceEvent::DispatchTick { latest_frame } && latest_frame
                == next.last_sent && (s.last_sent matches Some(sent) ==> identity_before(sent, next.last_sent->0)))
            &&& act.send_end matches Some(id) ==> (e matches AudioServiceEvent::SettingsChanged { latest_frame, .. }
                && next.last_sent == Some(id) && (later_identity(s.last_sent, latest_frame) matches Some(prev) ==> (
                identity_before(prev, id) || (prev.0 == u64::MAX && prev.1 == u64::MAX))))
        }),
{
}

/// The next retry delay: doubled, at most `MAX_BACKOFF_MS`.
pub open spec fn next_backoff(backoff: u64) -> u64 {
    if backoff >= MAX_BACKOFF_MS / 2 {
        MAX_BACKOFF_MS
    } else {
        (backoff * 2) as u64
    }
}

fn double_backoff(backoff: u64) -> (r: u64)
    ensures
        r == next_backoff(backoff),
{
    if backoff >= MAX_BACKOFF_MS / 2 {
        MAX_BACKOFF_MS
    } else {
        backoff * 2
    }
}

// ---------------------------------------------------------------------------
// The capture worker

/// What the worker does to the outside after a decision.
#[derive(Debug, Clone, Copy, PartialEq, Eq, Structural)]
pub struct CaptureEffects {
    /// Publish "no window".
    pub clear_frames: bool,
    /// Close the open capture.
    pub close_backend: bool,
    /// Drop the samples the open capture buffered.
    pub discard_backend: bool,
    /// Publish this state.
    pub state: Option<AudioServiceState>,
}

pub open spec fn no_effects() -> CaptureEffects {
    CaptureEffects { clear_frames: false, close_backend: false, discard_backend: false, state: None }
}

/// The capture worker's memory (times in ms on the monotonic clock).
#[derive(Debug, Clone, Copy, PartialEq, Eq, Structural)]
pub struct CaptureWorker {
    pub backend_open: bool,
    pub enabled: bool,
    pub demand: bool,
    pub idle_deadline_ms: Option<u64>,
    pub retry_deadline_ms: Option<u64>,
    pub backoff_ms: u64,
    pub unavailable_latched: bool,
}

impl CaptureWorker {
    /// Enabled, not demanded, nothing open.
    pub fn new() -> (r: Self)
        ensures
            r == (CaptureWorker {
                backend_open: false,
                enabled: true,
                demand: false,
                idle_deadline_ms: None,
                retry_deadline_ms: None,
                backoff_ms: INITIAL_BACKOFF_MS,
                unavailable_latched: false,
            }),
    {
        CaptureWorker {
            backend_open: false,
            enabled: true,
            demand: false,
            idle_deadline_ms: None,
            retry_deadline_ms: None,
            backoff_ms: INITIAL_BACKOFF_MS,
            unavailable_latched: false,
        }
    }

    pub open spec fn bounded(self) -> bool {
        INITIAL_BACKOFF_MS <= self.backoff_ms <= MAX_BACKOFF_MS
    }

    /// How long to wait for a command.
    pub fn poll_timeout_ms(&self, now_ms: u64) -> (r: u64)
        ensures
            r == if self.demand {
                ACTIVE_POLL_INTERVAL_MS
            } else {
                match self.idle_deadline_ms {
                    Some(d) => if d <= now_ms {
                        0
                    } else if d - now_ms < INACTIVE_POLL_INTERVAL_MS {
                        (d - now_ms) as u64
                    } else {
                        INACTIVE_POLL_INTERVAL_MS
                    },
                    None => INACTIVE_POLL_INTERVAL_MS,
                }
            },
    {
        if self.demand {
            return ACTIVE_POLL_INTERVAL_MS;
        }
        match self.idle_deadline_ms {
            Some(d) => if d <= now_ms {
                0
            } else if d - now_ms < INACTIVE_POLL_INTERVAL_MS {
                d - now_ms
            } else {
                INACTIVE_POLL_INTERVAL_MS
            },
            None => INACTIVE_POLL_INTERVAL_MS,
        }
    }

    /// A new configuration: capture is wanted when enabled and demanded.
    pub fn configure(&mut self, enabled: bool, demanded: bool, now_ms: u64, idle_timeout_ms: u64) -> (r:
        CaptureEffects)
        requires
            now_ms + idle_timeout_ms <= u64::MAX,
        ensures
            ({
                let next_demand = enabled && demanded;
                let s = *old(self);
                if enabled == s.enabled && next_demand == s.demand {
                    *final(self) == s && r == no_effects()
                } else if !enabled {
                    &&& *final(self) == (CaptureWorker {
                        backend_open: false,
                        enabled,
                        demand: next_demand,
                        idle_deadline_ms: None,
                        retry_deadline_ms: None,
                        backoff_ms: INITIAL_BACKOFF_MS,
                        unavailable_latched: false,
                    })
                    &&& r == (CaptureEffects {
                        clear_frames: true,
                        close_backend: s.backend_open,
                        discard_backend: false,
                        state: Some(AudioServiceState::Closed),
                    })
                } else if next_demand {
                    &&& *final(self) == (CaptureWorker {
                        enabled,
                        demand: next_demand,
                        idle_deadline_ms: None,
                        retry_deadline_ms: None,
                        backoff_ms: INITIAL_BACKOFF_MS,
                        unavailable_latched: false,
                        ..s
                    })
                    &&& r == (CaptureEffects {
                        clear_frames: true,
                        close_backend: false,
                        discard_backend: s.backend_open,
                        state: if s.backend_open {
                            Some(AudioServiceState::Active)
                        } else {
                            None
                        },
                    })
                } else {
                    &&& *final(self) == (CaptureWorker {
                        enabled,
                        demand: next_demand,
                        idle_deadline_ms: if s.backend_open {
                            Some((now_ms + idle_timeout_ms) as u64)
                        } else {
                            s.idle_deadline_ms
                        },
                        retry_deadline_ms: None,
                        backoff_ms: INITIAL_BACKOFF_MS,
                        ..s
                    })
                    &&& r == (CaptureEffects {
                        clear_frames: true,
                        close_backend: false,
                        discard_backend: false,
                        state: Some(
                            if s.backend_open {
                                AudioServiceState::WarmIdle
                            } else {
                                AudioServiceState::Closed
                            },
                        ),
                    })
                }
            }),
    {
        let next_demand = enabled && demanded;
        if enabled == self.enabled && next_demand == self.demand {
            return CaptureEffects {
                clear_frames: false,
                close_backend: false,
                discard_backend: false,
                state: None,
            };
        }
        self.enabled = enabled;
        self.demand = next_demand;
        self.retry_deadline_ms = None;
        self.backoff_ms = INITIAL_BACKOFF_MS;
        if !enabled {
            self.idle_deadline_ms = None;
            self.unavailable_latched = false;
            let was_open = self.backend_open;
            self.backend_open = false;
            CaptureEffects {
                clear_frames: true,
                close_backend: was_open,
                discard_backend: false,
                state: Some(AudioServiceState::Closed),
            }
        } else if next_demand {
            self.idle_deadline_ms = None;
            self.unavailable_latched = false;
            CaptureEffects {
                clear_frames: true,
                close_backend: false,
                discard_backend: self.backend_open,
                state: if self.backend_open {
                    Some(AudioServiceState::Active)
                } else {
                    None
                },
            }
        } else if self.backend_open {
            self.idle_deadline_ms = Some(now_ms + idle_timeout_ms);
            CaptureEffects {
                clear_frames: true,
                close_backend: false,
                discard_backend: false,
                state: Some(AudioServiceState::WarmIdle),
            }
        } else {
            CaptureEffects {
                clear_frames: true,
                close_backend: false,
                discard_backend: false,
                state: Some(AudioServiceState::Closed),
            }
        }
    }

    /// Shutting down: publish `Stopping`, clear, close, publish `Closed`.
    pub fn shutdown(&mut self) -> (r: bool)
        ensures
            r == old(self).backend_open,
            !final(self).backend_open,
            final(self).enabled == old(self).enabled,
            final(self).demand == old(self).demand,
    {
        let was_open = self.backend_open;
        self.backend_open = false;
        was_open
    }

    /// Without demand: a warm capture whose idle deadline passed closes.
    pub fn idle_tick(&mut self, now_ms: u64) -> (r: CaptureEffects)
        requires
            !old(self).demand,
        ensures
            (old(self).idle_deadline_ms matches Some(d) && now_ms >= d) ==> *final(self) == (
            CaptureWorker { backend_open: false, idle_deadline_ms: None, ..*old(self) }) && r == (
            CaptureEffects {
                clear_frames: false,
                close_backend: old(self).backend_open,
                discard_backend: false,
                state: Some(AudioServiceState::Closed),
            }),
            !(old(self).idle_deadline_ms matches Some(d) && now_ms >= d) ==> *final(self) == *old(
                self,
            ) && r == no_effects(),
    {
        let due = match self.idle_deadline_ms {
            Some(d) => now_ms >= d,
            None => false,
        };
        if !due {
            return CaptureEffects {
                clear_frames: false,
                close_backend: false,
                discard_backend: false,
                state: None,
            };
        }
        let was_open = self.backend_open;
        self.backend_open = false;
        self.idle_deadline_ms = None;
        CaptureEffects {
            clear_frames: false,
            close_backend: was_open,
            discard_backend: false,
            state: Some(AudioServiceState::Closed),
        }
    }

    pub open spec fn spec_should_open(self, now_ms: u64) -> bool {
        self.demand && !self.backend_open && !self.unavailable_latched && match self.retry_deadline_ms {
            Some(d) => now_ms >= d,
            None => true,
        }
    }

    /// Whether to try opening the capture now (then publish `Starting`).
    pub fn should_open(&self, now_ms: u64) -> (r: bool)
        ensures
            r == self.spec_should_open(now_ms),
    {
        self.demand && !self.backend_open && !self.unavailable_latched && match self.retry_deadline_ms {
            Some(d) => now_ms >= d,
            None => true,
        }
    }

    /// The capture opened: it is active (its buffered samples dropped).
    pub fn opened(&mut self) -> (r: AudioServiceState)
        ensures
            r == AudioServiceState::Active,
            *final(self) == (CaptureWorker {
                backend_open: true,
                retry_deadline_ms: None,
                backoff_ms: INITIAL_BACKOFF_MS,
                ..*old(self)
            }),
    {
        self.backend_open = true;
        self.retry_deadline_ms = None;
        self.backoff_ms = INITIAL_BACKOFF_MS;
        AudioServiceState::Active
    }

    /// Opening failed: a permanent failure is latched until the demand or
    /// the configuration changes; another one is retried after the backoff,
    /// which then doubles.
    pub fn open_failed(&mut self, kind: CaptureErrorKind, now_ms: u64) -> (r: AudioServiceState)
        requires
            now_ms + old(self).backoff_ms <= u64::MAX,
        ensures
            kind.spec_is_permanent() ==> r == AudioServiceState::Closed && *final(self) == (
            CaptureWorker { unavailable_latched: true, ..*old(self) }),
            !kind.spec_is_permanent() ==> r == AudioServiceState::Backoff && *final(self) == (
            CaptureWorker {
                unavailable_latched: false,
                retry_deadline_ms: Some((now_ms + old(self).backoff_ms) as u64),
                backoff_ms: next_backoff(old(self).backoff_ms),
                ..*old(self)
            }),
    {
        let permanent = kind.is_permanent();
        self.unavailable_latched = permanent;
        if permanent {
            AudioServiceState::Closed
        } else {
            self.retry_deadline_ms = Some(now_ms + self.backoff_ms);
            self.backoff_ms = double_backoff(self.backoff_ms);
            AudioServiceState::Backoff
        }
    }

    /// Reading failed: close, clear, retry after the backoff.
    pub fn capture_failed(&mut self, now_ms: u64) -> (r: CaptureEffects)
        requires
            now_ms + old(self).backoff_ms <= u64::MAX,
        ensures
            *final(self) == (CaptureWorker {
                backend_open: false,
                retry_deadline_ms: Some((now_ms + old(self).backoff_ms) as u64),
                backoff_ms: next_backoff(old(self).backoff_ms),
                ..*old(self)
            }),
            r == (CaptureEffects {
                clear_frames: true,
                close_backend: true,
                discard_backend: false,
                state: Some(AudioServiceState::Backoff),
            }),
    {
        self.backend_open = false;
        self.retry_deadline_ms = Some(now_ms + self.backoff_ms);
        self.backoff_ms = double_backoff(self.backoff_ms);
        CaptureEffects {
            clear_frames: true,
            close_backend: true,
            discard_backend: false,
            state: Some(AudioServiceState::Backoff),
        }
    }
}

/// The retry delay stays between one and thirty seconds, whatever fails;
/// a latched failure keeps the capture from being reopened until a new
/// configuration arrives.
pub proof fn law_backoff_bounded(w: CaptureWorker, kind: CaptureErrorKind, now_ms: u64)
    requires
        w.bounded(),
    ensures
        INITIAL_BACKOFF_MS <= next_backoff(w.backoff_ms) <= MAX_BACKOFF_MS,
        next_backoff(w.backoff_ms) >= w.backoff_ms,
        (CaptureWorker { unavailable_latched: true, ..w }).spec_should_open(now_ms) == false,
{
}

// ---------------------------------------------------------------------------
// The playback observer worker

/// The playback worker's memory.
#[derive(Debug, Clone, Copy, PartialEq, Eq, Structural)]
pub struct PlaybackWorker {
    pub backend_open: bool,
    pub demand: bool,
    pub retry_deadline_ms: Option<u64>,
    pub backoff_ms: u64,
    pub unavailable_latched: bool,
}

impl PlaybackWorker {
    pub fn new() -> (r: Self)
        ensures
            r == (PlaybackWorker {
                backend_open: false,
                demand: false,
                retry_deadline_ms: None,
                backoff_ms: INITIAL_BACKOFF_MS,
                unavailable_latched: false,
            }),
    {
        PlaybackWorker {
            backend_open: false,
            demand: false,
            retry_deadline_ms: None,
            backoff_ms: INITIAL_BACKOFF_MS,
            unavailable_latched: false,
        }
    }

    /// A change of demand resets the retry state; losing demand closes the
    /// observer and reports no playback. Returns whether to close.
    pub fn set_demand(&mut self, demand: bool) -> (r: bool)
        ensures
            demand == old(self).demand ==> *final(self) == *old(self) && !r,
            demand != old(self).demand ==> *final(self) == (PlaybackWorker {
                backend_open: demand && old(self).backend_open,
                demand,
                retry_deadline_ms: None,
                backoff_ms: INITIAL_BACKOFF_MS,
                unavailable_latched: false,
            }) && r == (!demand && old(self).backend_open),
    {
        if demand == self.demand {
            return false;
        }
        self.demand = demand;
        self.retry_deadline_ms = None;
        self.backoff_ms = INITIAL_BACKOFF_MS;
        self.unavailable_latched = false;
        if !demand {
            let was_open = self.backend_open;
            self.backend_open = false;
            return was_open;
        }
        false
    }

    pub fn should_open(&self, now_ms: u64) -> (r: bool)
        ensures
            r == (self.demand && !self.backend_open && !self.unavailable_latched && match self.retry_deadline_ms {
                Some(d) => now_ms >= d,
                None => true,
            }),
    {
        self.demand && !self.backend_open && !self.unavailable_latched && match self.retry_deadline_ms {
            Some(d) => now_ms >= d,
            None => true,
        }
    }

    pub fn opened(&mut self)
        ensures
            *final(self) == (PlaybackWorker {
                backend_open: true,
                retry_deadline_ms: None,
                backoff_ms: INITIAL_BACKOFF_MS,
                ..*old(self)
            }),
    {
        self.backend_open = true;
        self.retry_deadline_ms = None;
        self.backoff_ms = INITIAL_BACKOFF_MS;
    }

    /// Opening failed: latch a permanent failure, else back off.
    pub fn open_failed(&mut self, kind: CaptureErrorKind, now_ms: u64)
        requires
            now_ms + old(self).backoff_ms <= u64::MAX,
        ensures
            kind.spec_is_permanent() ==> *final(self) == (PlaybackWorker {
                unavailable_latched: true,
                ..*old(self)
            }),
            !kind.spec_is_permanent() ==> *final(self) == (PlaybackWorker {
                unavailable_latched: false,
                retry_deadline_ms: Some((now_ms + old(self).backoff_ms) as u64),
                backoff_ms: next_backoff(old(self).backoff_ms),
                ..*old(self)
            }),
    {
        let permanent = kind.is_permanent();
        self.unavailable_latched = permanent;
        if !permanent {
            self.retry_deadline_ms = Some(now_ms + self.backoff_ms);
            self.backoff_ms = double_backoff(self.backoff_ms);
        }
    }

    /// The observer failed: close it and back off.
    pub fn observer_failed(&mut self, now_ms: u64)
        requires
            now_ms + old(self).backoff_ms <= u64::MAX,
        ensures
            *final(self) == (PlaybackWorker {
                backend_open: false,
                retry_deadline_ms: Some((now_ms + old(self).backoff_ms) as u64),
                backoff_ms: next_backoff(old(self).backoff_ms),
                ..*old(self)
            }),
    {
        self.backend_open = false;
        self.retry_deadline_ms = Some(now_ms + self.backoff_ms);
        self.backoff_ms = double_backoff(self.backoff_ms);
    }
}

} // verus!
