//! QR sign-in sessions: the QR image handed to clients, the bounds on
//! polling and deadlines, and what each poll outcome leads to.

use vstd::prelude::*;
use base64::Engine;
use crate::source_types::{QrLoginBegin, QrLoginPoll, QrLoginPollState};
use crate::text::{chars_of, owned, push_str};

verus! {

/// Deadline of a session whose provider names none, in milliseconds.
pub const DEFAULT_DEADLINE_MS: u64 = 180000;

/// Shortest accepted deadline, in milliseconds.
pub const MIN_DEADLINE_MS: u64 = 1000;

/// Longest accepted deadline, in milliseconds.
pub const MAX_DEADLINE_MS: u64 = 600000;

/// Shortest poll interval, in milliseconds.
pub const MIN_POLL_INTERVAL_MS: u64 = 250;

/// Longest poll interval, in milliseconds.
pub const MAX_POLL_INTERVAL_MS: u64 = 30000;

/// Progress of a QR sign-in as clients see it.
#[derive(Debug, Clone, Copy, PartialEq, Eq, Structural)]
pub enum QrLoginState {
    Starting,
    AwaitingScan,
    AwaitingConfirmation,
    ChallengeChanged,
    Succeeded,
    Expired,
    Failed,
    Cancelled,
}

pub open spec fn clamp(v: u64, lo: u64, hi: u64) -> u64 {
    if v < lo {
        lo
    } else if v > hi {
        hi
    } else {
        v
    }
}

/// The provider's poll interval kept within 250 ms and 30 s.
pub fn clamp_poll_interval(milliseconds: u64) -> (r: u64)
    ensures
        r == clamp(milliseconds, MIN_POLL_INTERVAL_MS, MAX_POLL_INTERVAL_MS),
{
    if milliseconds < MIN_POLL_INTERVAL_MS {
        MIN_POLL_INTERVAL_MS
    } else if milliseconds > MAX_POLL_INTERVAL_MS {
        MAX_POLL_INTERVAL_MS
    } else {
        milliseconds
    }
}

/// The session's deadline: the provider's, else three minutes, kept within
/// one second and ten minutes.
pub fn login_deadline_ms(expires_in_ms: Option<u64>) -> (r: u64)
    ensures
        r == clamp(
            match expires_in_ms {
                Some(v) => v,
                None => DEFAULT_DEADLINE_MS,
            },
            MIN_DEADLINE_MS,
            MAX_DEADLINE_MS,
        ),
{
    let requested = match expires_in_ms {
        Some(v) => v,
        None => DEFAULT_DEADLINE_MS,
    };
    if requested < MIN_DEADLINE_MS {
        MIN_DEADLINE_MS
    } else if requested > MAX_DEADLINE_MS {
        MAX_DEADLINE_MS
    } else {
        requested
    }
}

// ---------------------------------------------------------------------------
// QR images

/// Why no QR code could be built (the variants of `qrcode::types::QrError`).
#[derive(Debug, Clone, Copy, PartialEq, Eq, Structural)]
pub enum QrEncodeError {
    DataTooLong,
    InvalidVersion,
    UnsupportedCharacterSet,
    InvalidEciDesignator,
    InvalidCharacter,
}

/// The SVG document of the QR code of `data` (qrcode's automatic version at
/// error-correction level M, at least 256 by 256, black on white), or `None`
/// when no QR code holds the data.
pub uninterp spec fn qr_svg_image(data: Seq<u8>) -> Option<Seq<char>>;

/// `QrCode::new(data)` rendered by `render::<svg::Color>()` with minimum
/// dimensions 256 by 256, dark colour `#000000` and light colour `#ffffff`.
#[verifier::external_body]
fn qr_svg(data: &[u8]) -> (r: Result<String, QrEncodeError>)
    ensures
        match qr_svg_image(data@) {
            Some(svg) => r matches Ok(s) && s@ == svg,
            None => r is Err,
        },
{
    match qrcode::QrCode::new(data) {
        Ok(code) => Ok(
            code.render::<qrcode::render::svg::Color>().min_dimensions(256, 256).dark_color(
                qrcode::render::svg::Color("#000000"),
            ).light_color(qrcode::render::svg::Color("#ffffff")).build(),
        ),
        Err(qrcode::types::QrError::DataTooLong) => Err(QrEncodeError::DataTooLong),
        Err(qrcode::types::QrError::InvalidVersion) => Err(QrEncodeError::InvalidVersion),
        Err(qrcode::types::QrError::UnsupportedCharacterSet) => Err(
            QrEncodeError::UnsupportedCharacterSet,
        ),
        Err(qrcode::types::QrError::InvalidEciDesignator) => Err(QrEncodeError::InvalidEciDesignator),
        Err(qrcode::types::QrError::InvalidCharacter) => Err(QrEncodeError::InvalidCharacter),
    }
}

/// Standard base64 with padding (`base64::engine::general_purpose::STANDARD`).
pub uninterp spec fn base64_standard_encode(input: Seq<u8>) -> Seq<char>;

/// `STANDARD.encode(input)` of the base64 crate.
#[verifier::external_body]
fn encode_base64(input: &[u8]) -> (r: String)
    ensures
        r@ == base64_standard_encode(input@),
{
    base64::engine::general_purpose::STANDARD.encode(input)
}

/// The `data:` URL of the QR code of a challenge.
pub open spec fn spec_qr_data_url(challenge: Seq<char>) -> Option<Seq<char>> {
    match qr_svg_image(vstd::utf8::encode_utf8(challenge)) {
        Some(svg) => Some(
            "data:image/svg+xml;base64,"@ + base64_standard_encode(vstd::utf8::encode_utf8(svg)),
        ),
        None => None,
    }
}

/// The challenge as a QR code in an SVG `data:` URL.
pub fn qr_data_url(challenge: &str) -> (r: Result<String, QrEncodeError>)
    ensures
        match spec_qr_data_url(challenge@) {
            Some(url) => r matches Ok(s) && s@ == url,
            None => r is Err,
        },
{
    let svg = match qr_svg(challenge.as_bytes()) {
        Ok(s) => s,
        Err(e) => {
            return Err(e);
        },
    };
    let mut url = owned("data:image/svg+xml;base64,");
    let encoded = encode_base64(svg.as_str().as_bytes());
    push_str(&mut url, encoded.as_str());
    Ok(url)
}

// ---------------------------------------------------------------------------
// Starting a session

/// Refusal of a session while another one runs.
pub open spec fn already_active_message() -> Seq<char> {
    "another QR login session is already active"@
}

/// What happened while a session was being started.
pub enum QrStartEvent {
    /// A client asked for a session.
    Requested,
    /// Cancellation or shutdown came while waiting for the provider.
    BeginInterrupted,
    /// The provider could not begin; its error text.
    BeginFailed(String),
    /// The provider began an operation.
    Begun(QrLoginBegin),
}

/// What starting a session does next.
pub enum QrStartStep {
    /// Refuse the request with this error.
    Refuse(String),
    /// Register the session, tell clients it is starting, and ask the
    /// provider to begin.
    Begin,
    /// End the session before it runs; `cancel_provider` when the
    /// provider's operation must be cancelled.
    Finish { state: QrLoginState, error: String, title: String, instruction: String, cancel_provider: bool },
    /// Show the QR image and run the session with this deadline and poll
    /// interval (milliseconds).
    Run { qr_image: String, title: String, instruction: String, deadline_ms: u64, poll_interval_ms: u64 },
}

/// The step as a `Finish`, as values.
pub open spec fn finish_of(r: QrStartStep) -> Option<(QrLoginState, Seq<char>, Seq<char>, Seq<char>, bool)> {
    match r {
        QrStartStep::Finish { state, error, title, instruction, cancel_provider } => Some(
            (state, error@, title@, instruction@, cancel_provider),
        ),
        _ => None,
    }
}

/// The step as a `Run`, as values.
pub open spec fn run_of(r: QrStartStep) -> Option<(Seq<char>, Seq<char>, Seq<char>, u64, u64)> {
    match r {
        QrStartStep::Run { qr_image, title, instruction, deadline_ms, poll_interval_ms } => Some(
            (qr_image@, title@, instruction@, deadline_ms, poll_interval_ms),
        ),
        _ => None,
    }
}

/// The rule of starting a session: one session at a time; a failed begin
/// ends it as cancelled when cancellation or shutdown (`cancelled`,
/// `shutdown`) came meanwhile, else as failed with the provider's error; a
/// QR image that cannot be built fails it; cancellation or shutdown before
/// the image is shown cancels it; otherwise it runs with the provider's
/// deadline and poll interval, clamped. `active` tells whether another
/// session is running.
pub fn qr_start_step(active: bool, e: QrStartEvent, cancelled: bool, shutdown: bool) -> (r: QrStartStep)
    ensures
        match e {
            QrStartEvent::Requested => if active {
                (r matches QrStartStep::Refuse(m) && m@ == already_active_message())
            } else {
                r is Begin
            },
            QrStartEvent::BeginInterrupted => finish_of(r) == Some(
                (QrLoginState::Cancelled, Seq::<char>::empty(), Seq::<char>::empty(), Seq::<char>::empty(), false),
            ),
            QrStartEvent::BeginFailed(message) => finish_of(r) == Some(
                if cancelled || shutdown {
                    (QrLoginState::Cancelled, Seq::<char>::empty(), Seq::<char>::empty(), Seq::<char>::empty(), false)
                } else {
                    (QrLoginState::Failed, message@, Seq::<char>::empty(), Seq::<char>::empty(), false)
                },
            ),
            QrStartEvent::Begun(b) => match spec_qr_data_url(b.challenge@) {
                None => finish_of(r) == Some((QrLoginState::Failed, qr_build_error(), b.title@, b.instruction@, true)),
                Some(img) => if cancelled || shutdown {
                    finish_of(r) == Some((QrLoginState::Cancelled, Seq::<char>::empty(), b.title@, b.instruction@, true))
                } else {
                    run_of(r) == Some(
                        (
                            img,
                            b.title@,
                            b.instruction@,
                            clamp(
                                match b.expires_in_ms {
                                    Some(v) => v,
                                    None => DEFAULT_DEADLINE_MS,
                                },
                                MIN_DEADLINE_MS,
                                MAX_DEADLINE_MS,
                            ),
                            clamp(b.poll_after_ms, MIN_POLL_INTERVAL_MS, MAX_POLL_INTERVAL_MS),
                        ),
                    )
                },
            },
        },
{
    match e {
        QrStartEvent::Requested => if active {
            QrStartStep::Refuse(owned("another QR login session is already active"))
        } else {
            QrStartStep::Begin
        },
        QrStartEvent::BeginInterrupted => QrStartStep::Finish {
            state: QrLoginState::Cancelled,
            error: String::new(),
            title: String::new(),
            instruction: String::new(),
            cancel_provider: false,
        },
        QrStartEvent::BeginFailed(message) => {
            if cancelled || shutdown {
                QrStartStep::Finish {
                    state: QrLoginState::Cancelled,
                    error: String::new(),
                    title: String::new(),
                    instruction: String::new(),
                    cancel_provider: false,
                }
            } else {
                QrStartStep::Finish {
                    state: QrLoginState::Failed,
                    error: message,
                    title: String::new(),
                    instruction: String::new(),
                    cancel_provider: false,
                }
            }
        },
        QrStartEvent::Begun(b) => {
            let image = qr_data_url(b.challenge.as_str());
            match image {
                Err(_) => QrStartStep::Finish {
                    state: QrLoginState::Failed,
                    error: owned("build QR code"),
                    title: b.title,
                    instruction: b.instruction,
                    cancel_provider: true,
                },
                Ok(qr_image) => {
                    if cancelled || shutdown {
                        QrStartStep::Finish {
                            state: QrLoginState::Cancelled,
                            error: String::new(),
                            title: b.title,
                            instruction: b.instruction,
                            cancel_provider: true,
                        }
                    } else {
                        let deadline_ms = login_deadline_ms(b.expires_in_ms);
                        let poll_interval_ms = clamp_poll_interval(b.poll_after_ms);
                        QrStartStep::Run {
                            qr_image,
                            title: b.title,
                            instruction: b.instruction,
                            deadline_ms,
                            poll_interval_ms,
                        }
                    }
                },
            }
        },
    }
}

// ---------------------------------------------------------------------------
// Running a session

/// What woke a running session.
pub enum QrLoginEvent {
    Cancelled,
    Shutdown,
    DeadlineReached,
    PollFailed(String),
    Polled(QrLoginPoll),
}

/// What a running session does next.
pub enum QrLoginStep {
    /// Tell clients and keep polling.
    Publish { state: QrLoginState, qr_image: String, display_value: String, error: String },
    /// End the session with this state; `cancel_provider` when the
    /// provider's operation must be cancelled.
    Finish { state: QrLoginState, display_value: String, error: String, cancel_provider: bool },
}

/// A step as values: finished, state, image, display value, error,
/// provider cancelled.
pub open spec fn step_view(s: QrLoginStep) -> (bool, QrLoginState, Seq<char>, Seq<char>, Seq<char>, bool) {
    match s {
        QrLoginStep::Publish { state, qr_image, display_value, error } => (
            false,
            state,
            qr_image@,
            display_value@,
            error@,
            false,
        ),
        QrLoginStep::Finish { state, display_value, error, cancel_provider } => (
            true,
            state,
            Seq::empty(),
            display_value@,
            error@,
            cancel_provider,
        ),
    }
}

pub open spec fn failed(error: Seq<char>) -> (bool, QrLoginState, Seq<char>, Seq<char>, Seq<char>, bool) {
    (true, QrLoginState::Failed, Seq::empty(), Seq::empty(), error, true)
}

/// Error text of a QR image that could not be built.
pub open spec fn qr_build_error() -> Seq<char> {
    "build QR code"@
}

/// The rule of a running session: the step after `event`.
pub open spec fn spec_qr_step(event: QrLoginEvent) -> (bool, QrLoginState, Seq<char>, Seq<char>, Seq<char>, bool) {
    match event {
        QrLoginEvent::Cancelled | QrLoginEvent::Shutdown => (
            true,
            QrLoginState::Cancelled,
            Seq::empty(),
            Seq::empty(),
            Seq::empty(),
            true,
        ),
        QrLoginEvent::DeadlineReached => (
            true,
            QrLoginState::Expired,
            Seq::empty(),
            Seq::empty(),
            "QR login expired"@,
            true,
        ),
        QrLoginEvent::PollFailed(message) => failed(message@),
        QrLoginEvent::Polled(u) => match u.state {
            QrLoginPollState::AwaitingScan => if u.challenge@.len() == 0 {
                (false, QrLoginState::AwaitingScan, Seq::empty(), u.display_value@, u.error@, false)
            } else {
                match spec_qr_data_url(u.challenge@) {
                    Some(img) => (
                        false,
                        QrLoginState::AwaitingScan,
                        img,
                        u.display_value@,
                        u.error@,
                        false,
                    ),
                    None => failed(qr_build_error()),
                }
            },
            QrLoginPollState::AwaitingConfirmation => (
                false,
                QrLoginState::AwaitingConfirmation,
                Seq::empty(),
                u.display_value@,
                u.error@,
                false,
            ),
            QrLoginPollState::ChallengeChanged => if u.challenge@.len() == 0 {
                failed("QR login provider returned an empty replacement challenge"@)
            } else {
                match spec_qr_data_url(u.challenge@) {
                    Some(img) => (
                        false,
                        QrLoginState::ChallengeChanged,
                        img,
                        u.display_value@,
                        u.error@,
                        false,
                    ),
                    None => failed(qr_build_error()),
                }
            },
            QrLoginPollState::Succeeded => (
                true,
                QrLoginState::Succeeded,
                Seq::empty(),
                u.display_value@,
                u.error@,
                false,
            ),
            QrLoginPollState::Expired => (
                true,
                QrLoginState::Expired,
                Seq::empty(),
                u.display_value@,
                u.error@,
                false,
            ),
            QrLoginPollState::Failed => (
                true,
                QrLoginState::Failed,
                Seq::empty(),
                u.display_value@,
                u.error@,
                false,
            ),
        },
    }
}

fn finish_failed(error: String) -> (r: QrLoginStep)
    ensures
        step_view(r) == failed(error@),
{
    QrLoginStep::Finish {
        state: QrLoginState::Failed,
        display_value: String::new(),
        error,
        cancel_provider: true,
    }
}

/// Decides a running session's next step and, after a poll that names
/// one, its next poll interval (clamped).
pub fn qr_login_step(event: QrLoginEvent) -> (r: (Option<u64>, QrLoginStep))
    ensures
        step_view(r.1) == spec_qr_step(event),
        r.0 == match event {
            QrLoginEvent::Polled(u) => match u.poll_after_ms {
                Some(ms) => Some(clamp(ms, MIN_POLL_INTERVAL_MS, MAX_POLL_INTERVAL_MS)),
                None => None,
            },
            _ => None,
        },
{
    match event {
        QrLoginEvent::Cancelled | QrLoginEvent::Shutdown => (
            None,
            QrLoginStep::Finish {
                state: QrLoginState::Cancelled,
                display_value: String::new(),
                error: String::new(),
                cancel_provider: true,
            },
        ),
        QrLoginEvent::DeadlineReached => (
            None,
            QrLoginStep::Finish {
                state: QrLoginState::Expired,
                display_value: String::new(),
                error: owned("QR login expired"),
                cancel_provider: true,
            },
        ),
        QrLoginEvent::PollFailed(message) => (None, finish_failed(message)),
        QrLoginEvent::Polled(u) => {
            let interval = match u.poll_after_ms {
                Some(ms) => Some(clamp_poll_interval(ms)),
                None => None,
            };
            let step = match u.state {
                QrLoginPollState::AwaitingScan => {
                    let image = if chars_of(u.challenge.as_str()).len() == 0 {
                        String::new()
                    } else {
                        match qr_data_url(u.challenge.as_str()) {
                            Ok(img) => img,
                            Err(_) => {
                                return (interval, finish_failed(owned("build QR code")));
                            },
                        }
                    };
                    QrLoginStep::Publish {
                        state: QrLoginState::AwaitingScan,
                        qr_image: image,
                        display_value: u.display_value,
                        error: u.error,
                    }
                },
                QrLoginPollState::AwaitingConfirmation => QrLoginStep::Publish {
                    state: QrLoginState::AwaitingConfirmation,
                    qr_image: String::new(),
                    display_value: u.display_value,
                    error: u.error,
                },
                QrLoginPollState::ChallengeChanged => {
                    if chars_of(u.challenge.as_str()).len() == 0 {
                        return (
                            interval,
                            finish_failed(
                                owned("QR login provider returned an empty replacement challenge"),
                            ),
                        );
                    }
                    let image = match qr_data_url(u.challenge.as_str()) {
                        Ok(img) => img,
                        Err(_) => {
                            return (interval, finish_failed(owned("build QR code")));
                        },
                    };
                    QrLoginStep::Publish {
                        state: QrLoginState::ChallengeChanged,
                        qr_image: image,
                        display_value: u.display_value,
                        error: u.error,
                    }
                },
                QrLoginPollState::Succeeded => QrLoginStep::Finish {
                    state: QrLoginState::Succeeded,
                    display_value: u.display_value,
                    error: u.error,
                    cancel_provider: false,
                },
                QrLoginPollState::Expired => QrLoginStep::Finish {
                    state: QrLoginState::Expired,
                    display_value: u.display_value,
                    error: u.error,
                    cancel_provider: false,
                },
                QrLoginPollState::Failed => QrLoginStep::Finish {
                    state: QrLoginState::Failed,
                    display_value: u.display_value,
                    error: u.error,
                    cancel_provider: false,
                },
            };
            (interval, step)
        },
    }
}

/// The client-facing state that names the same stage as a provider's poll
/// state.
pub open spec fn login_state_of(p: QrLoginPollState) -> QrLoginState {
    match p {
        QrLoginPollState::AwaitingScan => QrLoginState::AwaitingScan,
        QrLoginPollState::AwaitingConfirmation => QrLoginState::AwaitingConfirmation,
        QrLoginPollState::ChallengeChanged => QrLoginState::ChallengeChanged,
        QrLoginPollState::Succeeded => QrLoginState::Succeeded,
        QrLoginPollState::Expired => QrLoginState::Expired,
        QrLoginPollState::Failed => QrLoginState::Failed,
    }
}

/// Whether the provider reports the sign-in as over.
pub open spec fn poll_is_terminal(p: QrLoginPollState) -> bool {
    p == QrLoginPollState::Succeeded || p == QrLoginPollState::Expired || p == QrLoginPollState::Failed
}

/// A poll tells clients the stage the provider reports: a non-terminal
/// poll is published, and a terminal one ends the session, under the state
/// of the same name, with the provider's display value and error passed on.
/// The one exception is a poll whose new QR code cannot be shown (an empty
/// replacement challenge, or one no QR code holds), which fails the session
/// and cancels the provider's operation. A poll never changes the stage on
/// its own otherwise.
pub proof fn law_poll_published_as_its_stage(u: QrLoginPoll)
    ensures
        ({
            let (finished, state, _, display_value, error, cancel_provider) = spec_qr_step(QrLoginEvent::Polled(u));
            let unshowable = (u.state == QrLoginPollState::ChallengeChanged && u.challenge@.len() == 0) || ((
            u.state == QrLoginPollState::AwaitingScan || u.state == QrLoginPollState::ChallengeChanged)
                && u.challenge@.len() > 0 && spec_qr_data_url(u.challenge@) is None);
            &&& !unshowable ==> {
                &&& state == login_state_of(u.state)
                &&& finished == poll_is_terminal(u.state)
                &&& !cancel_provider
                &&& display_value == u.display_value@
                &&& error == u.error@
            }
            &&& unshowable ==> finished && state == QrLoginState::Failed && cancel_provider
        }),
{
}

/// A session ends exactly on a terminal poll outcome, an error, the
/// deadline, cancellation or shutdown; the provider's operation is
/// cancelled exactly when the daemon, not the provider, ended it.
pub proof fn law_terminal_steps(event: QrLoginEvent)
    ensures
        ({
            let (finished, state, _, _, _, cancel_provider) = spec_qr_step(event);
            &&& finished ==> (state == QrLoginState::Succeeded || state == QrLoginState::Expired
                || state == QrLoginState::Failed || state == QrLoginState::Cancelled)
            &&& !finished ==> (state == QrLoginState::AwaitingScan || state
                == QrLoginState::AwaitingConfirmation || state == QrLoginState::ChallengeChanged)
            &&& cancel_provider <==> finished && !(event matches QrLoginEvent::Polled(u) && (u.state
                == QrLoginPollState::Succeeded || u.state == QrLoginPollState::Expired || u.state
                == QrLoginPollState::Failed))
        }),
{
}

} // verus!
