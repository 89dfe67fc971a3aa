//! Whether a display consumes frames: its manual and automatic pause, the
//! one frame it asks for when it resumes, and the pause state last
//! published to clients.

use vstd::prelude::*;

verus! {

/// A display's pause as published to clients.
#[derive(Debug, Clone, Copy, PartialEq, Eq, Structural)]
pub struct PublishedPause {
    pub manual: bool,
    pub effective: bool,
}

/// The frame-consumption state of one display.
#[derive(Debug, Clone, Copy, PartialEq, Eq, Structural)]
pub struct DisplayConsumption {
    pub manual_paused: bool,
    pub auto_paused: bool,
    /// The display resumed and still wants a fresh frame.
    pub resume_frame_requested: bool,
    /// The (manual, effective) pause last published, if any.
    pub published_pause: Option<PublishedPause>,
}

impl DisplayConsumption {
    pub open spec fn spec_paused(self) -> bool {
        self.manual_paused || self.auto_paused
    }

    /// After a change of pause from `was_paused`: a display whose pause
    /// changed invalidates its consumption and wants a frame exactly when it
    /// now runs.
    pub open spec fn after_change(self, was_paused: bool) -> DisplayConsumption {
        if was_paused != self.spec_paused() {
            DisplayConsumption { resume_frame_requested: !self.spec_paused(), ..self }
        } else {
            self
        }
    }

    /// The state after a reconciliation in which the display's effective
    /// pause is `effective_paused` and `has_targets` tells whether a linked
    /// renderer has frame demand.
    pub open spec fn after_reconcile(self, effective_paused: bool, has_targets: bool) -> DisplayConsumption {
        DisplayConsumption {
            resume_frame_requested: self.resume_frame_requested && !has_targets,
            published_pause: Some(PublishedPause { manual: self.manual_paused, effective: effective_paused }),
            ..self
        }
    }

    /// A display that is not paused and has published nothing.
    pub fn new() -> (r: Self)
        ensures
            r == (DisplayConsumption {
                manual_paused: false,
                auto_paused: false,
                resume_frame_requested: false,
                published_pause: None,
            }),
    {
        DisplayConsumption {
            manual_paused: false,
            auto_paused: false,
            resume_frame_requested: false,
            published_pause: None,
        }
    }

    /// Whether the display is paused, by hand or automatically.
    pub fn display_paused(&self) -> (r: bool)
        ensures
            r == self.spec_paused(),
    {
        self.manual_paused || self.auto_paused
    }

    /// Takes note that the pause may have changed from `was_paused`; returns
    /// whether the consumption is invalidated.
    pub fn consumption_changed(&mut self, was_paused: bool) -> (invalidate: bool)
        ensures
            *final(self) == old(self).after_change(was_paused),
            invalidate == (was_paused != old(self).spec_paused()),
    {
        if was_paused != self.display_paused() {
            self.resume_frame_requested = !self.display_paused();
            true
        } else {
            false
        }
    }

    /// Sets the manual pause; returns whether it changed and whether the
    /// consumption is invalidated.
    pub fn set_manual_paused(&mut self, paused: bool) -> (r: (bool, bool))
        ensures
            r.0 == (old(self).manual_paused != paused),
            r.0 ==> *final(self) == (DisplayConsumption { manual_paused: paused, ..*old(self) }).after_change(
                old(self).spec_paused(),
            ),
            r.0 ==> r.1 == (old(self).spec_paused() != (paused || old(self).auto_paused)),
            !r.0 ==> *final(self) == *old(self) && !r.1,
    {
        if self.manual_paused == paused {
            return (false, false);
        }
        let was_paused = self.display_paused();
        self.manual_paused = paused;
        let invalidate = self.consumption_changed(was_paused);
        (true, invalidate)
    }

    /// Sets the automatic pause; returns whether it changed and whether the
    /// consumption is invalidated.
    pub fn set_auto_paused(&mut self, paused: bool) -> (r: (bool, bool))
        ensures
            r.0 == (old(self).auto_paused != paused),
            *final(self) == (DisplayConsumption { auto_paused: paused, ..*old(self) }).after_change(
                old(self).spec_paused(),
            ),
            r.1 == (old(self).spec_paused() != (old(self).manual_paused || paused)),
    {
        let was_auto = self.auto_paused;
        let was_paused = self.display_paused();
        self.auto_paused = paused;
        let invalidate = self.consumption_changed(was_paused);
        (was_auto != paused, invalidate)
    }

    /// Reconciles the display with its effective pause and whether a linked
    /// renderer has frame demand: a resumed display asks those renderers for
    /// one frame, and a pause state that differs from the published one is
    /// published. Returns whether to request a frame and whether to
    /// publish.
    pub fn reconcile(&mut self, effective_paused: bool, has_targets: bool) -> (r: (bool, bool))
        ensures
            *final(self) == old(self).after_reconcile(effective_paused, has_targets),
            r.0 == (old(self).resume_frame_requested && has_targets),
            r.1 == (old(self).published_pause != Some(PublishedPause { manual: old(self).manual_paused, effective: effective_paused })),
    {
        let request_frame = self.resume_frame_requested && has_targets;
        if request_frame {
            self.resume_frame_requested = false;
        }
        let paused = PublishedPause { manual: self.manual_paused, effective: effective_paused };
        let publish = match self.published_pause {
            Some(p) => p != paused,
            None => true,
        };
        if publish {
            self.published_pause = Some(paused);
        }
        (request_frame, publish)
    }
}

/// Whether a link wants frames: it is enabled and its display exists and
/// is not paused (`display_paused` is `None` for a missing display).
pub fn has_frame_demand(link_enabled: bool, display_paused: Option<bool>) -> (r: bool)
    ensures
        r == (link_enabled && display_paused == Some(false)),
{
    link_enabled && match display_paused {
        Some(p) => !p,
        None => false,
    }
}

/// Whether a display is paused in effect: by itself, by the global manual
/// pause, or because a renderer linked to it is paused by hand or reports
/// itself paused (`linked` holds both facts for each linked renderer).
pub fn effective_display_paused(display_paused: bool, global_paused: bool, linked: &[(bool, bool)]) -> (r: bool)
    ensures
        r == (display_paused || global_paused || exists|i: int|
            0 <= i < linked@.len() && ((#[trigger] linked@[i]).0 || linked@[i].1)),
{
    if display_paused || global_paused {
        return true;
    }
    let mut i: usize = 0;
    while i < linked.len()
        invariant
            0 <= i <= linked@.len(),
            forall|j: int| 0 <= j < i ==> !((#[trigger] linked@[j]).0 || linked@[j].1),
        decreases linked@.len() - i,
    {
        if linked[i].0 || linked[i].1 {
            return true;
        }
        i = i + 1;
    }
    false
}

/// A display that resumes asks for exactly one frame: after the change it
/// wants a frame, the first reconciliation with frame demand requests it,
/// and a second one requests nothing and publishes nothing new.
pub proof fn law_resume_requests_one_frame(s: DisplayConsumption, effective_paused: bool)
    requires
        !s.spec_paused(),
    ensures
        s.after_change(true).resume_frame_requested,
        ({
            let once = s.after_change(true).after_reconcile(effective_paused, true);
            let twice = once.after_reconcile(effective_paused, true);
            &&& !once.resume_frame_requested
            &&& twice == once
            &&& once.published_pause == Some(PublishedPause { manual: s.manual_paused, effective: effective_paused })
        }),
{
}

/// A display that pauses asks for no frame.
pub proof fn law_pause_requests_no_frame(s: DisplayConsumption)
    requires
        s.spec_paused(),
    ensures
        !s.after_change(false).resume_frame_requested,
{
}

} // verus!
