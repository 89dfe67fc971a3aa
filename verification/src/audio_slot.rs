//! The latest-only audio slot of a renderer's writer: audio frames replace
//! each other instead of queueing, a wake-up is queued only when none is
//! pending, a committed subscription change drops the frame waiting, and a
//! frame goes out only while its subscription revision is current.

use vstd::prelude::*;

verus! {

/// The audio frame waiting for the writer, with its subscription revision.
pub struct AudioSlot<M> {
    pub latest: Option<(u64, M)>,
    pub wake_pending: bool,
}

impl<M> AudioSlot<M> {
    /// Nothing waiting and no wake-up pending.
    pub fn new() -> (r: Self)
        ensures
            r.latest is None,
            !r.wake_pending,
    {
        AudioSlot { latest: None, wake_pending: false }
    }

    /// Puts `msg` in place of any frame waiting. Returns whether the writer
    /// must be woken: only when no wake-up is pending already.
    pub fn replace_audio(&mut self, revision: u64, msg: M) -> (wake: bool)
        ensures
            final(self).latest == Some((revision, msg)),
            final(self).wake_pending,
            wake == !old(self).wake_pending,
    {
        self.latest = Some((revision, msg));
        let wake = !self.wake_pending;
        self.wake_pending = true;
        wake
    }

    /// The wake-up could not be queued because the writer stopped: no
    /// wake-up is pending after all.
    pub fn wake_failed(&mut self)
        ensures
            final(self).latest == old(self).latest,
            !final(self).wake_pending,
    {
        self.wake_pending = false;
    }

    /// A subscription change was committed: the frame waiting belongs to
    /// the old subscription and is dropped.
    pub fn committed(&mut self)
        ensures
            final(self).latest is None,
            final(self).wake_pending == old(self).wake_pending,
    {
        self.latest = None;
    }

    /// The writer takes the waiting frame after a batch: the wake-up is
    /// consumed, and the frame is handed out only if `current_revision` is
    /// its revision.
    pub fn take_for_send(&mut self, current_revision: Option<u64>) -> (r: Option<M>)
        ensures
            final(self).latest is None,
            !final(self).wake_pending,
            r == match old(self).latest {
                Some((revision, msg)) => if current_revision == Some(revision) {
                    Some(msg)
                } else {
                    None
                },
                None => None,
            },
    {
        self.wake_pending = false;
        let mut taken: Option<(u64, M)> = None;
        std::mem::swap(&mut taken, &mut self.latest);
        match taken {
            Some((revision, msg)) => {
                match current_revision {
                    Some(current) => {
                        if current == revision {
                            Some(msg)
                        } else {
                            None
                        }
                    },
                    None => None,
                }
            },
            None => None,
        }
    }
}

} // verus!
