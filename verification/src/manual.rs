//! The user's manual controls: global pause, mute and stop, whether another
//! application plays audio, and which renderers are paused by hand. Each
//! setter tells whether anything changed, so that the router reconciles
//! only then.

use vstd::prelude::*;
use crate::text::str_eq;

verus! {

/// The global manual switches as reported to clients.
#[derive(Debug, Clone, Copy, PartialEq, Eq, Structural)]
pub struct ManualLifecycleState {
    pub paused: bool,
    pub muted: bool,
    pub stopped: bool,
}

/// The global manual switches and the playback of other applications.
#[derive(Debug, Clone, Copy, PartialEq, Eq, Structural)]
pub struct ManualControls {
    pub paused: bool,
    pub muted: bool,
    pub stopped: bool,
    pub other_playback_active: bool,
}

impl ManualControls {
    /// Nothing paused, muted or stopped, and no other playback.
    pub fn new() -> (r: Self)
        ensures
            r == (ManualControls { paused: false, muted: false, stopped: false, other_playback_active: false }),
    {
        ManualControls { paused: false, muted: false, stopped: false, other_playback_active: false }
    }

    /// Sets the global pause; true iff it changed.
    pub fn set_manual_pause(&mut self, paused: bool) -> (changed: bool)
        ensures
            changed == (old(self).paused != paused),
            *final(self) == (ManualControls { paused, ..*old(self) }),
    {
        let changed = self.paused != paused;
        self.paused = paused;
        changed
    }

    /// Flips the global pause and returns its new value.
    pub fn toggle_manual_pause(&mut self) -> (paused: bool)
        ensures
            paused == !old(self).paused,
            *final(self) == (ManualControls { paused, ..*old(self) }),
    {
        self.paused = !self.paused;
        self.paused
    }

    /// Sets the global mute; true iff it changed.
    pub fn set_manual_mute(&mut self, muted: bool) -> (changed: bool)
        ensures
            changed == (old(self).muted != muted),
            *final(self) == (ManualControls { muted, ..*old(self) }),
    {
        let changed = self.muted != muted;
        self.muted = muted;
        changed
    }

    /// Flips the global mute and returns its new value.
    pub fn toggle_manual_mute(&mut self) -> (muted: bool)
        ensures
            muted == !old(self).muted,
            *final(self) == (ManualControls { muted, ..*old(self) }),
    {
        self.muted = !self.muted;
        self.muted
    }

    /// Sets the global stop; true iff it changed.
    pub fn set_manual_stop(&mut self, stopped: bool) -> (changed: bool)
        ensures
            changed == (old(self).stopped != stopped),
            *final(self) == (ManualControls { stopped, ..*old(self) }),
    {
        let changed = self.stopped != stopped;
        self.stopped = stopped;
        changed
    }

    /// Records whether another application plays audio; true iff it changed.
    pub fn set_other_playback_active(&mut self, active: bool) -> (changed: bool)
        ensures
            changed == (old(self).other_playback_active != active),
            *final(self) == (ManualControls { other_playback_active: active, ..*old(self) }),
    {
        let changed = self.other_playback_active != active;
        self.other_playback_active = active;
        changed
    }

    /// The global switches.
    pub fn manual_lifecycle_state(&self) -> (r: ManualLifecycleState)
        ensures
            r == (ManualLifecycleState { paused: self.paused, muted: self.muted, stopped: self.stopped }),
    {
        ManualLifecycleState { paused: self.paused, muted: self.muted, stopped: self.stopped }
    }
}

/// No id occurs twice.
pub open spec fn ids_unique(ids: Seq<String>) -> bool {
    forall|i: int, j: int| 0 <= i < j < ids.len() ==> ids[i]@ != ids[j]@
}

/// The ids of `ids` as a set.
pub open spec fn id_set(ids: Seq<String>) -> Set<Seq<char>> {
    Set::new(|x: Seq<char>| exists|i: int| 0 <= i < ids.len() && #[trigger] ids[i]@ == x)
}

/// The renderers paused by hand.
pub struct PausedRenderers {
    ids: Vec<String>,
}

impl View for PausedRenderers {
    type V = Set<Seq<char>>;

    closed spec fn view(&self) -> Set<Seq<char>> {
        id_set(self.ids@)
    }
}

impl PausedRenderers {
    #[verifier::type_invariant]
    spec fn well_formed(self) -> bool {
        ids_unique(self.ids@)
    }

    /// No renderer paused by hand.
    pub fn new() -> (r: Self)
        ensures
            r@ == Set::<Seq<char>>::empty(),
    {
        let r = PausedRenderers { ids: Vec::new() };
        proof {
            assert(r@ =~= Set::<Seq<char>>::empty());
        }
        r
    }

    fn position(&self, renderer_id: &str) -> (r: Option<usize>)
        ensures
            r matches Some(i) ==> i < self.ids@.len() && self.ids@[i as int]@ == renderer_id@,
            r is None ==> !self@.contains(renderer_id@),
    {
        let mut i: usize = 0;
        while i < self.ids.len()
            invariant
                0 <= i <= self.ids@.len(),
                forall|k: int| 0 <= k < i ==> (#[trigger] self.ids@[k])@ != renderer_id@,
            decreases self.ids@.len() - i,
        {
            if str_eq(self.ids[i].as_str(), renderer_id) {
                return Some(i);
            }
            i = i + 1;
        }
        None
    }

    /// Whether `renderer_id` is paused by hand.
    pub fn contains(&self, renderer_id: &str) -> (r: bool)
        ensures
            r == self@.contains(renderer_id@),
    {
        match self.position(renderer_id) {
            Some(i) => {
                proof {
                    assert(self.ids@[i as int]@ == renderer_id@);
                }
                true
            },
            None => false,
        }
    }

    /// Pauses or resumes `renderer_id` by hand; true iff that changed.
    pub fn set_paused(&mut self, renderer_id: &str, paused: bool) -> (changed: bool)
        ensures
            changed == (old(self)@.contains(renderer_id@) != paused),
            final(self)@ == if paused {
                old(self)@.insert(renderer_id@)
            } else {
                old(self)@.remove(renderer_id@)
            },
    {
        proof {
            use_type_invariant(&*self);
        }
        let ghost before = self.ids@;
        match self.position(renderer_id) {
            Some(i) => {
                proof {
                    assert(id_set(before).contains(renderer_id@)) by {
                        assert(before[i as int]@ == renderer_id@);
                    }
                }
                if paused {
                    proof {
                        assert(id_set(before).insert(renderer_id@) =~= id_set(before));
                    }
                    false
                } else {
                    let mut ids: Vec<String> = Vec::new();
                    std::mem::swap(&mut ids, &mut self.ids);
                    let _gone = ids.remove(i);
                    proof {
                        let after = ids@;
                        assert(after =~= before.remove(i as int));
                        assert forall|a: int, b: int| 0 <= a < b < after.len() implies after[a]@ != after[b]@ by {
                            let a0 = if a < i { a } else { a + 1 };
                            let b0 = if b < i { b } else { b + 1 };
                            assert(after[a] == before[a0] && after[b] == before[b0]);
                        }
                        assert forall|x: Seq<char>| id_set(after).contains(x) == id_set(before).remove(renderer_id@).contains(x) by {
                            if id_set(after).contains(x) {
                                let k = choose|k: int| 0 <= k < after.len() && #[trigger] after[k]@ == x;
                                let k0 = if k < i { k } else { k + 1 };
                                assert(after[k] == before[k0]);
                                assert(k0 != i);
                            }
                            if id_set(before).remove(renderer_id@).contains(x) {
                                let k = choose|k: int| 0 <= k < before.len() && #[trigger] before[k]@ == x;
                                assert(k != i);
                                let k1 = if k < i { k } else { k - 1 };
                                assert(after[k1] == before[k]);
                            }
                        }
                        assert(id_set(after) =~= id_set(before).remove(renderer_id@));
                    }
                    self.ids = ids;
                    true
                }
            },
            None => {
                if paused {
                    let mut ids: Vec<String> = Vec::new();
                    std::mem::swap(&mut ids, &mut self.ids);
                    let ghost rid = renderer_id@;
                    ids.push(crate::text::owned(renderer_id));
                    proof {
                        let after = ids@;
                        assert(after.drop_last() =~= before);
                        assert forall|a: int, b: int| 0 <= a < b < after.len() implies after[a]@ != after[b]@ by {
                            if b == before.len() {
                                assert(after[a] == before[a]);
                                assert(!id_set(before).contains(rid));
                            } else {
                                assert(after[a] == before[a] && after[b] == before[b]);
                            }
                        }
                        assert forall|x: Seq<char>| id_set(after).contains(x) == id_set(before).insert(rid).contains(x) by {
                            if id_set(after).contains(x) {
                                let k = choose|k: int| 0 <= k < after.len() && #[trigger] after[k]@ == x;
                                if k < before.len() {
                                    assert(after[k] == before[k]);
                                }
                            }
                            if id_set(before).contains(x) {
                                let k = choose|k: int| 0 <= k < before.len() && #[trigger] before[k]@ == x;
                                assert(after[k] == before[k]);
                            }
                            if x == rid {
                                assert(after[before.len() as int]@ == rid);
                            }
                        }
                        assert(id_set(after) =~= id_set(before).insert(rid));
                    }
                    self.ids = ids;
                    true
                } else {
                    proof {
                        assert(id_set(before).remove(renderer_id@) =~= id_set(before));
                    }
                    false
                }
            },
        }
    }
}

} // verus!
