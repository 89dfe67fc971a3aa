//! Per-frame release buckets: a presented frame is handed to several
//! consumers, and its buffer may be released only once every consumer has
//! either armed a release fence or been skipped.
//!
//! A bucket is generic in the fence handle it carries; the daemon uses DRM
//! syncobj handles, and classifies them (see `drm_syncobj`) before handing
//! the result to the bucket.

use vstd::prelude::*;
use crate::drm_syncobj::BinarySyncobjState;
use crate::text::str_eq;

verus! {

/// Which buffer, in which buffer generation, and at which release point.
#[derive(Clone, Copy, Debug, PartialEq, Eq, Hash, Structural)]
pub struct FrameIdentity {
    pub buffer_generation: u64,
    pub buffer_index: u32,
    pub release_point: u64,
}

/// One consumer of one frame: the display session it was presented on.
#[derive(Clone, Debug, PartialEq, Eq, Hash)]
pub struct FrameConsumerIdentity {
    pub frame: FrameIdentity,
    pub renderer_id: String,
    pub display_id: u64,
    pub display_session_id: u64,
    pub display_name: String,
    pub frame_seq: u64,
}

/// What a consumer's release is waiting for.
#[derive(Clone, Copy, Debug, PartialEq, Eq, Structural)]
pub enum ReleaseWaitState {
    /// Delivered; the consumer has yet to arm its release fence.
    DeliveredUnarmed,
    /// The release fence is armed.
    Armed,
}

/// Release progress reported to the rest of the daemon.
#[derive(Clone, Debug, PartialEq, Eq)]
pub enum ReleaseEvent {
    Waiting { consumer: FrameConsumerIdentity, state: ReleaseWaitState },
    Resolved { consumer: FrameConsumerIdentity },
    GenerationPoisoned { consumer: FrameConsumerIdentity, reason: String },
}

/// Two consumer identities with the same fields.
pub open spec fn same_consumer(a: FrameConsumerIdentity, b: FrameConsumerIdentity) -> bool {
    &&& a.frame == b.frame
    &&& a.renderer_id@ == b.renderer_id@
    &&& a.display_id == b.display_id
    &&& a.display_session_id == b.display_session_id
    &&& a.display_name@ == b.display_name@
    &&& a.frame_seq == b.frame_seq
}

/// Field-by-field equality of two consumer identities.
pub fn consumer_eq(a: &FrameConsumerIdentity, b: &FrameConsumerIdentity) -> (r: bool)
    ensures
        r == same_consumer(*a, *b),
{
    a.frame == b.frame && str_eq(a.renderer_id.as_str(), b.renderer_id.as_str())
        && a.display_id == b.display_id && a.display_session_id == b.display_session_id
        && str_eq(a.display_name.as_str(), b.display_name.as_str()) && a.frame_seq == b.frame_seq
}

/// Whether every consumer belongs to the frame `identity`; a frame is
/// registered only with its own consumers.
pub fn consumers_match_frame(identity: FrameIdentity, consumers: &[FrameConsumerIdentity]) -> (r: bool)
    ensures
        r == forall|i: int| 0 <= i < consumers@.len() ==> #[trigger] consumers@[i].frame == identity,
{
    let mut i: usize = 0;
    while i < consumers.len()
        invariant
            0 <= i <= consumers@.len(),
            forall|k: int| 0 <= k < i ==> #[trigger] consumers@[k].frame == identity,
        decreases consumers@.len() - i,
    {
        if consumers[i].frame != identity {
            return false;
        }
        i = i + 1;
    }
    true
}

/// Where one consumer of a frame stands.
pub enum MemberState<Hd> {
    Queued,
    DeliveredUnarmed(Hd),
    Armed { handle: Hd, legacy: bool },
    Skipped,
}

/// How far along a member is: queued, delivered, or done (armed or
/// skipped).
pub open spec fn progress<Hd>(s: MemberState<Hd>) -> int {
    match s {
        MemberState::Queued => 0,
        MemberState::DeliveredUnarmed(_) => 1,
        _ => 2,
    }
}

pub struct BucketMember<Hd> {
    pub consumer: FrameConsumerIdentity,
    pub state: MemberState<Hd>,
}

/// A member that holds an armed fence, ready to be waited on.
pub struct ConsumerWait<Hd> {
    pub consumer: FrameConsumerIdentity,
    pub handle: Hd,
    pub legacy: bool,
}

/// Why an update to a bucket was refused.
#[derive(Debug, Clone, Copy, PartialEq, Eq, Structural)]
pub enum BucketError {
    DuplicateRegistration,
    NotRegistered,
    MemberIndexOutOfRange,
    ConsumerMismatch,
    DuplicateDelivery,
    DuplicateCompletion,
    /// An arm came before the release fence was submitted.
    ArmBeforeSubmission,
    /// The release fence could not be classified.
    ArmClassificationFailed,
    /// An arm came for a member that was not waiting for one.
    ArmNotAwaited,
}

impl BucketError {
    /// The refusals of an arm, after which the producer's buffer generation
    /// is given up.
    pub fn poisons_generation(&self) -> (r: bool)
        ensures
            r <==> (*self is ArmBeforeSubmission || *self is ArmClassificationFailed
                || *self is ArmNotAwaited),
    {
        match self {
            BucketError::ArmBeforeSubmission => true,
            BucketError::ArmClassificationFailed => true,
            BucketError::ArmNotAwaited => true,
            _ => false,
        }
    }
}

/// Every member armed or skipped.
pub open spec fn all_done<Hd>(members: Seq<BucketMember<Hd>>) -> bool {
    forall|i: int| 0 <= i < members.len() ==> progress(#[trigger] members[i].state) == 2
}

/// Each member of `after` is the member of `before` at that index, with
/// the same consumer, a state no less advanced, and a finished state
/// left as it was.
pub open spec fn advanced<Hd>(before: Seq<BucketMember<Hd>>, after: Seq<BucketMember<Hd>>) -> bool {
    &&& after.len() == before.len()
    &&& forall|i: int| 0 <= i < before.len() ==> {
        &&& #[trigger] after[i].consumer == before[i].consumer
        &&& progress(after[i].state) >= progress(before[i].state)
        &&& progress(before[i].state) == 2 ==> after[i].state == before[i].state
    }
}

/// A field-for-field copy of a consumer identity.
pub fn copy_consumer(c: &FrameConsumerIdentity) -> (r: FrameConsumerIdentity)
    ensures
        r == *c,
{
    FrameConsumerIdentity {
        frame: c.frame,
        renderer_id: c.renderer_id.clone(),
        display_id: c.display_id,
        display_session_id: c.display_session_id,
        display_name: c.display_name.clone(),
        frame_seq: c.frame_seq,
    }
}

/// What closing display session `session` does to one member whose
/// delivered fence, if any, classified as `fence` (`None`: classification
/// failed): its new state, the event to report, and whether the
/// generation is poisoned. Members of other sessions are untouched.
pub open spec fn close_step<Hd>(m: BucketMember<Hd>, session: u64, fence: Option<BinarySyncobjState>) -> (
    MemberState<Hd>,
    Option<ReleaseEvent>,
    bool,
) {
    if m.consumer.display_session_id != session {
        (m.state, None, false)
    } else {
        match m.state {
            MemberState::DeliveredUnarmed(h) => match fence {
                Some(BinarySyncobjState::Unsubmitted) => (
                    MemberState::Skipped,
                    Some(ReleaseEvent::Resolved { consumer: m.consumer }),
                    false,
                ),
                Some(_) => (
                    MemberState::Armed { handle: h, legacy: false },
                    Some(ReleaseEvent::Waiting { consumer: m.consumer, state: ReleaseWaitState::Armed }),
                    false,
                ),
                None => (MemberState::DeliveredUnarmed(h), None, true),
            },
            MemberState::Armed { handle, legacy } => (MemberState::Armed { handle, legacy }, None, false),
            _ => (MemberState::Skipped, None, false),
        }
    }
}

/// The events of closing a session, over the first `n` members in order.
pub open spec fn close_events<Hd>(
    ms: Seq<BucketMember<Hd>>,
    session: u64,
    fences: Seq<Option<BinarySyncobjState>>,
    n: nat,
) -> Seq<ReleaseEvent>
    decreases n,
{
    if n == 0 {
        Seq::empty()
    } else {
        let prev = close_events(ms, session, fences, (n - 1) as nat);
        match close_step(ms[n - 1], session, fences[n - 1]).1 {
            Some(e) => prev.push(e),
            None => prev,
        }
    }
}

/// The last of the first `n` members whose fence could not be classified.
pub open spec fn close_poison<Hd>(
    ms: Seq<BucketMember<Hd>>,
    session: u64,
    fences: Seq<Option<BinarySyncobjState>>,
    n: nat,
) -> Option<FrameConsumerIdentity>
    decreases n,
{
    if n == 0 {
        None
    } else if close_step(ms[n - 1], session, fences[n - 1]).2 {
        Some(ms[n - 1].consumer)
    } else {
        close_poison(ms, session, fences, (n - 1) as nat)
    }
}

/// Closing a session never moves a member back, and leaves an armed or a
/// skipped member as it was.
pub proof fn law_close_step_advances<Hd>(m: BucketMember<Hd>, session: u64, fence: Option<BinarySyncobjState>)
    ensures
        progress(close_step(m, session, fence).0) >= progress(m.state),
        progress(m.state) == 2 ==> close_step(m, session, fence).0 == m.state,
{
}

/// A bucket whose members were all armed or skipped stays so however its
/// members advance: a released frame cannot become pending again.
pub proof fn law_done_members_stay_done<Hd>(before: Seq<BucketMember<Hd>>, after: Seq<BucketMember<Hd>>)
    requires
        advanced(before, after),
        all_done(before),
    ensures
        all_done(after),
{
    assert forall|i: int| 0 <= i < after.len() implies progress(#[trigger] after[i].state) == 2 by {
        assert(after[i].consumer == before[i].consumer);
        assert(progress(before[i].state) == 2);
    }
}

/// What closing a display session produced in one bucket.
pub struct SessionCloseOutcome {
    /// Release progress to report, in member order.
    pub events: Vec<ReleaseEvent>,
    /// A member whose delivered fence could not be classified, if any: the
    /// producer's buffer generation is then given up.
    pub poisoned: Option<FrameConsumerIdentity>,
}

/// The members of one frame, once registered.
pub struct Bucket<Hd> {
    pub identity: FrameIdentity,
    members: Option<Vec<BucketMember<Hd>>>,
}

/// Abstract state of a bucket.
pub struct BucketView<Hd> {
    pub identity: FrameIdentity,
    pub members: Option<Seq<BucketMember<Hd>>>,
}

impl<Hd> View for Bucket<Hd> {
    type V = BucketView<Hd>;

    closed spec fn view(&self) -> BucketView<Hd> {
        BucketView {
            identity: self.identity,
            members: match self.members {
                Some(v) => Some(v@),
                None => None,
            },
        }
    }
}

impl<Hd> BucketView<Hd> {
    /// Registered, and every member armed or skipped.
    pub open spec fn ready(self) -> bool {
        self.members matches Some(m) && all_done(m)
    }

    /// The error of looking up member `index` for `consumer`, if any.
    pub open spec fn lookup_error(self, index: u32, consumer: FrameConsumerIdentity) -> Option<BucketError> {
        match self.members {
            None => Some(BucketError::NotRegistered),
            Some(m) => if index >= m.len() {
                Some(BucketError::MemberIndexOutOfRange)
            } else if !same_consumer(m[index as int].consumer, consumer) {
                Some(BucketError::ConsumerMismatch)
            } else {
                None
            },
        }
    }

    /// Member `index`, for a successful lookup.
    pub open spec fn member(self, index: u32) -> BucketMember<Hd> {
        self.members.unwrap()[index as int]
    }

    /// The members with member `index` replaced.
    pub open spec fn with_member(self, index: u32, m: BucketMember<Hd>) -> BucketView<Hd> {
        BucketView { members: Some(self.members.unwrap().update(index as int, m)), ..self }
    }
}

impl<Hd> Bucket<Hd> {
    /// An unregistered bucket for `identity`.
    pub fn new(identity: FrameIdentity) -> (r: Self)
        ensures
            r@.identity == identity,
            r@.members is None,
    {
        Bucket { identity, members: None }
    }

    /// Registers the frame's consumers, each queued; a second registration
    /// is refused.
    pub fn register(&mut self, consumers: Vec<FrameConsumerIdentity>) -> (r: Result<(), BucketError>)
        ensures
            old(self)@.members is Some ==> r == Err::<(), BucketError>(BucketError::DuplicateRegistration)
                && final(self)@ == old(self)@,
            old(self)@.members is None ==> {
                &&& r is Ok
                &&& final(self)@.identity == old(self)@.identity
                &&& final(self)@.members is Some
                &&& final(self)@.members.unwrap().len() == consumers@.len()
                &&& forall|i: int| 0 <= i < consumers@.len() ==> (#[trigger] final(self)@.members.unwrap()[i]).consumer
                    == consumers@[i] && final(self)@.members.unwrap()[i].state is Queued
            },
    {
        if self.members.is_some() {
            return Err(BucketError::DuplicateRegistration);
        }
        let mut members: Vec<BucketMember<Hd>> = Vec::new();
        let mut rest = consumers;
        let ghost all = rest@;
        let ghost n = all.len();
        while rest.len() > 0
            invariant
                members@.len() + rest@.len() == n,
                rest@ == all.skip(members@.len() as int),
                n == all.len(),
                forall|i: int| 0 <= i < members@.len() ==> (#[trigger] members@[i]).consumer == all[i]
                    && members@[i].state is Queued,
            decreases rest@.len(),
        {
            let consumer = rest.remove(0);
            proof {
                assert(all.skip(members@.len() as int)[0] == all[members@.len() as int]);
            }
            members.push(BucketMember { consumer, state: MemberState::Queued });
            proof {
                assert(rest@ =~= all.skip(members@.len() as int));
            }
        }
        self.members = Some(members);
        Ok(())
    }

    /// Whether every member has armed its fence or been skipped.
    pub fn ready(&self) -> (r: bool)
        ensures
            r == self@.ready(),
    {
        match &self.members {
            None => false,
            Some(members) => {
                let mut i: usize = 0;
                while i < members.len()
                    invariant
                        0 <= i <= members@.len(),
                        self@.members == Some(members@),
                        forall|k: int| 0 <= k < i ==> progress(#[trigger] members@[k].state) == 2,
                    decreases members@.len() - i,
                {
                    match members[i].state {
                        MemberState::Armed { .. } => {},
                        MemberState::Skipped => {},
                        _ => {
                            proof {
                                assert(progress(members@[i as int].state) != 2);
                            }
                            return false;
                        },
                    }
                    i = i + 1;
                }
                true
            },
        }
    }

    /// Looks up member `index` and checks it belongs to `consumer`.
    fn check_member(&self, index: u32, consumer: &FrameConsumerIdentity) -> (r: Result<(), BucketError>)
        ensures
            r == match self@.lookup_error(index, *consumer) {
                Some(e) => Err::<(), BucketError>(e),
                None => Ok(()),
            },
    {
        match &self.members {
            None => Err(BucketError::NotRegistered),
            Some(members) => {
                if index as usize >= members.len() {
                    Err(BucketError::MemberIndexOutOfRange)
                } else if !consumer_eq(&members[index as usize].consumer, consumer) {
                    Err(BucketError::ConsumerMismatch)
                } else {
                    Ok(())
                }
            },
        }
    }

    /// Takes member `index` out, putting `placeholder` in its place.
    fn take_member(&mut self, index: u32) -> (r: BucketMember<Hd>)
        requires
            old(self)@.members is Some,
            index < old(self)@.members.unwrap().len(),
        ensures
            r == old(self)@.member(index),
            final(self)@.identity == old(self)@.identity,
            final(self)@.members is Some,
            final(self)@.members.unwrap() == old(self)@.members.unwrap().remove(index as int),
    {
        let mut members = match self.members.take() {
            Some(m) => m,
            None => Vec::new(),
        };
        let m = members.remove(index as usize);
        self.members = Some(members);
        m
    }

    /// Puts member `m` back at `index`.
    fn put_member(&mut self, index: u32, m: BucketMember<Hd>)
        requires
            old(self)@.members is Some,
            index <= old(self)@.members.unwrap().len(),
        ensures
            final(self)@.identity == old(self)@.identity,
            final(self)@.members == Some(old(self)@.members.unwrap().insert(index as int, m)),
    {
        let mut members = match self.members.take() {
            Some(m) => m,
            None => Vec::new(),
        };
        members.insert(index as usize, m);
        self.members = Some(members);
    }

    /// Records the delivery of member `index` with its release fence; the
    /// fence waits for an arm when `requires_arm`, else it counts as armed
    /// at once. Returns the state to report as waiting.
    pub fn deliver(&mut self, index: u32, consumer: &FrameConsumerIdentity, handle: Hd, requires_arm: bool) -> (r:
        Result<ReleaseWaitState, BucketError>)
        ensures
            old(self)@.lookup_error(index, *consumer) matches Some(e) ==> r == Err::<ReleaseWaitState, BucketError>(e)
                && final(self)@ == old(self)@,
            old(self)@.lookup_error(index, *consumer) is None && !(old(self)@.member(index).state is Queued)
                ==> r == Err::<ReleaseWaitState, BucketError>(BucketError::DuplicateDelivery) && final(self)@ == old(self)@,
            old(self)@.lookup_error(index, *consumer) is None && old(self)@.member(index).state is Queued ==> {
                &&& r == Ok::<ReleaseWaitState, BucketError>(
                    if requires_arm { ReleaseWaitState::DeliveredUnarmed } else { ReleaseWaitState::Armed },
                )
                &&& final(self)@ == old(self)@.with_member(index, BucketMember {
                    consumer: old(self)@.member(index).consumer,
                    state: if requires_arm {
                        MemberState::DeliveredUnarmed(handle)
                    } else {
                        MemberState::Armed { handle, legacy: true }
                    },
                })
            },
            old(self)@.members is Some ==> final(self)@.members is Some
                && advanced(old(self)@.members.unwrap(), final(self)@.members.unwrap()),
    {
        if let Err(e) = self.check_member(index, consumer) {
            return Err(e);
        }
        let ghost before = self@;
        let m = self.take_member(index);
        match m.state {
            MemberState::Queued => {
                let state = if requires_arm {
                    MemberState::DeliveredUnarmed(handle)
                } else {
                    MemberState::Armed { handle, legacy: true }
                };
                self.put_member(index, BucketMember { consumer: m.consumer, state });
                proof {
                    assert(self@.members.unwrap() =~= before.members.unwrap().update(index as int, self@.member(index)));
                }
                Ok(if requires_arm { ReleaseWaitState::DeliveredUnarmed } else { ReleaseWaitState::Armed })
            },
            other => {
                self.put_member(index, BucketMember { consumer: m.consumer, state: other });
                proof {
                    assert(self@.members.unwrap() =~= before.members.unwrap());
                }
                Err(BucketError::DuplicateDelivery)
            },
        }
    }

    /// The fence of member `index` if it awaits an arm: the fence to
    /// classify before calling `arm`.
    pub fn fence_awaiting_arm(&self, index: u32, consumer: &FrameConsumerIdentity) -> (r: Option<&Hd>)
        ensures
            r is Some <==> self@.lookup_error(index, *consumer) is None && self@.member(index).state is DeliveredUnarmed,
            r matches Some(h) ==> self@.member(index).state == MemberState::DeliveredUnarmed(*h),
    {
        if self.check_member(index, consumer).is_err() {
            return None;
        }
        match &self.members {
            Some(members) => match &members[index as usize].state {
                MemberState::DeliveredUnarmed(h) => Some(h),
                _ => None,
            },
            None => None,
        }
    }

    /// Arms member `index`, whose delivered fence was classified as
    /// `fence` (`None`: classification failed). An armed fence must have
    /// been submitted; otherwise the member stays as it was and the arm is
    /// refused.
    pub fn arm(&mut self, index: u32, consumer: &FrameConsumerIdentity, fence: Option<BinarySyncobjState>) -> (r:
        Result<(), BucketError>)
        ensures
            old(self)@.lookup_error(index, *consumer) matches Some(e) ==> r == Err::<(), BucketError>(e)
                && final(self)@ == old(self)@,
            old(self)@.lookup_error(index, *consumer) is None ==> match old(self)@.member(index).state {
                MemberState::DeliveredUnarmed(h) => match fence {
                    Some(BinarySyncobjState::Unsubmitted) => r == Err::<(), BucketError>(
                        BucketError::ArmBeforeSubmission,
                    ) && final(self)@ == old(self)@,
                    None => r == Err::<(), BucketError>(BucketError::ArmClassificationFailed)
                        && final(self)@ == old(self)@,
                    _ => r is Ok && final(self)@ == old(self)@.with_member(index, BucketMember {
                        consumer: old(self)@.member(index).consumer,
                        state: MemberState::Armed { handle: h, legacy: false },
                    }),
                },
                _ => r == Err::<(), BucketError>(BucketError::ArmNotAwaited) && final(self)@ == old(self)@,
            },
            old(self)@.members is Some ==> final(self)@.members is Some
                && advanced(old(self)@.members.unwrap(), final(self)@.members.unwrap()),
    {
        if let Err(e) = self.check_member(index, consumer) {
            return Err(e);
        }
        let ghost before = self@;
        let m = self.take_member(index);
        let consumer_id = m.consumer;
        let (state, result) = match m.state {
            MemberState::DeliveredUnarmed(h) => match fence {
                Some(BinarySyncobjState::Unsubmitted) => (
                    MemberState::DeliveredUnarmed(h),
                    Err(BucketError::ArmBeforeSubmission),
                ),
                None => (MemberState::DeliveredUnarmed(h), Err(BucketError::ArmClassificationFailed)),
                _ => (MemberState::Armed { handle: h, legacy: false }, Ok(())),
            },
            other => (other, Err(BucketError::ArmNotAwaited)),
        };
        self.put_member(index, BucketMember { consumer: consumer_id, state });
        proof {
            assert(self@.members.unwrap() =~= before.members.unwrap().update(index as int, self@.member(index)));
            if result is Err {
                assert(self@.members.unwrap() =~= before.members.unwrap());
            }
        }
        result
    }

    /// Skips member `index`, which must still be queued.
    pub fn skip(&mut self, index: u32, consumer: &FrameConsumerIdentity) -> (r: Result<(), BucketError>)
        ensures
            old(self)@.lookup_error(index, *consumer) matches Some(e) ==> r == Err::<(), BucketError>(e)
                && final(self)@ == old(self)@,
            old(self)@.lookup_error(index, *consumer) is None && !(old(self)@.member(index).state is Queued)
                ==> r == Err::<(), BucketError>(BucketError::DuplicateCompletion) && final(self)@ == old(self)@,
            old(self)@.lookup_error(index, *consumer) is None && old(self)@.member(index).state is Queued
                ==> r is Ok && final(self)@ == old(self)@.with_member(index, BucketMember {
                consumer: old(self)@.member(index).consumer,
                state: MemberState::Skipped,
            }),
            old(self)@.members is Some ==> final(self)@.members is Some
                && advanced(old(self)@.members.unwrap(), final(self)@.members.unwrap()),
    {
        if let Err(e) = self.check_member(index, consumer) {
            return Err(e);
        }
        let ghost before = self@;
        let m = self.take_member(index);
        let (state, result) = match m.state {
            MemberState::Queued => (MemberState::Skipped, Ok(())),
            other => (other, Err(BucketError::DuplicateCompletion)),
        };
        self.put_member(index, BucketMember { consumer: m.consumer, state });
        proof {
            assert(self@.members.unwrap() =~= before.members.unwrap().update(index as int, self@.member(index)));
            if result is Err {
                assert(self@.members.unwrap() =~= before.members.unwrap());
            }
        }
        result
    }

    /// Closes display session `session`: each of its members is moved on
    /// as `close_step` says, `fences[i]` being the classification of member
    /// `i`'s delivered fence. An unregistered bucket is left alone.
    pub fn close_session(&mut self, session: u64, fences: &[Option<BinarySyncobjState>]) -> (r: SessionCloseOutcome)
        requires
            old(self)@.members matches Some(m) ==> fences@.len() == m.len(),
        ensures
            old(self)@.members is None ==> final(self)@ == old(self)@ && r.events@.len() == 0 && r.poisoned is None,
            old(self)@.members matches Some(m) ==> {
                &&& final(self)@.identity == old(self)@.identity
                &&& final(self)@.members is Some
                &&& final(self)@.members.unwrap().len() == m.len()
                &&& forall|i: int| 0 <= i < m.len() ==> {
                    &&& (#[trigger] final(self)@.members.unwrap()[i]).consumer == m[i].consumer
                    &&& final(self)@.members.unwrap()[i].state == close_step(m[i], session, fences@[i]).0
                }
                &&& r.events@ == close_events(m, session, fences@, m.len())
                &&& r.poisoned == close_poison(m, session, fences@, m.len())
            },
    {
        let mut rest = match self.members.take() {
            Some(m) => m,
            None => {
                return SessionCloseOutcome { events: Vec::new(), poisoned: None };
            },
        };
        let ghost all = rest@;
        let mut out: Vec<BucketMember<Hd>> = Vec::new();
        let mut events: Vec<ReleaseEvent> = Vec::new();
        let mut poisoned: Option<FrameConsumerIdentity> = None;
        while rest.len() > 0
            invariant
                fences@.len() == all.len(),
                out@.len() <= all.len(),
                rest@ == all.skip(out@.len() as int),
                forall|k: int| 0 <= k < out@.len() ==> {
                    &&& (#[trigger] out@[k]).consumer == all[k].consumer
                    &&& out@[k].state == close_step(all[k], session, fences@[k]).0
                },
                events@ == close_events(all, session, fences@, out@.len() as nat),
                poisoned == close_poison(all, session, fences@, out@.len() as nat),
            decreases rest@.len(),
        {
            let ghost i = out@.len() as int;
            let m = rest.remove(0);
            proof {
                assert(m == all[i]);
            }
            let fence = fences[out.len()];
            if m.consumer.display_session_id != session {
                out.push(m);
            } else {
                let consumer = m.consumer;
                match m.state {
                    MemberState::DeliveredUnarmed(h) => match fence {
                        Some(BinarySyncobjState::Unsubmitted) => {
                            events.push(ReleaseEvent::Resolved { consumer: copy_consumer(&consumer) });
                            out.push(BucketMember { consumer, state: MemberState::Skipped });
                        },
                        Some(_) => {
                            events.push(ReleaseEvent::Waiting {
                                consumer: copy_consumer(&consumer),
                                state: ReleaseWaitState::Armed,
                            });
                            out.push(BucketMember { consumer, state: MemberState::Armed { handle: h, legacy: false } });
                        },
                        None => {
                            poisoned = Some(copy_consumer(&consumer));
                            out.push(BucketMember { consumer, state: MemberState::DeliveredUnarmed(h) });
                        },
                    },
                    MemberState::Armed { handle, legacy } => {
                        out.push(BucketMember { consumer, state: MemberState::Armed { handle, legacy } });
                    },
                    _ => {
                        out.push(BucketMember { consumer, state: MemberState::Skipped });
                    },
                }
            }
            proof {
                assert(rest@ =~= all.skip(out@.len() as int));
            }
        }
        self.members = Some(out);
        SessionCloseOutcome { events, poisoned }
    }

    /// The armed fences to wait on, in member order, once every member is
    /// armed or skipped.
    pub fn into_waits(self) -> (r: Vec<ConsumerWait<Hd>>)
        requires
            self@.ready(),
        ensures
            r@ == armed_waits(self@.members.unwrap()),
    {
        let ghost all = self@.members.unwrap();
        let mut rest = match self.members {
            Some(m) => m,
            None => Vec::new(),
        };
        let mut waits: Vec<ConsumerWait<Hd>> = Vec::new();
        let ghost mut taken: int = 0;
        proof {
            assert(all.take(0) =~= Seq::<BucketMember<Hd>>::empty());
        }
        while rest.len() > 0
            invariant
                0 <= taken <= all.len(),
                rest@ == all.skip(taken),
                waits@ == armed_waits(all.take(taken)),
            decreases rest@.len(),
        {
            let m = rest.remove(0);
            proof {
                assert(m == all[taken]);
                assert(all.take(taken + 1).drop_last() =~= all.take(taken));
                assert(all.take(taken + 1).last() == all[taken]);
            }
            match m.state {
                MemberState::Armed { handle, legacy } => {
                    waits.push(ConsumerWait { consumer: m.consumer, handle, legacy });
                },
                _ => {},
            }
            proof {
                taken = taken + 1;
                assert(rest@ =~= all.skip(taken));
            }
        }
        proof {
            assert(all.take(taken) =~= all);
        }
        waits
    }
}

/// The armed members as waits, in member order.
pub open spec fn armed_waits<Hd>(members: Seq<BucketMember<Hd>>) -> Seq<ConsumerWait<Hd>>
    decreases members.len(),
{
    if members.len() == 0 {
        Seq::empty()
    } else {
        let rest = armed_waits(members.drop_last());
        match members.last().state {
            MemberState::Armed { handle, legacy } => rest.push(
                ConsumerWait { consumer: members.last().consumer, handle, legacy },
            ),
            _ => rest,
        }
    }
}

} // verus!
