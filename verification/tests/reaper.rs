use waywallen::drm_syncobj::{
    binary_state_from_wait, classify_wait_args, BinarySyncobjState, SyncobjWaitOutcome,
    DRM_SYNCOBJ_WAIT_FLAGS_WAIT_ALL,
};
use waywallen::reaper::{
    consumers_match_frame, Bucket, BucketError, FrameConsumerIdentity, FrameIdentity,
    ReleaseEvent, ReleaseWaitState,
};

fn identity(point: u64) -> FrameIdentity {
    FrameIdentity {
        buffer_generation: 3,
        buffer_index: 1,
        release_point: point,
    }
}

fn consumer(frame: FrameIdentity, display_id: u64, session_id: u64) -> FrameConsumerIdentity {
    FrameConsumerIdentity {
        frame,
        renderer_id: "renderer-test".to_owned(),
        display_id,
        display_session_id: session_id,
        display_name: format!("display-{display_id}"),
        frame_seq: frame.release_point,
    }
}

#[test]
fn bucket_completes_only_after_every_unique_member() {
    let mut bucket: Bucket<u32> = Bucket::new(identity(7));
    let first = consumer(identity(7), 1, 11);
    let second = consumer(identity(7), 2, 12);
    bucket.register(vec![first.clone(), second.clone()]).unwrap();
    bucket.skip(0, &first).unwrap();
    assert!(!bucket.ready());
    bucket.skip(1, &second).unwrap();
    assert!(bucket.ready());
}

#[test]
fn registration_and_member_lookup_are_checked() {
    let mut bucket: Bucket<u32> = Bucket::new(identity(4));
    let c = consumer(identity(4), 1, 9);
    assert_eq!(bucket.skip(0, &c), Err(BucketError::NotRegistered));
    assert!(!bucket.ready());
    bucket.register(vec![c.clone()]).unwrap();
    assert_eq!(bucket.register(vec![]), Err(BucketError::DuplicateRegistration));
    assert_eq!(bucket.skip(1, &c), Err(BucketError::MemberIndexOutOfRange));
    let other = consumer(identity(4), 2, 9);
    assert_eq!(bucket.skip(0, &other), Err(BucketError::ConsumerMismatch));
    bucket.skip(0, &c).unwrap();
    assert_eq!(bucket.skip(0, &c), Err(BucketError::DuplicateCompletion));
    assert_eq!(bucket.deliver(0, &c, 5, true), Err(BucketError::DuplicateDelivery));
}

#[test]
fn empty_registration_is_ready_with_nothing_to_wait_on() {
    let mut bucket: Bucket<u32> = Bucket::new(identity(2));
    bucket.register(Vec::new()).unwrap();
    assert!(bucket.ready());
    assert!(bucket.into_waits().is_empty());
}

#[test]
fn delivery_then_arm_makes_the_fence_waitable() {
    let mut bucket: Bucket<u32> = Bucket::new(identity(5));
    let a = consumer(identity(5), 1, 21);
    let b = consumer(identity(5), 2, 22);
    bucket.register(vec![a.clone(), b.clone()]).unwrap();
    assert_eq!(bucket.deliver(0, &a, 40, true), Ok(ReleaseWaitState::DeliveredUnarmed));
    assert_eq!(bucket.deliver(1, &b, 41, false), Ok(ReleaseWaitState::Armed));
    assert!(!bucket.ready());
    assert_eq!(bucket.fence_awaiting_arm(0, &a), Some(&40));
    assert_eq!(bucket.fence_awaiting_arm(1, &b), None);

    let refused = bucket.arm(0, &a, Some(BinarySyncobjState::Unsubmitted));
    assert_eq!(refused, Err(BucketError::ArmBeforeSubmission));
    assert!(refused.unwrap_err().poisons_generation());
    assert_eq!(bucket.arm(0, &a, None), Err(BucketError::ArmClassificationFailed));
    assert_eq!(bucket.arm(1, &b, Some(BinarySyncobjState::Signaled)), Err(BucketError::ArmNotAwaited));
    assert!(!BucketError::DuplicateDelivery.poisons_generation());

    assert_eq!(bucket.arm(0, &a, Some(BinarySyncobjState::Pending)), Ok(()));
    assert!(bucket.ready());
    let waits = bucket.into_waits();
    assert_eq!(waits.len(), 2);
    assert_eq!((waits[0].handle, waits[0].legacy), (40, false));
    assert_eq!((waits[1].handle, waits[1].legacy), (41, true));
    assert_eq!(waits[1].consumer, b);
}

#[test]
fn closing_a_session_resolves_or_arms_its_members() {
    let mut bucket: Bucket<u32> = Bucket::new(identity(8));
    let queued = consumer(identity(8), 1, 7);
    let unsubmitted = consumer(identity(8), 2, 7);
    let submitted = consumer(identity(8), 3, 7);
    let elsewhere = consumer(identity(8), 4, 8);
    bucket
        .register(vec![queued.clone(), unsubmitted.clone(), submitted.clone(), elsewhere.clone()])
        .unwrap();
    bucket.deliver(1, &unsubmitted, 10, true).unwrap();
    bucket.deliver(2, &submitted, 11, true).unwrap();
    let outcome = bucket.close_session(
        7,
        &[None, Some(BinarySyncobjState::Unsubmitted), Some(BinarySyncobjState::Pending), None],
    );
    assert!(outcome.poisoned.is_none());
    assert_eq!(
        outcome.events,
        vec![
            ReleaseEvent::Resolved { consumer: unsubmitted.clone() },
            ReleaseEvent::Waiting { consumer: submitted.clone(), state: ReleaseWaitState::Armed },
        ]
    );
    assert!(!bucket.ready());
    bucket.skip(3, &elsewhere).unwrap();
    assert!(bucket.ready());
    let waits = bucket.into_waits();
    assert_eq!(waits.len(), 1);
    assert_eq!(waits[0].handle, 11);
}

#[test]
fn unclassifiable_fence_on_session_close_poisons_the_generation() {
    let mut bucket: Bucket<u32> = Bucket::new(identity(9));
    let c = consumer(identity(9), 1, 3);
    bucket.register(vec![c.clone()]).unwrap();
    bucket.deliver(0, &c, 1, true).unwrap();
    let outcome = bucket.close_session(3, &[None]);
    assert_eq!(outcome.poisoned, Some(c.clone()));
    assert!(outcome.events.is_empty());
    assert!(!bucket.ready());
}

#[test]
fn registered_consumers_must_belong_to_the_frame() {
    let frame = identity(3);
    assert!(consumers_match_frame(frame, &[consumer(frame, 1, 1), consumer(frame, 2, 2)]));
    assert!(!consumers_match_frame(frame, &[consumer(frame, 1, 1), consumer(identity(4), 2, 2)]));
    assert!(consumers_match_frame(frame, &[]));
}

#[test]
fn zero_timeout_wait_classifies_binary_syncobj() {
    assert_eq!(binary_state_from_wait(SyncobjWaitOutcome::Completed), Ok(BinarySyncobjState::Signaled));
    assert_eq!(binary_state_from_wait(SyncobjWaitOutcome::TimedOut), Ok(BinarySyncobjState::Pending));
    assert_eq!(
        binary_state_from_wait(SyncobjWaitOutcome::InvalidArgument),
        Ok(BinarySyncobjState::Unsubmitted)
    );
    assert_eq!(binary_state_from_wait(SyncobjWaitOutcome::OtherErrno(5)), Err(5));
    let args = classify_wait_args(0x1000);
    assert_eq!(args.handles, 0x1000);
    assert_eq!(args.timeout_nsec, 0);
    assert_eq!(args.count_handles, 1);
    assert_eq!(args.flags, DRM_SYNCOBJ_WAIT_FLAGS_WAIT_ALL);
}
