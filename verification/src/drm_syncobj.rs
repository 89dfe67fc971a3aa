//! Argument blocks of the DRM syncobj and sync_file ioctls, and how a
//! zero-timeout wait classifies a binary syncobj.

use vstd::prelude::*;

verus! {

#[derive(Default, Copy, Clone, Debug)]
pub struct DrmSyncobjCreate {
    pub handle: u32,
    pub flags: u32,
}

#[derive(Default, Copy, Clone, Debug)]
pub struct DrmSyncobjDestroy {
    pub handle: u32,
    pub pad: u32,
}

#[derive(Default, Copy, Clone, Debug)]
pub struct DrmSyncobjHandle {
    pub handle: u32,
    pub flags: u32,
    pub fd: i32,
    pub pad: u32,
}

#[derive(Default, Copy, Clone, Debug)]
pub struct DrmSyncobjTransfer {
    pub src_handle: u32,
    pub dst_handle: u32,
    pub src_point: u64,
    pub dst_point: u64,
    pub flags: u32,
    pub pad: u32,
}

#[derive(Default, Copy, Clone, Debug)]
pub struct DrmSyncobjWait {
    /// Userspace address of `u32[count_handles]`.
    pub handles: u64,
    /// Absolute `CLOCK_MONOTONIC` deadline in nanoseconds; `i64::MAX` waits
    /// forever.
    pub timeout_nsec: i64,
    pub count_handles: u32,
    pub flags: u32,
    pub first_signaled: u32,
    pub pad: u32,
}

#[derive(Default, Copy, Clone, Debug)]
pub struct DrmSyncobjArray {
    /// Userspace address of `u32[count_handles]`.
    pub handles: u64,
    pub count_handles: u32,
    pub pad: u32,
}

/// `SYNC_IOC_MERGE` argument: merges two sync_file fences into a new one.
pub struct SyncMergeData {
    pub name: [u8; 32],
    pub fd2: i32,
    /// Out: the merged sync_file fd.
    pub fence: i32,
    pub flags: u32,
    pub pad: u32,
}

pub const DRM_SYNCOBJ_WAIT_FLAGS_WAIT_ALL: u32 = 1;

pub const DRM_SYNCOBJ_WAIT_FLAGS_WAIT_FOR_SUBMIT: u32 = 2;

pub const DRM_SYNCOBJ_HANDLE_TO_FD_FLAGS_EXPORT_SYNC_FILE: u32 = 1;

pub const DRM_SYNCOBJ_FD_TO_HANDLE_FLAGS_IMPORT_SYNC_FILE: u32 = 1;

/// Where a binary syncobj's fence stands.
#[derive(Debug, Clone, Copy, PartialEq, Eq, Structural)]
pub enum BinarySyncobjState {
    /// No fence has been submitted.
    Unsubmitted,
    /// A fence is submitted but not signalled.
    Pending,
    Signaled,
}

/// How a zero-timeout `DRM_IOCTL_SYNCOBJ_WAIT` without `WAIT_FOR_SUBMIT`
/// came back.
#[derive(Debug, Clone, Copy, PartialEq, Eq, Structural)]
pub enum SyncobjWaitOutcome {
    /// The ioctl succeeded.
    Completed,
    /// It failed with `ETIME`.
    TimedOut,
    /// It failed with `EINVAL`.
    InvalidArgument,
    /// It failed with this other errno.
    OtherErrno(i32),
}

/// The wait arguments that classify one syncobj without waiting: a zero
/// deadline, `WAIT_ALL`, and no `WAIT_FOR_SUBMIT`.
pub fn classify_wait_args(handles: u64) -> (r: DrmSyncobjWait)
    ensures
        r.handles == handles,
        r.timeout_nsec == 0,
        r.count_handles == 1,
        r.flags == DRM_SYNCOBJ_WAIT_FLAGS_WAIT_ALL,
        r.first_signaled == 0,
        r.pad == 0,
{
    DrmSyncobjWait {
        handles,
        timeout_nsec: 0,
        count_handles: 1,
        flags: DRM_SYNCOBJ_WAIT_FLAGS_WAIT_ALL,
        first_signaled: 0,
        pad: 0,
    }
}

/// The state a zero-timeout wait reveals: success means signalled, `ETIME`
/// a pending fence, `EINVAL` no fence at all; any other errno is an error.
pub fn binary_state_from_wait(outcome: SyncobjWaitOutcome) -> (r: Result<BinarySyncobjState, i32>)
    ensures
        r == match outcome {
            SyncobjWaitOutcome::Completed => Ok(BinarySyncobjState::Signaled),
            SyncobjWaitOutcome::TimedOut => Ok(BinarySyncobjState::Pending),
            SyncobjWaitOutcome::InvalidArgument => Ok(BinarySyncobjState::Unsubmitted),
            SyncobjWaitOutcome::OtherErrno(e) => Err(e),
        },
{
    match outcome {
        SyncobjWaitOutcome::Completed => Ok(BinarySyncobjState::Signaled),
        SyncobjWaitOutcome::TimedOut => Ok(BinarySyncobjState::Pending),
        SyncobjWaitOutcome::InvalidArgument => Ok(BinarySyncobjState::Unsubmitted),
        SyncobjWaitOutcome::OtherErrno(e) => Err(e),
    }
}

} // verus!
