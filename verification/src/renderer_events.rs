//! Decisions the renderer event reader takes on each event: whether a
//! buffer pool binding is consistent, which acquire fences it keeps, and
//! what it does with file descriptors on events that carry none.

use std::collections::VecDeque;
use vstd::prelude::*;
use crate::pcm_window::keep_last;

verus! {

/// What becomes of a `BindBuffers` event.
#[derive(Debug, Clone, Copy, PartialEq, Eq, Structural)]
pub enum BindBuffersCheck {
    /// Cache the pool; `regressed` when its generation is not above the
    /// one published before (accepted all the same).
    Accept { regressed: bool },
    /// The per-plane arrays or the fds do not hold `count * planes`
    /// entries each; the pool is dropped.
    LengthMismatch { expected: u64 },
    /// Consistent, but no fds came with it; the pool is dropped.
    MissingFds,
}

/// Checks a `BindBuffers` pool of `count` buffers with `planes_per_buffer`
/// planes each against the lengths of its per-plane arrays and fds.
pub fn check_bind_buffers(
    count: u32,
    planes_per_buffer: u32,
    stride_len: usize,
    offset_len: usize,
    size_len: usize,
    fds_len: usize,
    generation: u64,
    previous_generation: Option<u64>,
) -> (r: BindBuffersCheck)
    ensures
        ({
            let expected = count * planes_per_buffer;
            if stride_len != expected || offset_len != expected || size_len != expected || fds_len != expected {
                r == (BindBuffersCheck::LengthMismatch { expected: expected as u64 })
            } else if fds_len == 0 {
                r == BindBuffersCheck::MissingFds
            } else {
                r == (BindBuffersCheck::Accept {
                    regressed: previous_generation matches Some(prev) && generation <= prev,
                })
            }
        }),
{
    assert(count * planes_per_buffer <= u64::MAX) by (nonlinear_arith);
    let expected: u64 = count as u64 * planes_per_buffer as u64;
    if stride_len as u64 != expected || offset_len as u64 != expected || size_len as u64 != expected
        || fds_len as u64 != expected {
        return BindBuffersCheck::LengthMismatch { expected };
    }
    if fds_len == 0 {
        return BindBuffersCheck::MissingFds;
    }
    let regressed = match previous_generation {
        Some(prev) => generation <= prev,
        None => false,
    };
    BindBuffersCheck::Accept { regressed }
}

/// Keeps the acquire fence of frame `sequence`, dropping the oldest ones so
/// that at most `retention` remain.
pub fn retain_sync_fd<F>(queue: &mut VecDeque<(u64, F)>, retention: usize, sequence: u64, fd: F)
    requires
        retention > 0,
    ensures
        final(queue)@ == keep_last(old(queue)@.push((sequence, fd)), retention as nat),
{
    let ghost start = queue@;
    let ghost mut dropped: int = 0;
    while queue.len() >= retention
        invariant
            retention > 0,
            0 <= dropped <= start.len(),
            queue@ == start.skip(dropped),
            dropped > 0 ==> start.len() - dropped >= retention - 1,
        decreases queue@.len(),
    {
        let _oldest = queue.pop_front();
        proof {
            dropped = dropped + 1;
            assert(queue@ =~= start.skip(dropped));
        }
    }
    queue.push_back((sequence, fd));
    proof {
        let all = start.push((sequence, fd));
        if all.len() > retention {
            assert(dropped == all.len() - retention);
            assert(queue@ =~= all.skip(all.len() - retention));
        } else {
            assert(dropped == 0);
            assert(queue@ =~= all);
        }
    }
}

/// The events the reader tells apart.
#[derive(Debug, Clone, Copy, PartialEq, Eq, Structural)]
pub enum ReaderEventKind {
    SetEventSubscriptions,
    BindBuffers,
    FrameReady,
    ReleaseSyncobj,
    FormatCaps,
    BindFailed,
    ReportState,
    Other,
}

/// Whether fds arriving with an event of `kind` are dropped with a
/// warning: those on events that no handler looks at (a subscription
/// update, or an event the reader does not handle). Handled events take
/// their fds or let them go quietly.
pub fn unexpected_fds(kind: ReaderEventKind, fds_len: usize) -> (r: bool)
    ensures
        r == (fds_len > 0 && (kind is SetEventSubscriptions || kind is Other)),
{
    fds_len > 0 && match kind {
        ReaderEventKind::SetEventSubscriptions => true,
        ReaderEventKind::Other => true,
        _ => false,
    }
}

/// Whether a ready frame counts towards the progress of the current
/// binding: only while progress follows the generation of the pool now
/// published.
pub fn frame_counts_for_progress(progress_generation: Option<u64>, pool_generation: u64) -> (r: bool)
    ensures
        r == (progress_generation == Some(pool_generation)),
{
    match progress_generation {
        Some(g) => g == pool_generation,
        None => false,
    }
}

} // verus!
