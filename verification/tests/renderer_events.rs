use std::collections::VecDeque;
use waywallen::renderer_events::{
    check_bind_buffers, frame_counts_for_progress, retain_sync_fd, unexpected_fds,
    BindBuffersCheck, ReaderEventKind,
};

#[test]
fn bind_buffers_lengths_must_match_count_times_planes() {
    assert_eq!(
        check_bind_buffers(3, 2, 6, 6, 6, 6, 4, Some(3)),
        BindBuffersCheck::Accept { regressed: false }
    );
    assert_eq!(
        check_bind_buffers(3, 2, 6, 6, 6, 6, 3, Some(3)),
        BindBuffersCheck::Accept { regressed: true }
    );
    assert_eq!(
        check_bind_buffers(3, 2, 6, 5, 6, 6, 4, None),
        BindBuffersCheck::LengthMismatch { expected: 6 }
    );
    assert_eq!(
        check_bind_buffers(3, 2, 6, 6, 6, 0, 4, None),
        BindBuffersCheck::LengthMismatch { expected: 6 }
    );
    assert_eq!(check_bind_buffers(0, 4, 0, 0, 0, 0, 1, None), BindBuffersCheck::MissingFds);
}

#[test]
fn sync_fds_keep_only_the_most_recent() {
    let mut queue: VecDeque<(u64, &str)> = VecDeque::new();
    for (seq, fd) in [(1, "a"), (2, "b"), (3, "c"), (4, "d")] {
        retain_sync_fd(&mut queue, 3, seq, fd);
    }
    assert_eq!(queue.iter().map(|(s, _)| *s).collect::<Vec<_>>(), vec![2, 3, 4]);
    retain_sync_fd(&mut queue, 1, 5, "e");
    assert_eq!(queue, VecDeque::from(vec![(5, "e")]));
}

#[test]
fn fds_on_unhandled_events_are_dropped() {
    assert!(unexpected_fds(ReaderEventKind::SetEventSubscriptions, 1));
    assert!(unexpected_fds(ReaderEventKind::Other, 2));
    assert!(!unexpected_fds(ReaderEventKind::Other, 0));
    assert!(!unexpected_fds(ReaderEventKind::FrameReady, 1));
    assert!(!unexpected_fds(ReaderEventKind::ReportState, 1));
    assert!(frame_counts_for_progress(Some(4), 4));
    assert!(!frame_counts_for_progress(Some(3), 4));
    assert!(!frame_counts_for_progress(None, 4));
}
