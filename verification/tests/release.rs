use waywallen::release::{ReleaseFrontier, ReleaseFrontierInsertError};

#[test]
fn release_frontier_never_publishes_across_a_gap() {
    let mut frontier = ReleaseFrontier::new();

    frontier.insert(3, "three").unwrap();
    frontier.insert(1, "one").unwrap();
    assert_eq!(frontier.next_ready(), Some((1, &"one")));
    assert_eq!(frontier.commit_next(), Some("one"));
    assert_eq!(frontier.next_ready(), None);

    frontier.insert(2, "two").unwrap();
    assert_eq!(frontier.next_ready(), Some((2, &"two")));
    assert_eq!(frontier.commit_next(), Some("two"));
    assert_eq!(frontier.next_ready(), Some((3, &"three")));
    assert_eq!(frontier.commit_next(), Some("three"));
}

#[test]
fn release_frontier_rejects_invalid_duplicate_and_published_points() {
    let mut frontier = ReleaseFrontier::new();

    assert_eq!(
        frontier.insert(0, "zero"),
        Err(ReleaseFrontierInsertError::InvalidPoint)
    );
    frontier.insert(1, "one").unwrap();
    assert_eq!(
        frontier.insert(1, "replacement"),
        Err(ReleaseFrontierInsertError::Duplicate)
    );
    assert_eq!(frontier.commit_next(), Some("one"));
    assert_eq!(
        frontier.insert(1, "stale"),
        Err(ReleaseFrontierInsertError::AlreadyPublished)
    );
}

#[test]
fn pending_count_tracks_unpublished_points() {
    let mut frontier = ReleaseFrontier::new();
    assert_eq!(frontier.pending_count(), 0);
    frontier.insert(2, 20u32).unwrap();
    frontier.insert(5, 50u32).unwrap();
    assert_eq!(frontier.pending_count(), 2);
    assert_eq!(frontier.commit_next(), None);
    assert_eq!(frontier.pending_count(), 2);
}
