use waywallen::deadline::{DeadlineKey, DeadlineKind, DeadlineTable};

#[test]
fn replacement_invalidates_the_previous_deadline() {
    let mut table = DeadlineTable::new();
    let key = DeadlineKey::renderer_start("renderer");
    table.schedule(key.clone(), 1, 1_000);
    table.schedule(key.clone(), 2, 2_000);
    assert_eq!(table.next_deadline(), Some(2_000));
    assert!(table.take_due(1_000).is_empty());
    let reached = table.take_due(2_000);
    assert_eq!(reached.len(), 1);
    assert_eq!(reached[0].key, key);
    assert_eq!(reached[0].token, 2);
    assert_eq!(table.next_deadline(), None);
}

#[test]
fn cancellation_produces_no_event() {
    let mut table = DeadlineTable::new();
    let key = DeadlineKey::renderer_start("renderer");
    table.schedule(key.clone(), 1, 1_000);
    table.cancel(&key);
    assert!(table.take_due(1_000).is_empty());
    assert_eq!(table.next_deadline(), None);
}

#[test]
fn due_deadlines_fire_once_in_table_order() {
    let mut table = DeadlineTable::new();
    table.schedule(DeadlineKey::renderer_start("b"), 7, 30);
    table.schedule(DeadlineKey::renderer_start("a"), 8, 10);
    table.schedule(DeadlineKey::renderer_start("c"), 9, 50);
    assert_eq!(table.next_deadline(), Some(10));
    let due = table.take_due(30);
    let owners: Vec<&str> = due.iter().map(|d| d.key.owner.as_str()).collect();
    assert_eq!(owners, vec!["b", "a"]);
    assert!(table.take_due(30).is_empty());
    assert_eq!(table.next_deadline(), Some(50));
    table.cancel(&DeadlineKey::renderer_start("zzz"));
    assert_eq!(table.next_deadline(), Some(50));
    let key = DeadlineKey::renderer_start("c");
    assert_eq!(key.kind, DeadlineKind::RendererStart);
}
