use std::collections::BTreeMap;
use waywallen::tasks::{
    trim_finished, TaskEvent, TaskKind, TaskRecord, TaskState, TaskTable, TRIM_FINISHED_ABOVE,
};

fn record(id: u64, state: TaskState) -> TaskRecord {
    TaskRecord { id, kind: TaskKind::Generic, name: format!("t{id}"), started_at_ms: 0, state }
}

#[test]
fn labels() {
    assert_eq!(TaskKind::Service.as_str(), "service");
    assert_eq!(TaskState::Failed("x".into()).as_str(), "failed");
    assert_eq!(TaskState::Cancelled.as_str(), "cancelled");
}

#[test]
fn trim_drops_oldest_finished_records_first() {
    let mut recs = BTreeMap::new();
    for id in 1..=(TRIM_FINISHED_ABOVE as u64 + 3) {
        let state = if id % 2 == 0 { TaskState::Completed } else { TaskState::Running };
        recs.insert(id, record(id, state));
    }
    trim_finished(&mut recs);
    assert_eq!(recs.len(), TRIM_FINISHED_ABOVE);
    assert!(!recs.contains_key(&2) && !recs.contains_key(&4) && !recs.contains_key(&6));
    assert!(recs.contains_key(&1) && recs.contains_key(&8));
}

#[test]
fn trim_keeps_running_records_beyond_the_cap() {
    let mut recs = BTreeMap::new();
    for id in 1..=(TRIM_FINISHED_ABOVE as u64 + 2) {
        recs.insert(id, record(id, TaskState::Running));
    }
    recs.insert(10_000, record(10_000, TaskState::Cancelled));
    trim_finished(&mut recs);
    assert_eq!(recs.len(), TRIM_FINISHED_ABOVE + 2);
    assert!(!recs.contains_key(&10_000));
}

#[test]
fn lifecycle_events_follow_the_record() {
    let mut table = TaskTable::new();
    let (id, started) = table.begin(TaskKind::Apply, "apply".to_string(), 42, true);
    assert_eq!(id, 1);
    assert!(matches!(started, TaskEvent::Started(ref r) if r.id == 1 && r.state == TaskState::Running));
    let (cancellable, event) = table.cancel(id);
    assert!(cancellable);
    assert!(matches!(event, Some(TaskEvent::Cancelled(1))));
    // The task's own "cancelled" error does not turn it into a failure.
    assert!(table.handle_join(id, Err("cancelled".to_string())).is_none());
    assert_eq!(table.list()[0].state, TaskState::Cancelled);
    assert_eq!(table.cancel(id), (false, None));

    let (id2, _) = table.begin(TaskKind::Startup, "scan".to_string(), 43, false);
    assert_eq!(id2, 2);
    assert_eq!(table.cancel(id2), (false, None));
    assert!(matches!(
        table.handle_join(id2, Err("boom".to_string())),
        Some(TaskEvent::Failed(2, ref m)) if m == "boom"
    ));
    assert!(matches!(table.finalize(id2, TaskState::Completed), Some(TaskEvent::Completed(2))));
    assert!(table.finalize(id2, TaskState::Running).is_none());
    assert_eq!(table.set_cancelled(id2), Some(TaskEvent::Cancelled(2)));
    assert!(table.set_cancelled(id2).is_none());
}

#[test]
fn unique_keys_track_running_tasks() {
    let mut table = TaskTable::new();
    let (id, _) = table.begin(TaskKind::Generic, "q".to_string(), 0, true);
    table.set_unique_key("query".to_string(), id);
    assert_eq!(table.running_unique_task_id("query"), Some(id));
    assert!(matches!(table.handle_join(id, Ok(())), Some(TaskEvent::Completed(_))));
    assert_eq!(table.running_unique_task_id("query"), None);
    let (id2, _) = table.begin(TaskKind::Generic, "q2".to_string(), 0, true);
    table.set_unique_key("query".to_string(), id2);
    table.set_cancelled(id2);
    assert_eq!(table.running_unique_task_id("query"), None);
    assert_eq!(table.running_unique_task_id("other"), None);
    assert_eq!(table.allocate_id(), 3);
}
