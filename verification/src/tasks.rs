//! Bookkeeping of the daemon's background tasks: identifiers, records and
//! their lifecycle, the events each change broadcasts, de-duplication keys
//! and the cap on finished records.

use vstd::prelude::*;
use std::collections::{BTreeMap, BTreeSet};
use crate::text::{owned, str_eq};
use vstd::std_specs::iter::IteratorSpec;

verus! {

broadcast use {vstd::std_specs::btree::group_btree_axioms, vstd::laws_cmp::group_laws_cmp};

pub type TaskId = u64;

/// What a task is for.
#[derive(Debug, Clone, Copy, PartialEq, Eq, Structural)]
pub enum TaskKind {
    /// One-shot startup work.
    Startup,
    /// A user-initiated wallpaper apply.
    Apply,
    /// A long-running service loop.
    Service,
    Generic,
}

impl TaskKind {
    pub fn as_str(&self) -> (r: &'static str)
        ensures
            r@ == match self {
                TaskKind::Startup => "startup"@,
                TaskKind::Apply => "apply"@,
                TaskKind::Service => "service"@,
                TaskKind::Generic => "generic"@,
            },
    {
        match self {
            TaskKind::Startup => "startup",
            TaskKind::Apply => "apply",
            TaskKind::Service => "service",
            TaskKind::Generic => "generic",
        }
    }
}

/// Where a task is in its life; a failure carries its message.
#[derive(Debug, Clone, PartialEq, Eq)]
pub enum TaskState {
    Running,
    Completed,
    Failed(String),
    Cancelled,
}

impl TaskState {
    pub fn as_str(&self) -> (r: &'static str)
        ensures
            r@ == match self {
                TaskState::Running => "running"@,
                TaskState::Completed => "completed"@,
                TaskState::Failed(_) => "failed"@,
                TaskState::Cancelled => "cancelled"@,
            },
    {
        match self {
            TaskState::Running => "running",
            TaskState::Completed => "completed",
            TaskState::Failed(_) => "failed",
            TaskState::Cancelled => "cancelled",
        }
    }
}

#[derive(Debug, Clone, PartialEq, Eq)]
pub struct TaskRecord {
    pub id: TaskId,
    pub kind: TaskKind,
    pub name: String,
    /// Milliseconds since the UNIX epoch when the task was submitted.
    pub started_at_ms: i64,
    pub state: TaskState,
}

/// A lifecycle change, as broadcast to subscribers.
#[derive(Debug, Clone, PartialEq, Eq)]
pub enum TaskEvent {
    Started(TaskRecord),
    Completed(TaskId),
    Failed(TaskId, String),
    Cancelled(TaskId),
}

/// The answer to a progress-reporting submission: the task that serves the
/// query and whether it was started now.
#[derive(Debug, Clone, PartialEq, Eq)]
pub struct ProgressTaskSubmission {
    pub query_id: String,
    pub task_id: TaskId,
    pub spawned: bool,
}

/// Finished records beyond this many records are dropped, oldest first.
pub const TRIM_FINISHED_ABOVE: usize = 512;

pub open spec fn finished(r: TaskRecord) -> bool {
    !(r.state is Running)
}

/// The records after trimming `before`: when there are more than
/// `TRIM_FINISHED_ABOVE` records, the finished records with the smallest
/// ids leave until the cap is met or no finished record is left.
pub open spec fn trimmed(before: Map<TaskId, TaskRecord>, after: Map<TaskId, TaskRecord>) -> bool {
    &&& after.dom().subset_of(before.dom())
    &&& forall|id: TaskId| #[trigger] after.contains_key(id) ==> after[id] == before[id]
    &&& forall|id: TaskId|
        before.contains_key(id) && !after.contains_key(id) ==> finished(#[trigger] before[id])
    &&& before.dom().len() <= TRIM_FINISHED_ABOVE ==> after == before
    &&& before.dom().len() > TRIM_FINISHED_ABOVE ==> {
        &&& after.dom().len() >= TRIM_FINISHED_ABOVE
        &&& (after.dom().len() == TRIM_FINISHED_ABOVE || forall|id: TaskId|
            #[trigger] after.contains_key(id) ==> !finished(after[id]))
        &&& forall|gone: TaskId, kept: TaskId|
            #[trigger] before.contains_key(gone) && !after.contains_key(gone) && #[trigger] after.contains_key(
                kept,
            ) && finished(after[kept]) ==> gone < kept
    }
}

/// The ids of the finished records.
pub open spec fn finished_ids(m: Map<TaskId, TaskRecord>) -> Set<TaskId> {
    m.dom().filter(|id: TaskId| finished(m[id]))
}

/// How many records trimming keeps: over the cap, the cap or, when there
/// are too few finished records to reach it, every running record.
pub proof fn law_trim_count(before: Map<TaskId, TaskRecord>, after: Map<TaskId, TaskRecord>)
    requires
        trimmed(before, after),
        before.dom().finite(),
        before.dom().len() > TRIM_FINISHED_ABOVE,
    ensures
        after.dom().len() == if before.dom().len() - finished_ids(before).len() > TRIM_FINISHED_ABOVE {
            before.dom().len() - finished_ids(before).len()
        } else {
            TRIM_FINISHED_ABOVE as int
        },
{
    let b = before.dom();
    let a = after.dom();
    let d = b.difference(a);
    let f = finished_ids(before);
    vstd::set_lib::lemma_len_subset(a, b);
    vstd::set_lib::lemma_len_subset(d, b);
    assert(f.subset_of(b));
    vstd::set_lib::lemma_len_subset(f, b);
    assert(a + d =~= b);
    assert(a.disjoint(d));
    vstd::set_lib::lemma_set_disjoint_lens(a, d);
    assert forall|id: TaskId| d.contains(id) implies f.contains(id) by {
        assert(finished(before[id]));
    }
    vstd::set_lib::lemma_len_subset(d, f);
    if a.len() != TRIM_FINISHED_ABOVE {
        assert forall|id: TaskId| f.contains(id) implies d.contains(id) by {
            if a.contains(id) {
                assert(after.contains_key(id));
                assert(after[id] == before[id]);
            }
        }
        assert(d =~= f);
    }
}

fn is_running(state: &TaskState) -> (r: bool)
    ensures
        r == (*state is Running),
{
    match state {
        TaskState::Running => true,
        _ => false,
    }
}

/// Drops finished records beyond the cap, smallest ids first.
pub fn trim_finished(recs: &mut BTreeMap<TaskId, TaskRecord>)
    requires
        old(recs)@.dom().finite(),
    ensures
        trimmed(old(recs)@, final(recs)@),
        final(recs)@.dom().finite(),
{
    let n = recs.len();
    if n <= TRIM_FINISHED_ABOVE {
        return;
    }
    let to_drop = n - TRIM_FINISHED_ABOVE;
    let ghost before = recs@;
    let mut doomed: Vec<TaskId> = Vec::new();
    let iter = recs.iter();
    let ghost seq0 = iter.remaining();
    proof {
        lemma_ids_increase(seq0);
    }
    for (id, rec) in it: iter
        invariant
            before == recs@,
            it.seq() == seq0,
            seq0.len() == before.dom().len(),
            forall|i: int|
                0 <= i < seq0.len() ==> before.contains_key(*seq0[i].0) && before[*seq0[i].0]
                    == *seq0[i].1,
            forall|k: TaskId| #[trigger]
                before.contains_key(k) ==> exists|i: int| 0 <= i < seq0.len() && *seq0[i].0 == k,
            forall|i: int, j: int| 0 <= i < j < seq0.len() ==> *seq0[i].0 < *seq0[j].0,
            doomed@.len() <= to_drop,
            to_drop == before.dom().len() - TRIM_FINISHED_ABOVE,
            forall|d: int| 0 <= d < doomed@.len() ==> exists|i: int|
                0 <= i < seq0.len() && *seq0[i].0 == #[trigger] doomed@[d] && finished(*seq0[i].1),
            forall|d: int, e: int| 0 <= d < e < doomed@.len() ==> doomed@[d] < doomed@[e],
            doomed@.len() < to_drop ==> forall|i: int|
                0 <= i < it.index() && finished(#[trigger] *seq0[i].1) ==> doomed@.contains(*seq0[i].0),
            forall|d: int, i: int|
                0 <= d < doomed@.len() && it.index() <= i < seq0.len() ==> #[trigger] doomed@[d]
                    < #[trigger] *seq0[i].0,
            forall|d: int, i: int|
                0 <= d < doomed@.len() && 0 <= i < it.index() && finished(*seq0[i].1)
                    && !doomed@.contains(*seq0[i].0) ==> #[trigger] doomed@[d] < #[trigger] *seq0[i].0,
    {
        let ghost idx = it.index() as int;
        let ghost before_doomed = doomed@;
        assert(*seq0[idx].0 == *id && *seq0[idx].1 == *rec);
        if doomed.len() < to_drop && !is_running(&rec.state) {
            doomed.push(*id);
            proof {
                assert(doomed@[doomed@.len() - 1] == *seq0[idx].0);
                assert forall|d: int| 0 <= d < doomed@.len() implies exists|i: int|
                    0 <= i < seq0.len() && *seq0[i].0 == #[trigger] doomed@[d] && finished(*seq0[i].1) by {
                    if d < before_doomed.len() {
                        assert(doomed@[d] == before_doomed[d]);
                        let i = choose|i: int|
                            0 <= i < seq0.len() && *seq0[i].0 == before_doomed[d] && finished(*seq0[i].1);
                    } else {
                        assert(*seq0[idx].0 == doomed@[d]);
                    }
                }
                assert forall|i: int| 0 <= i < idx + 1 && finished(#[trigger] *seq0[i].1) implies doomed@.contains(*seq0[i].0) by {
                    if i < idx {
                        let d = choose|d: int| 0 <= d < before_doomed.len() && before_doomed[d] == *seq0[i].0;
                        assert(doomed@[d] == before_doomed[d]);
                    } else {
                        assert(doomed@[doomed@.len() - 1] == *seq0[i].0);
                    }
                }
            }
        } else {
            proof {
                assert forall|i: int| 0 <= i < idx + 1 && finished(#[trigger] *seq0[i].1) && doomed@.len() < to_drop implies doomed@.contains(*seq0[i].0) by {
                    if i == idx {
                        assert(!finished(*rec));
                    }
                }
            }
        }
    }
    let ghost doomed_set = doomed@.to_set();
    let mut i: usize = 0;
    while i < doomed.len()
        invariant
            0 <= i <= doomed@.len(),
            recs@ == before.remove_keys(doomed@.take(i as int).to_set()),
        decreases doomed@.len() - i,
    {
        recs.remove(&doomed[i]);
        proof {
            assert(doomed@.take(i + 1) =~= doomed@.take(i as int).push(doomed@[i as int]));
            doomed@.take(i as int).lemma_push_to_set_commute(doomed@[i as int]);
            assert(before.remove_keys(doomed@.take(i + 1).to_set()) =~= before.remove_keys(
                doomed@.take(i as int).to_set(),
            ).remove(doomed@[i as int]));
        }
        i = i + 1;
    }
    proof {
        assert(doomed@.take(doomed@.len() as int) =~= doomed@);
        lemma_trim_result(before, doomed@, to_drop as int, recs@);
    }
}

/// Records come out of the map by increasing id.
proof fn lemma_ids_increase(s: Seq<(&TaskId, &TaskRecord)>)
    requires
        vstd::std_specs::btree::increasing_seq(s.map_values(|kv: (&TaskId, &TaskRecord)| *kv.0)),
    ensures
        forall|i: int, j: int| 0 <= i < j < s.len() ==> *s[i].0 < *s[j].0,
{
    let keys = s.map_values(|kv: (&TaskId, &TaskRecord)| *kv.0);
    assert(vstd::laws_cmp::obeys_cmp::<TaskId>());
    assert forall|i: int, j: int| 0 <= i < j < s.len() implies *s[i].0 < *s[j].0 by {
        assert(keys[i] == *s[i].0 && keys[j] == *s[j].0);
        assert(vstd::std_specs::cmp::OrdSpec::cmp_spec(&keys[i], &keys[j]) is Less);
    }
}

proof fn lemma_trim_result(
    before: Map<TaskId, TaskRecord>,
    doomed: Seq<TaskId>,
    to_drop: int,
    after: Map<TaskId, TaskRecord>,
)
    requires
        before.dom().finite(),
        before.dom().len() > TRIM_FINISHED_ABOVE,
        to_drop == before.dom().len() - TRIM_FINISHED_ABOVE,
        after == before.remove_keys(doomed.to_set()),
        doomed.len() <= to_drop,
        forall|d: int, e: int| 0 <= d < e < doomed.len() ==> doomed[d] < doomed[e],
        forall|d: int|
            0 <= d < doomed.len() ==> before.contains_key(#[trigger] doomed[d]) && finished(
                before[doomed[d]],
            ),
        forall|k: TaskId|
            before.contains_key(k) && finished(#[trigger] before[k]) && !doomed.contains(k)
                ==> doomed.len() == to_drop,
        forall|d: int, k: TaskId|
            0 <= d < doomed.len() && #[trigger] before.contains_key(k) && finished(before[k])
                && !doomed.contains(k) ==> #[trigger] doomed[d] < k,
    ensures
        trimmed(before, after),
        after.dom().finite(),
{
    broadcast use vstd::seq_lib::seq_to_set_is_finite;

    assert(doomed.no_duplicates()) by {
        assert forall|i: int, j: int| 0 <= i < doomed.len() && 0 <= j < doomed.len() && i != j implies doomed[i] != doomed[j] by {
            if i < j {
                assert(doomed[i] < doomed[j]);
            } else {
                assert(doomed[j] < doomed[i]);
            }
        }
    }
    doomed.unique_seq_to_set();
    let ds = doomed.to_set();
    assert(ds.subset_of(before.dom())) by {
        assert forall|k: TaskId| ds.contains(k) implies before.dom().contains(k) by {
            let d = choose|d: int| 0 <= d < doomed.len() && doomed[d] == k;
        }
    }
    assert(after.dom() =~= before.dom().difference(ds));
    assert(before.dom().intersect(ds) =~= ds);
    vstd::set_lib::lemma_set_difference_len(before.dom(), ds);
    assert(after.dom().len() == before.dom().len() - doomed.len());
    assert forall|gone: TaskId, kept: TaskId|
        #[trigger] before.contains_key(gone) && !after.contains_key(gone) && #[trigger] after.contains_key(kept)
            && finished(after[kept]) implies gone < kept by {
        assert(ds.contains(gone));
        let d = choose|d: int| 0 <= d < doomed.len() && doomed[d] == gone;
        assert(!ds.contains(kept));
    }
    if after.dom().len() != TRIM_FINISHED_ABOVE {
        assert forall|id: TaskId| #[trigger] after.contains_key(id) implies !finished(after[id]) by {
            if finished(after[id]) {
                assert(!ds.contains(id));
                assert(before[id] == after[id]);
                assert(!doomed.contains(id));
            }
        }
    }
}

/// The daemon's tasks: records by id, the tasks that can still be
/// cancelled cooperatively, de-duplication keys and the next id.
pub struct TaskTable {
    records: BTreeMap<TaskId, TaskRecord>,
    cancellable: BTreeSet<TaskId>,
    unique_keys: Vec<(String, TaskId)>,
    next_id: TaskId,
}

impl TaskTable {
    pub closed spec fn records_view(&self) -> Map<TaskId, TaskRecord> {
        self.records@
    }

    pub closed spec fn cancellable_view(&self) -> Set<TaskId> {
        self.cancellable@
    }

    pub closed spec fn keys_view(&self) -> Seq<(String, TaskId)> {
        self.unique_keys@
    }

    pub closed spec fn next_id_view(&self) -> TaskId {
        self.next_id
    }

    pub closed spec fn well_formed(&self) -> bool {
        &&& self.records@.dom().finite()
        &&& forall|k: TaskId| #[trigger] self.records@.contains_key(k) ==> self.records@[k].id == k
    }

    /// No tasks; the first id is 1.
    pub fn new() -> (r: Self)
        ensures
            r.well_formed(),
            r.records_view() == Map::<TaskId, TaskRecord>::empty(),
            r.cancellable_view() == Set::<TaskId>::empty(),
            r.keys_view().len() == 0,
            r.next_id_view() == 1,
    {
        TaskTable {
            records: BTreeMap::new(),
            cancellable: BTreeSet::new(),
            unique_keys: Vec::new(),
            next_id: 1,
        }
    }

    /// Takes the next id (the counter wraps, as an atomic fetch-add does).
    pub fn allocate_id(&mut self) -> (r: TaskId)
        ensures
            r == old(self).next_id_view(),
            final(self).next_id_view() == (if r == u64::MAX {
                0
            } else {
                (r + 1) as u64
            }),
            final(self).records_view() == old(self).records_view(),
            final(self).cancellable_view() == old(self).cancellable_view(),
            final(self).keys_view() == old(self).keys_view(),
            old(self).well_formed() ==> final(self).well_formed(),
    {
        let id = self.next_id;
        self.next_id = if id == u64::MAX {
            0
        } else {
            id + 1
        };
        id
    }

    /// Records a started task and trims finished records; the event
    /// announces the record.
    pub fn record_started(&mut self, id: TaskId, kind: TaskKind, name: String, now_ms: i64) -> (r:
        TaskEvent)
        requires
            old(self).well_formed(),
        ensures
            final(self).well_formed(),
            trimmed(
                old(self).records_view().insert(
                    id,
                    TaskRecord { id, kind, name, started_at_ms: now_ms, state: TaskState::Running },
                ),
                final(self).records_view(),
            ),
            r == TaskEvent::Started(
                TaskRecord { id, kind, name, started_at_ms: now_ms, state: TaskState::Running },
            ),
            final(self).cancellable_view() == old(self).cancellable_view(),
            final(self).keys_view() == old(self).keys_view(),
            final(self).next_id_view() == old(self).next_id_view(),
    {
        let record = TaskRecord {
            id,
            kind,
            name: name.clone(),
            started_at_ms: now_ms,
            state: TaskState::Running,
        };
        let event = TaskEvent::Started(
            TaskRecord { id, kind, name, started_at_ms: now_ms, state: TaskState::Running },
        );
        self.records.insert(id, record);
        trim_finished(&mut self.records);
        event
    }

    /// Starts a task: takes an id, records it, and (for a task that can be
    /// cancelled cooperatively) keeps its cancellation handle.
    pub fn begin(&mut self, kind: TaskKind, name: String, now_ms: i64, cancellable: bool) -> (r: (
        TaskId,
        TaskEvent,
    ))
        requires
            old(self).well_formed(),
        ensures
            final(self).well_formed(),
            r.0 == old(self).next_id_view(),
            trimmed(
                old(self).records_view().insert(
                    r.0,
                    TaskRecord { id: r.0, kind, name, started_at_ms: now_ms, state: TaskState::Running },
                ),
                final(self).records_view(),
            ),
            r.1 == TaskEvent::Started(
                TaskRecord { id: r.0, kind, name, started_at_ms: now_ms, state: TaskState::Running },
            ),
            final(self).cancellable_view() == (if cancellable {
                old(self).cancellable_view().insert(r.0)
            } else {
                old(self).cancellable_view()
            }),
            final(self).keys_view() == old(self).keys_view(),
    {
        let id = self.allocate_id();
        if cancellable {
            self.cancellable.insert(id);
        }
        let event = self.record_started(id, kind, name, now_ms);
        (id, event)
    }

    /// Sets a task's final state; the event announces it (none for
    /// `Running`).
    pub fn finalize(&mut self, id: TaskId, state: TaskState) -> (r: Option<TaskEvent>)
        requires
            old(self).well_formed(),
        ensures
            final(self).well_formed(),
            final(self).records_view() == (if old(self).records_view().contains_key(id) {
                old(self).records_view().insert(
                    id,
                    TaskRecord { state: state, ..old(self).records_view()[id] },
                )
            } else {
                old(self).records_view()
            }),
            r == match state {
                TaskState::Completed => Some(TaskEvent::Completed(id)),
                TaskState::Failed(msg) => Some(TaskEvent::Failed(id, msg)),
                TaskState::Cancelled => Some(TaskEvent::Cancelled(id)),
                TaskState::Running => None::<TaskEvent>,
            },
            final(self).cancellable_view() == old(self).cancellable_view(),
            final(self).keys_view() == old(self).keys_view(),
            final(self).next_id_view() == old(self).next_id_view(),
    {
        let event = match &state {
            TaskState::Completed => Some(TaskEvent::Completed(id)),
            TaskState::Failed(msg) => Some(TaskEvent::Failed(id, msg.clone())),
            TaskState::Cancelled => Some(TaskEvent::Cancelled(id)),
            TaskState::Running => None,
        };
        self.set_state(id, state);
        event
    }

    fn set_state(&mut self, id: TaskId, state: TaskState)
        requires
            old(self).well_formed(),
        ensures
            final(self).well_formed(),
            final(self).records_view() == (if old(self).records_view().contains_key(id) {
                old(self).records_view().insert(
                    id,
                    TaskRecord { state: state, ..old(self).records_view()[id] },
                )
            } else {
                old(self).records_view()
            }),
            final(self).cancellable_view() == old(self).cancellable_view(),
            final(self).keys_view() == old(self).keys_view(),
            final(self).next_id_view() == old(self).next_id_view(),
    {
        match self.records.remove(&id) {
            Some(rec) => {
                let updated = TaskRecord {
                    id: rec.id,
                    kind: rec.kind,
                    name: rec.name,
                    started_at_ms: rec.started_at_ms,
                    state,
                };
                self.records.insert(id, updated);
                proof {
                    assert(self.records@ =~= old(self).records@.insert(
                        id,
                        TaskRecord { state: state, ..old(self).records@[id] },
                    ));
                }
            },
            None => {
                proof {
                    assert(self.records@ =~= old(self).records@);
                }
            },
        }
    }

    /// Marks a running task cancelled; the event is sent only when it was
    /// running.
    pub fn set_cancelled(&mut self, id: TaskId) -> (r: Option<TaskEvent>)
        requires
            old(self).well_formed(),
        ensures
            final(self).well_formed(),
            ({
                let was = old(self).records_view();
                let running = was.contains_key(id) && was[id].state is Running;
                &&& final(self).records_view() == (if running {
                    was.insert(id, TaskRecord { state: TaskState::Cancelled, ..was[id] })
                } else {
                    was
                })
                &&& r == (if running {
                    Some(TaskEvent::Cancelled(id))
                } else {
                    None::<TaskEvent>
                })
            }),
            final(self).cancellable_view() == old(self).cancellable_view(),
            final(self).keys_view() == old(self).keys_view(),
            final(self).next_id_view() == old(self).next_id_view(),
    {
        let running = match self.records.get(&id) {
            Some(rec) => is_running(&rec.state),
            None => false,
        };
        if running {
            self.set_state(id, TaskState::Cancelled);
            Some(TaskEvent::Cancelled(id))
        } else {
            None
        }
    }

    /// Cooperatively cancels a task: `true` when it still had a
    /// cancellation handle (the caller then triggers it); a running record
    /// turns `Cancelled` at once so a later "cancelled" error is not taken
    /// for a failure.
    pub fn cancel(&mut self, id: TaskId) -> (r: (bool, Option<TaskEvent>))
        requires
            old(self).well_formed(),
        ensures
            final(self).well_formed(),
            r.0 == old(self).cancellable_view().contains(id),
            ({
                let was = old(self).records_view();
                let running = r.0 && was.contains_key(id) && was[id].state is Running;
                &&& final(self).records_view() == (if running {
                    was.insert(id, TaskRecord { state: TaskState::Cancelled, ..was[id] })
                } else {
                    was
                })
                &&& r.1 == (if running {
                    Some(TaskEvent::Cancelled(id))
                } else {
                    None::<TaskEvent>
                })
            }),
            final(self).cancellable_view() == old(self).cancellable_view(),
            final(self).keys_view() == old(self).keys_view(),
            final(self).next_id_view() == old(self).next_id_view(),
    {
        if !self.cancellable.contains(&id) {
            return (false, None);
        }
        let event = self.set_cancelled(id);
        (true, event)
    }

    /// Forgets `id`'s cancellation handle and every key that names it.
    fn release(&mut self, id: TaskId)
        ensures
            final(self).records_view() == old(self).records_view(),
            final(self).cancellable_view() == old(self).cancellable_view().remove(id),
            final(self).keys_view() == keys_without(old(self).keys_view(), id),
            final(self).next_id_view() == old(self).next_id_view(),
            old(self).well_formed() ==> final(self).well_formed(),
    {
        self.cancellable.remove(&id);
        let mut kept: Vec<(String, TaskId)> = Vec::new();
        let mut old_keys: Vec<(String, TaskId)> = Vec::new();
        std::mem::swap(&mut old_keys, &mut self.unique_keys);
        let ghost all = old_keys@;
        let n = old_keys.len();
        let mut i: usize = 0;
        proof {
            assert(all.take(0) =~= Seq::<(String, TaskId)>::empty());
        }
        while i < n
            invariant
                n == all.len(),
                0 <= i <= n,
                old_keys@ == all.skip(i as int),
                kept@ == keys_without(all.take(i as int), id),
            decreases n - i,
        {
            let entry = old_keys.remove(0);
            proof {
                assert(entry == all[i as int]);
                assert(all.take(i + 1).drop_last() =~= all.take(i as int));
            }
            if entry.1 != id {
                kept.push(entry);
            }
            i = i + 1;
        }
        proof {
            assert(all.take(n as int) =~= all);
        }
        self.unique_keys = kept;
    }

    /// Takes the outcome of a finished task: forgets its handle and keys;
    /// keeps `Cancelled` if it was cancelled, else records the outcome and
    /// announces it.
    pub fn handle_join(&mut self, id: TaskId, outcome: Result<(), String>) -> (r: Option<TaskEvent>)
        requires
            old(self).well_formed(),
        ensures
            final(self).well_formed(),
            final(self).cancellable_view() == old(self).cancellable_view().remove(id),
            final(self).keys_view() == keys_without(old(self).keys_view(), id),
            final(self).next_id_view() == old(self).next_id_view(),
            ({
                let was = old(self).records_view();
                let cancelled = was.contains_key(id) && was[id].state is Cancelled;
                let state = match outcome {
                    Ok(()) => TaskState::Completed,
                    Err(msg) => TaskState::Failed(msg),
                };
                &&& cancelled ==> final(self).records_view() == was && r is None
                &&& !cancelled ==> final(self).records_view() == (if was.contains_key(id) {
                    was.insert(id, TaskRecord { state: state, ..was[id] })
                } else {
                    was
                })
                &&& !cancelled ==> r == match outcome {
                    Ok(()) => Some(TaskEvent::Completed(id)),
                    Err(msg) => Some(TaskEvent::Failed(id, msg)),
                }
            }),
    {
        self.release(id);
        let cancelled = match self.records.get(&id) {
            Some(rec) => match rec.state {
                TaskState::Cancelled => true,
                _ => false,
            },
            None => false,
        };
        if cancelled {
            return None;
        }
        match outcome {
            Ok(()) => {
                self.set_state(id, TaskState::Completed);
                Some(TaskEvent::Completed(id))
            },
            Err(msg) => {
                let event = TaskEvent::Failed(id, msg.clone());
                self.set_state(id, TaskState::Failed(msg));
                Some(event)
            },
        }
    }

    /// The running task under `key`, if any; a key whose task is no longer
    /// running is forgotten.
    pub fn running_unique_task_id(&mut self, key: &str) -> (r: Option<TaskId>)
        requires
            old(self).well_formed(),
        ensures
            final(self).well_formed(),
            final(self).records_view() == old(self).records_view(),
            final(self).cancellable_view() == old(self).cancellable_view(),
            final(self).next_id_view() == old(self).next_id_view(),
            match key_lookup(old(self).keys_view(), key@) {
                Some(id) => if old(self).records_view().contains_key(id)
                    && old(self).records_view()[id].state is Running {
                    r == Some(id) && final(self).keys_view() == old(self).keys_view()
                } else {
                    r is None && final(self).keys_view() == keys_without_key(
                        old(self).keys_view(),
                        key@,
                    )
                },
                None => r is None && final(self).keys_view() == old(self).keys_view(),
            },
    {
        let id = match self.key_get(key) {
            Some(id) => id,
            None => {
                return None;
            },
        };
        let running = match self.records.get(&id) {
            Some(rec) => is_running(&rec.state),
            None => false,
        };
        if running {
            return Some(id);
        }
        self.remove_key(key);
        None
    }

    fn key_get(&self, key: &str) -> (r: Option<TaskId>)
        ensures
            r == key_lookup(self.keys_view(), key@),
    {
        let mut i: usize = 0;
        let mut found: Option<TaskId> = None;
        proof {
            assert(self.unique_keys@.take(0) =~= Seq::<(String, TaskId)>::empty());
        }
        while i < self.unique_keys.len()
            invariant
                0 <= i <= self.unique_keys@.len(),
                found == key_lookup(self.unique_keys@.take(i as int), key@),
            decreases self.unique_keys@.len() - i,
        {
            proof {
                assert(self.unique_keys@.take(i + 1).drop_last() =~= self.unique_keys@.take(i as int));
            }
            if str_eq(self.unique_keys[i].0.as_str(), key) {
                found = Some(self.unique_keys[i].1);
            }
            i = i + 1;
        }
        proof {
            assert(self.unique_keys@.take(self.unique_keys@.len() as int) =~= self.unique_keys@);
        }
        found
    }

    fn remove_key(&mut self, key: &str)
        ensures
            final(self).records_view() == old(self).records_view(),
            final(self).cancellable_view() == old(self).cancellable_view(),
            final(self).next_id_view() == old(self).next_id_view(),
            final(self).keys_view() == keys_without_key(old(self).keys_view(), key@),
            old(self).well_formed() ==> final(self).well_formed(),
    {
        let mut kept: Vec<(String, TaskId)> = Vec::new();
        let mut old_keys: Vec<(String, TaskId)> = Vec::new();
        std::mem::swap(&mut old_keys, &mut self.unique_keys);
        let ghost all = old_keys@;
        let n = old_keys.len();
        let mut i: usize = 0;
        proof {
            assert(all.take(0) =~= Seq::<(String, TaskId)>::empty());
        }
        while i < n
            invariant
                n == all.len(),
                0 <= i <= n,
                old_keys@ == all.skip(i as int),
                kept@ == keys_without_key(all.take(i as int), key@),
            decreases n - i,
        {
            let entry = old_keys.remove(0);
            proof {
                assert(entry == all[i as int]);
                assert(all.take(i + 1).drop_last() =~= all.take(i as int));
            }
            if !str_eq(entry.0.as_str(), key) {
                kept.push(entry);
            }
            i = i + 1;
        }
        proof {
            assert(all.take(n as int) =~= all);
        }
        self.unique_keys = kept;
    }

    /// Files `id` under `key`, replacing an earlier task of that key.
    pub fn set_unique_key(&mut self, key: String, id: TaskId)
        ensures
            final(self).keys_view() == keys_without_key(old(self).keys_view(), key@).push((key, id)),
            final(self).records_view() == old(self).records_view(),
            final(self).cancellable_view() == old(self).cancellable_view(),
            final(self).next_id_view() == old(self).next_id_view(),
            old(self).well_formed() ==> final(self).well_formed(),
    {
        self.remove_key(key.as_str());
        self.unique_keys.push((key, id));
    }

    /// All records.
    pub fn list(&self) -> (r: Vec<TaskRecord>)
        requires
            self.well_formed(),
        ensures
            r@.len() == self.records_view().dom().len(),
            forall|i: int| 0 <= i < r@.len() ==> #[trigger] self.records_view().contains_key(r@[i].id),
    {
        let mut out: Vec<TaskRecord> = Vec::new();
        for (id, rec) in it: self.records.iter()
            invariant
                it.seq().len() == self.records@.dom().len(),
                forall|i: int|
                    0 <= i < it.seq().len() ==> self.records@.contains_key(*it.seq()[i].0)
                        && self.records@[*it.seq()[i].0] == *it.seq()[i].1,
                out@.len() == it.index(),
                forall|i: int| 0 <= i < out@.len() ==> #[trigger] self.records@.contains_key(out@[i].id),
                forall|k: TaskId| #[trigger] self.records@.contains_key(k) ==> self.records@[k].id == k,
        {
            let copy = TaskRecord {
                id: rec.id,
                kind: rec.kind,
                name: rec.name.clone(),
                started_at_ms: rec.started_at_ms,
                state: rec.state.clone(),
            };
            out.push(copy);
        }
        out
    }
}

/// The task filed under `key` (the last entry of that key).
pub open spec fn key_lookup(keys: Seq<(String, TaskId)>, key: Seq<char>) -> Option<TaskId>
    decreases keys.len(),
{
    if keys.len() == 0 {
        None
    } else if keys.last().0@ == key {
        Some(keys.last().1)
    } else {
        key_lookup(keys.drop_last(), key)
    }
}

/// The keys that do not name task `id`.
pub open spec fn keys_without(keys: Seq<(String, TaskId)>, id: TaskId) -> Seq<(String, TaskId)>
    decreases keys.len(),
{
    if keys.len() == 0 {
        keys
    } else {
        let rest = keys_without(keys.drop_last(), id);
        if keys.last().1 == id {
            rest
        } else {
            rest.push(keys.last())
        }
    }
}

/// The entries under other keys.
pub open spec fn keys_without_key(keys: Seq<(String, TaskId)>, key: Seq<char>) -> Seq<(String, TaskId)>
    decreases keys.len(),
{
    if keys.len() == 0 {
        keys
    } else {
        let rest = keys_without_key(keys.drop_last(), key);
        if keys.last().0@ == key {
            rest
        } else {
            rest.push(keys.last())
        }
    }
}

} // verus!
