use vstd::prelude::*;
use crate::domain::{TaskKind, TaskStatus};
use crate::error::{AppError, ErrorCode};
use crate::collections::{lemma_ids_are_ordered, lemma_keys_increase};
use crate::project::{now_instant, random_id};
use std::collections::BTreeMap;
use vstd::std_specs::btree::spec_keys_iter;
use vstd::std_specs::iter::IteratorSpec;
use crate::timeline::is_plausible_instant;

verus! {

/// The externally visible state of a background task.
#[derive(Debug)]
pub struct TaskRecord {
    pub id: u128,
    pub kind: TaskKind,
    pub status: TaskStatus,
    pub stage: String,
    pub completed: u64,
    pub total: u64,
    pub message: String,
    /// Nanoseconds since the Unix epoch.
    pub started_at: i128,
    pub finished_at: Option<i128>,
    pub error: Option<AppError>,
}

impl Clone for TaskRecord {
    fn clone(&self) -> (out: Self)
        ensures
            out == *self,
    {
        TaskRecord {
            id: self.id,
            kind: self.kind,
            status: self.status,
            stage: self.stage.clone(),
            completed: self.completed,
            total: self.total,
            message: self.message.clone(),
            started_at: self.started_at,
            finished_at: self.finished_at,
            error: match &self.error {
                None => None,
                Some(e) => Some(e.clone()),
            },
        }
    }
}

/// A task record together with whether cancellation was requested.
#[derive(Debug)]
pub struct TaskEntry {
    pub record: TaskRecord,
    pub cancel_requested: bool,
}

/// The registry of background tasks, keyed by task id.
#[derive(Debug)]
pub struct TaskManager {
    tasks: BTreeMap<u128, TaskEntry>,
}

pub open spec fn is_terminal(status: TaskStatus) -> bool {
    status == TaskStatus::Completed || status == TaskStatus::Failed || status == TaskStatus::Cancelled
}

/// A task's entry after a progress update.
pub open spec fn progressed(e: TaskEntry, stage: String, completed: u64, total: u64, message: String) -> TaskEntry {
    TaskEntry {
        record: TaskRecord { stage, completed, total, message, ..e.record },
        cancel_requested: e.cancel_requested,
    }
}

/// A task's entry after it finished: cancelled when cancellation had been requested.
pub open spec fn finished(e: TaskEntry, message: String, now: i128) -> TaskEntry {
    TaskEntry {
        record: TaskRecord {
            status: if e.cancel_requested { TaskStatus::Cancelled } else { TaskStatus::Completed },
            message,
            finished_at: Some(now),
            ..e.record
        },
        cancel_requested: e.cancel_requested,
    }
}

/// A task's entry after it failed: cancelled when the error is a cancellation.
pub open spec fn failed(e: TaskEntry, error: AppError, now: i128) -> TaskEntry {
    TaskEntry {
        record: TaskRecord {
            status: if error.code == ErrorCode::TaskCancelled { TaskStatus::Cancelled } else { TaskStatus::Failed },
            message: error.message,
            finished_at: Some(now),
            error: Some(error),
            ..e.record
        },
        cancel_requested: e.cancel_requested,
    }
}

/// A task's entry after an accepted cancellation request.
pub open spec fn cancel_marked(e: TaskEntry, message: String) -> TaskEntry {
    TaskEntry { record: TaskRecord { message, ..e.record }, cancel_requested: true }
}

impl View for TaskManager {
    type V = Map<u128, TaskEntry>;

    closed spec fn view(&self) -> Map<u128, TaskEntry> {
        self.tasks@
    }
}

impl Default for TaskManager {
    fn default() -> (manager: Self)
        ensures
            manager.wf(),
            manager@ == Map::<u128, TaskEntry>::empty(),
    {
        TaskManager::new()
    }
}

impl TaskManager {
    /// Each entry is kept under its own record's id.
    pub closed spec fn wf(&self) -> bool {
        forall|id: u128| #[trigger] self.tasks@.dom().contains(id) ==> self.tasks@[id].record.id == id
    }

    pub fn new() -> (manager: Self)
        ensures
            manager.wf(),
            manager@ == Map::<u128, TaskEntry>::empty(),
    {
        TaskManager { tasks: BTreeMap::new() }
    }

    /// The entry of a task, if known.
    fn lookup(&self, id: u128) -> (found: Option<&TaskEntry>)
        requires
            self.wf(),
        ensures
            match found {
                Some(e) => self@.dom().contains(id) && *e == self@[id] && e.record.id == id,
                None => !self@.dom().contains(id),
            },
    {
        proof { lemma_ids_are_ordered(); }
        self.tasks.get(&id)
    }

    /// Stores an entry under its record's id (replacing any entry with that id).
    fn store(&mut self, entry: TaskEntry)
        requires
            old(self).wf(),
        ensures
            final(self).wf(),
            final(self)@ == old(self)@.insert(entry.record.id, entry),
    {
        proof { lemma_ids_are_ordered(); }
        let id = entry.record.id;
        let ghost e = entry;
        self.tasks.insert(id, entry);
        assert(self.tasks@ == old(self).tasks@.insert(id, e));
    }

    /// Registers a new running task under a fresh random id, started now, and returns the id.
    pub fn start(&mut self, kind: TaskKind, stage: String) -> (id: u128)
        requires
            old(self).wf(),
        ensures
            final(self).wf(),
            final(self)@ == old(self)@.insert(id, TaskEntry {
                record: TaskRecord {
                    id,
                    kind,
                    status: TaskStatus::Running,
                    stage,
                    completed: 0,
                    total: 0,
                    message: final(self)@[id].record.message,
                    started_at: final(self)@[id].record.started_at,
                    finished_at: None,
                    error: None,
                },
                cancel_requested: false,
            }),
            final(self)@[id].record.message@ == "任务已开始。"@,
            is_plausible_instant(final(self)@[id].record.started_at as int),
    {
        let id = random_id();
        let now = now_instant();
        self.start_at(id, kind, stage, now);
        id
    }

    /// Registers a running task with a given id and start time (replacing any task with the
    /// same id).
    pub fn start_at(&mut self, id: u128, kind: TaskKind, stage: String, now: i128)
        requires
            old(self).wf(),
        ensures
            final(self).wf(),
            final(self)@ == old(self)@.insert(id, TaskEntry {
                record: TaskRecord {
                    id,
                    kind,
                    status: TaskStatus::Running,
                    stage,
                    completed: 0,
                    total: 0,
                    message: final(self)@[id].record.message,
                    started_at: now,
                    finished_at: None,
                    error: None,
                },
                cancel_requested: false,
            }),
            final(self)@[id].record.message@ == "任务已开始。"@,
    {
        let entry = TaskEntry {
            record: TaskRecord {
                id,
                kind,
                status: TaskStatus::Running,
                stage,
                completed: 0,
                total: 0,
                message: "任务已开始。".to_owned(),
                started_at: now,
                finished_at: None,
                error: None,
            },
            cancel_requested: false,
        };
        self.store(entry);
    }

    /// Records progress of a known task; unknown ids are ignored.
    pub fn update(&mut self, id: u128, stage: String, completed: u64, total: u64, message: String)
        requires
            old(self).wf(),
        ensures
            final(self).wf(),
            old(self)@.dom().contains(id) ==> final(self)@ == old(self)@.insert(id, progressed(old(self)@[id], stage, completed, total, message)),
            !old(self)@.dom().contains(id) ==> final(self)@ == old(self)@,
    {
        match self.lookup(id) {
            Some(old_entry) => {
                let entry = TaskEntry {
                    record: TaskRecord {
                        id: old_entry.record.id,
                        kind: old_entry.record.kind,
                        status: old_entry.record.status,
                        stage,
                        completed,
                        total,
                        message,
                        started_at: old_entry.record.started_at,
                        finished_at: old_entry.record.finished_at,
                        error: match &old_entry.record.error {
                            None => None,
                            Some(e) => Some(e.clone()),
                        },
                    },
                    cancel_requested: old_entry.cancel_requested,
                };
                self.store(entry);
            },
            None => {},
        }
    }

    /// Marks a known task finished now (see `finish_at`).
    pub fn finish(&mut self, id: u128, message: String)
        requires
            old(self).wf(),
        ensures
            final(self).wf(),
            old(self)@.dom().contains(id) ==> final(self)@[id].record.finished_at is Some
                && is_plausible_instant(final(self)@[id].record.finished_at->Some_0 as int)
                && final(self)@ == old(self)@.insert(id, finished(old(self)@[id], message, final(self)@[id].record.finished_at->Some_0)),
            !old(self)@.dom().contains(id) ==> final(self)@ == old(self)@,
    {
        let now = now_instant();
        self.finish_at(id, message, now);
    }

    /// Marks a known task finished at `now`: cancelled if cancellation was requested, else
    /// completed.
    pub fn finish_at(&mut self, id: u128, message: String, now: i128)
        requires
            old(self).wf(),
        ensures
            final(self).wf(),
            old(self)@.dom().contains(id) ==> final(self)@ == old(self)@.insert(id, finished(old(self)@[id], message, now)),
            !old(self)@.dom().contains(id) ==> final(self)@ == old(self)@,
    {
        match self.lookup(id) {
            Some(old_entry) => {
                let entry = TaskEntry {
                    record: TaskRecord {
                        id: old_entry.record.id,
                        kind: old_entry.record.kind,
                        status: if old_entry.cancel_requested { TaskStatus::Cancelled } else { TaskStatus::Completed },
                        stage: old_entry.record.stage.clone(),
                        completed: old_entry.record.completed,
                        total: old_entry.record.total,
                        message,
                        started_at: old_entry.record.started_at,
                        finished_at: Some(now),
                        error: match &old_entry.record.error {
                            None => None,
                            Some(e) => Some(e.clone()),
                        },
                    },
                    cancel_requested: old_entry.cancel_requested,
                };
                self.store(entry);
            },
            None => {},
        }
    }

    /// Marks a known task failed now (see `fail_at`).
    pub fn fail(&mut self, id: u128, error: AppError)
        requires
            old(self).wf(),
        ensures
            final(self).wf(),
            old(self)@.dom().contains(id) ==> final(self)@[id].record.finished_at is Some
                && is_plausible_instant(final(self)@[id].record.finished_at->Some_0 as int)
                && final(self)@ == old(self)@.insert(id, failed(old(self)@[id], error, final(self)@[id].record.finished_at->Some_0)),
            !old(self)@.dom().contains(id) ==> final(self)@ == old(self)@,
    {
        let now = now_instant();
        self.fail_at(id, error, now);
    }

    /// Marks a known task failed at `now` with `error` (cancelled when the error is a
    /// cancellation).
    pub fn fail_at(&mut self, id: u128, error: AppError, now: i128)
        requires
            old(self).wf(),
        ensures
            final(self).wf(),
            old(self)@.dom().contains(id) ==> final(self)@ == old(self)@.insert(id, failed(old(self)@[id], error, now)),
            !old(self)@.dom().contains(id) ==> final(self)@ == old(self)@,
    {
        match self.lookup(id) {
            Some(old_entry) => {
                let status = match error.code {
                    ErrorCode::TaskCancelled => TaskStatus::Cancelled,
                    _ => TaskStatus::Failed,
                };
                let entry = TaskEntry {
                    record: TaskRecord {
                        id: old_entry.record.id,
                        kind: old_entry.record.kind,
                        status,
                        stage: old_entry.record.stage.clone(),
                        completed: old_entry.record.completed,
                        total: old_entry.record.total,
                        message: error.message.clone(),
                        started_at: old_entry.record.started_at,
                        finished_at: Some(now),
                        error: Some(error),
                    },
                    cancel_requested: old_entry.cancel_requested,
                };
                self.store(entry);
            },
            None => {},
        }
    }

    /// Requests cancellation of a task that is still pending or running; returns whether the
    /// request was accepted.
    pub fn cancel(&mut self, id: u128) -> (accepted: bool)
        requires
            old(self).wf(),
        ensures
            final(self).wf(),
            accepted == (old(self)@.dom().contains(id) && !is_terminal(old(self)@[id].record.status)),
            accepted ==> final(self)@ == old(self)@.insert(id, cancel_marked(old(self)@[id], final(self)@[id].record.message)),
            accepted ==> final(self)@[id].record.message@ == "正在安全取消任务…"@,
            !accepted ==> final(self)@ == old(self)@,
    {
        match self.lookup(id) {
            Some(old_entry) => {
                let terminal = match old_entry.record.status {
                    TaskStatus::Completed | TaskStatus::Failed | TaskStatus::Cancelled => true,
                    _ => false,
                };
                if terminal {
                    return false;
                }
                let entry = TaskEntry {
                    record: TaskRecord {
                        id: old_entry.record.id,
                        kind: old_entry.record.kind,
                        status: old_entry.record.status,
                        stage: old_entry.record.stage.clone(),
                        completed: old_entry.record.completed,
                        total: old_entry.record.total,
                        message: "正在安全取消任务…".to_owned(),
                        started_at: old_entry.record.started_at,
                        finished_at: old_entry.record.finished_at,
                        error: match &old_entry.record.error {
                            None => None,
                            Some(e) => Some(e.clone()),
                        },
                    },
                    cancel_requested: true,
                };
                self.store(entry);
                true
            },
            None => false,
        }
    }

    /// Whether cancellation was requested for a known task.
    pub fn is_cancel_requested(&self, id: u128) -> (requested: bool)
        requires
            self.wf(),
        ensures
            requested == (self@.dom().contains(id) && self@[id].cancel_requested),
    {
        match self.lookup(id) {
            Some(e) => e.cancel_requested,
            None => false,
        }
    }

    /// The record of a task, if known.
    pub fn get(&self, id: u128) -> (record: Option<TaskRecord>)
        requires
            self.wf(),
        ensures
            match record {
                Some(r) => self@.dom().contains(id) && r == self@[id].record,
                None => !self@.dom().contains(id),
            },
    {
        match self.lookup(id) {
            Some(e) => Some(e.record.clone()),
            None => None,
        }
    }

    /// All task records, in increasing id order.
    pub fn list(&self) -> (records: Vec<TaskRecord>)
        requires
            self.wf(),
        ensures
            records.len() == self@.dom().len(),
            forall|a: int, b: int| 0 <= a < b < records.len() ==> #[trigger] records@[a].id < #[trigger] records@[b].id,
            forall|k: int| 0 <= k < records.len() ==> self@.dom().contains(#[trigger] records@[k].id)
                && records@[k] == self@[records@[k].id].record,
            forall|id: u128| #[trigger] self@.dom().contains(id) ==> exists|k: int| 0 <= k < records.len() && records@[k].id == id,
    {
        broadcast use vstd::std_specs::btree::group_btree_axioms;
        proof { lemma_ids_are_ordered(); }
        let ghost keys = spec_keys_iter(&self.tasks).remaining();
        proof { lemma_keys_increase(keys); }
        let mut records: Vec<TaskRecord> = Vec::new();
        for key in it: self.tasks.keys()
            invariant
                self.wf(),
                it.seq() == keys,
                keys.unref().to_set() == self@.dom(),
                forall|a: int, b: int| 0 <= a < b < keys.len() ==> *#[trigger] keys[a] < *#[trigger] keys[b],
                records.len() == it.index(),
                forall|j: int| 0 <= j < it.index() ==> #[trigger] records@[j].id == *keys[j]
                    && self@.dom().contains(records@[j].id) && records@[j] == self@[records@[j].id].record,
        {
            proof {
                assert(keys.unref()[it.index()] == *key);
                assert(keys.unref().to_set().contains(*key));
            }
            let found = self.lookup(*key);
            let e = found.unwrap();
            let ghost before = records@;
            records.push(e.record.clone());
            assert forall|j: int| 0 <= j < it.index() + 1 implies #[trigger] records@[j].id == *keys[j]
                && self@.dom().contains(records@[j].id) && records@[j] == self@[records@[j].id].record by {
                if j < it.index() {
                    assert(records@[j] == before[j]);
                }
            }
        }
        proof {
            assert forall|id: u128| #[trigger] self@.dom().contains(id) implies exists|k: int| 0 <= k < records.len() && records@[k].id == id by {
                assert(keys.unref().to_set().contains(id));
                let k = choose|k: int| 0 <= k < keys.unref().len() && keys.unref()[k] == id;
                assert(records@[k].id == id);
            }
        }
        records
    }
}

/// A task whose cancellation was accepted ends up cancelled when it finishes, and a
/// finished task refuses further cancellation.
pub proof fn law_cancelled_task_finishes_cancelled(e: TaskEntry, cancel_message: String, finish_message: String, now: i128)
    ensures
        finished(cancel_marked(e, cancel_message), finish_message, now).record.status == TaskStatus::Cancelled,
        is_terminal(finished(cancel_marked(e, cancel_message), finish_message, now).record.status),
{
}

/// Finishing or failing always leaves a task in a terminal state, so later cancellation
/// requests are refused.
pub proof fn law_finish_and_fail_are_terminal(e: TaskEntry, message: String, error: AppError, now: i128)
    ensures
        is_terminal(finished(e, message, now).record.status),
        is_terminal(failed(e, error, now).record.status),
        finished(e, message, now).record.finished_at == Some(now),
        failed(e, error, now).record.finished_at == Some(now),
{
}

} // verus!
