//! The task table as the coordinator's database keeps it: the rows saved for
//! the unfinished tasks, the rows read back at start, and stored checkpoints.
use vstd::prelude::*;
use crate::ids::{parse_uuid, uuid_parse, uuid_text, uuid_to_string};
use crate::text::{owned, opt_view};
use crate::types::{TaskType, TaskStatus, task_type_name, task_status_name};
use crate::task_manager::{TaskManager, TaskManagerView, TaskRecord, TaskRecordView, CheckpointData, EntryView,
    fresh_entry, is_active_status};

verus! {

/// A stored unfinished task as read back.
pub struct ActiveTaskRow {
    pub id: String,
    pub task_type: String,
    pub payload: Vec<u8>,
    pub priority: u8,
    pub created_at: u64,
    pub timeout_ms: u64,
    pub retry_count: u32,
    pub max_retries: u32,
}

/// A stored training checkpoint.
pub struct CheckpointRow {
    pub task_id: String,
    pub epoch: u32,
    pub step: u64,
    pub data: Vec<u8>,
    pub ts: u64,
}

/// The checkpoint a task resumes from, out of its stored row.
pub fn checkpoint_of(row: CheckpointRow) -> (r: CheckpointData)
    ensures
        r@ == (row.epoch, row.step, row.data@),
{
    CheckpointData { epoch: row.epoch, step: row.step, state: row.data }
}

/// The stored type name read back.
pub open spec fn stored_type(s: Seq<char>) -> TaskType {
    if s == "train"@ {
        TaskType::Train
    } else if s == "finetune"@ {
        TaskType::Finetune
    } else if s == "infer"@ {
        TaskType::Inference
    } else if s == "preprocess"@ {
        TaskType::Preprocess
    } else if s == "eval"@ {
        TaskType::Evaluate
    } else if s == "rag"@ {
        TaskType::Rag
    } else if s == "embed"@ {
        TaskType::Embed
    } else {
        TaskType::Compute
    }
}

/// The task a stored row describes, given whether its payload decoded and,
/// if so, whether it resumes from checkpoints; none when the id or the
/// payload does not read.
pub open spec fn spec_task_of_row(row: ActiveTaskRow, resumable: Option<bool>) -> Option<TaskRecordView> {
    match (uuid_parse(row.id@), resumable) {
        (Some(id), Some(res)) => Some(TaskRecordView {
            task_id: id,
            task_type: stored_type(row.task_type@),
            priority: row.priority,
            created_at: row.created_at,
            timeout_ms: row.timeout_ms,
            depends_on: Seq::empty(),
            resumable: res,
            resume_from: None,
        }),
        _ => None,
    }
}

/// Reads a stored row back into a task: see `spec_task_of_row`.
pub fn task_of_row(row: &ActiveTaskRow, resumable: Option<bool>) -> (r: Option<TaskRecord>)
    ensures
        match r {
            Some(t) => spec_task_of_row(*row, resumable) == Some(t@),
            None => spec_task_of_row(*row, resumable) is None,
        },
{
    let id = match parse_uuid(row.id.as_str()) {
        Some(id) => id,
        None => return None,
    };
    let res = match resumable {
        Some(b) => b,
        None => return None,
    };
    let task_type = TaskType::from_stored(row.task_type.as_str());
    proof {
        reveal_strlit("train");
        reveal_strlit("finetune");
        reveal_strlit("infer");
        reveal_strlit("preprocess");
        reveal_strlit("eval");
        reveal_strlit("rag");
        reveal_strlit("embed");
    }
    Some(TaskRecord {
        task_id: id,
        task_type,
        priority: row.priority,
        created_at: row.created_at,
        timeout_ms: row.timeout_ms,
        depends_on: Vec::new(),
        resumable: res,
        resume_from: None,
    })
}

/// The table after the rows read back are put back in order, each readable
/// row as a pending task with its stored retry counts.
pub open spec fn restored_rows(m: TaskManagerView, rows: Seq<(ActiveTaskRow, Option<bool>)>) -> TaskManagerView
    decreases rows.len(),
{
    if rows.len() == 0 {
        m
    } else {
        let prev = restored_rows(m, rows.drop_last());
        let (row, res) = rows.last();
        match spec_task_of_row(row, res) {
            Some(t) => TaskManagerView {
                tasks: prev.tasks.insert(t.task_id, EntryView {
                    retry_count: row.retry_count,
                    max_retries: row.max_retries,
                    ..fresh_entry(t)
                }),
                ..prev
            },
            None => prev,
        }
    }
}

/// A task as a row to save.
pub struct TaskRow {
    pub id: String,
    pub task_type: String,
    pub priority: u8,
    pub created_at: u64,
    pub timeout_ms: u64,
    pub status: String,
    pub assigned_to: Option<String>,
    pub retry_count: u32,
    pub max_retries: u32,
    /// Bit pattern of the `f32` progress percentage.
    pub progress_bits: u32,
}

/// The row saved for a task.
pub open spec fn row_matches(r: TaskRow, id: u128, e: EntryView) -> bool {
    &&& r.id@ == uuid_text(id)
    &&& r.task_type@ == task_type_name(e.task.task_type)
    &&& r.priority == e.task.priority
    &&& r.created_at == e.task.created_at
    &&& r.timeout_ms == e.task.timeout_ms
    &&& r.status@ == task_status_name(e.status)
    &&& opt_view(r.assigned_to) == (match e.assigned_to { Some(n) => Some(uuid_text(n)), None => None })
    &&& r.retry_count == e.retry_count
    &&& r.max_retries == e.max_retries
    &&& r.progress_bits == e.progress_bits
}

/// The row is the saved row of some unfinished task of the table.
pub open spec fn row_of_table(row: TaskRow, m: TaskManagerView) -> bool {
    exists|id: u128| #[trigger] m.tasks.contains_key(id) && is_active_status(m.tasks[id].status)
        && row_matches(row, id, m.tasks[id])
}

impl TaskManager {
    /// Puts back the rows read at start: see `restored_rows`. Returns how
    /// many rows were read, readable or not.
    pub fn load_rows(&mut self, rows: Vec<(ActiveTaskRow, Option<bool>)>) -> (n: usize)
        ensures
            n == rows@.len(),
            final(self).view() == restored_rows(old(self).view(), rows@),
    {
        let ghost m0 = self.view();
        let ghost rs = rows@;
        let n = rows.len();
        let mut rest = rows;
        let mut rev: Vec<(ActiveTaskRow, Option<bool>)> = Vec::new();
        while rest.len() > 0
            invariant
                rest@.len() + rev@.len() == rs.len(),
                forall|k: int| 0 <= k < rest@.len() ==> #[trigger] rest@[k] == rs[k],
                forall|k: int| 0 <= k < rev@.len() ==> #[trigger] rev@[k] == rs[rs.len() - 1 - k],
            decreases rest@.len(),
        {
            let x = rest.pop().unwrap();
            rev.push(x);
        }
        let mut done: usize = 0;
        while rev.len() > 0
            invariant
                rev@.len() + done == rs.len(),
                n == rs.len(),
                forall|k: int| 0 <= k < rev@.len() ==> #[trigger] rev@[k] == rs[rs.len() - 1 - k],
                self.view() == restored_rows(m0, rs.take(done as int)),
            decreases rev@.len(),
        {
            let (row, res) = rev.pop().unwrap();
            proof {
                assert(rs.take(done + 1).drop_last() =~= rs.take(done as int));
                assert(rs.take(done + 1).last() == (row, res));
            }
            match task_of_row(&row, res) {
                Some(t) => {
                    self.restore(t, row.retry_count, row.max_retries);
                    proof {
                        assert(self.view().tasks =~= restored_rows(m0, rs.take(done + 1)).tasks);
                    }
                },
                None => {},
            }
            done = done + 1;
        }
        proof {
            assert(rs.take(rs.len() as int) =~= rs);
        }
        n
    }

    /// The rows to save: one for each task pending, assigned or running.
    pub fn save_rows(&self) -> (r: Vec<TaskRow>)
        ensures
            forall|k: int| 0 <= k < r@.len() ==> row_of_table(#[trigger] r@[k], self.view()),
            forall|id: u128| #[trigger] self.view().tasks.contains_key(id) && is_active_status(self.view().tasks[id].status)
                ==> exists|k: int| 0 <= k < r@.len() && row_matches(#[trigger] r@[k], id, self.view().tasks[id]),
            r@.len() == crate::events::active_ids(self.view()).len(),
    {
        let views = self.active_tasks();
        let mut out: Vec<TaskRow> = Vec::new();
        let mut i: usize = 0;
        while i < views.len()
            invariant
                i <= views@.len(),
                out@.len() == i,
                forall|k: int| 0 <= k < i ==> row_matches(#[trigger] out@[k], views@[k].task_id, self.view().tasks[views@[k].task_id]),
                forall|k: int| 0 <= k < views@.len() ==> self.view().tasks.contains_key(#[trigger] views@[k].task_id)
                    && is_active_status(self.view().tasks[views@[k].task_id].status),
            decreases views@.len() - i,
        {
            let id = views[i].task_id;
            let row = self.row_for(id);
            out.push(row);
            i = i + 1;
        }
        proof {
            assert forall|id: u128| #[trigger] self.view().tasks.contains_key(id) && is_active_status(self.view().tasks[id].status)
                implies exists|k: int| 0 <= k < out@.len() && row_matches(#[trigger] out@[k], id, self.view().tasks[id]) by {
                let k = choose|k: int| 0 <= k < views@.len() && #[trigger] views@[k].task_id == id;
                assert(row_matches(out@[k], id, self.view().tasks[id]));
            }
            let ids = views@.map_values(|v: crate::task_manager::TaskView| v.task_id);
            assert forall|t: u128| crate::events::active_ids(self.view()).contains(t) <==> ids.contains(t) by {
                if crate::events::active_ids(self.view()).contains(t) {
                    let k = choose|k: int| 0 <= k < views@.len() && #[trigger] views@[k].task_id == t;
                    assert(ids[k] == t);
                }
                if ids.contains(t) {
                    let k = choose|k: int| 0 <= k < ids.len() && ids[k] == t;
                    assert(views@[k].task_id == t);
                }
            }
            crate::events::lemma_ids_count(ids, crate::events::active_ids(self.view()));
        }
        assert forall|k: int| 0 <= k < out@.len() implies row_of_table(#[trigger] out@[k], self.view()) by {
            let id = views@[k].task_id;
            assert(self.view().tasks.contains_key(id));
            assert(is_active_status(self.view().tasks[id].status));
            assert(row_matches(out@[k], id, self.view().tasks[id]));
        }
        out
    }
}

} // verus!
