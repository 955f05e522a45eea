//! The coordinator's task table: submission, assignment, progress,
//! completion, retries, dependencies and pruning.
//!
//! Tasks are keyed by their UUID as a 128-bit number. What the table keeps
//! of a task is what its rules read; the payload itself travels beside it.
//! Progress is kept as the bit pattern of the `f32` percentage it stands for.
use vstd::prelude::*;
use crate::types::{TaskStatus, TaskType, is_terminal_status};

verus! {

/// Maximum number of terminal (completed/failed/cancelled) tasks to keep in memory.
pub const MAX_TERMINAL_TASKS: usize = 500;

/// Retries a task gets before it is failed for good.
pub const DEFAULT_MAX_RETRIES: u32 = 3;

/// Bit pattern of the `f32` value `100.0`.
pub const PROGRESS_FULL_BITS: u32 = 0x42C8_0000;

/// Bit pattern of the `f32` value `0.0`.
pub const PROGRESS_ZERO_BITS: u32 = 0;

/// Checkpoint data for resuming training.
#[derive(Debug)]
pub struct CheckpointData {
    pub epoch: u32,
    pub step: u64,
    pub state: Vec<u8>,
}

pub type CheckpointView = (u32, u64, Seq<u8>);

impl View for CheckpointData {
    type V = CheckpointView;

    open spec fn view(&self) -> CheckpointView {
        (self.epoch, self.step, self.state@)
    }
}

impl Clone for CheckpointData {
    fn clone(&self) -> (r: Self)
        ensures
            r@ == self@,
    {
        CheckpointData { epoch: self.epoch, step: self.step, state: self.state.clone() }
    }
}

pub open spec fn opt_cp_view(o: Option<CheckpointData>) -> Option<CheckpointView> {
    match o {
        Some(c) => Some(c@),
        None => None,
    }
}

/// What the task table reads of an AI task.
#[derive(Debug)]
pub struct TaskRecord {
    pub task_id: u128,
    pub task_type: TaskType,
    pub priority: u8,
    pub created_at: u64,
    /// Timeout in milliseconds (0 = no timeout).
    pub timeout_ms: u64,
    /// The tasks that have to finish first.
    pub depends_on: Vec<u128>,
    /// Whether the payload is a training or fine-tuning request, which can resume from a checkpoint.
    pub resumable: bool,
    /// Checkpoint the payload resumes from.
    pub resume_from: Option<CheckpointData>,
}

pub struct TaskRecordView {
    pub task_id: u128,
    pub task_type: TaskType,
    pub priority: u8,
    pub created_at: u64,
    pub timeout_ms: u64,
    pub depends_on: Seq<u128>,
    pub resumable: bool,
    pub resume_from: Option<CheckpointView>,
}

impl View for TaskRecord {
    type V = TaskRecordView;

    open spec fn view(&self) -> TaskRecordView {
        TaskRecordView {
            task_id: self.task_id,
            task_type: self.task_type,
            priority: self.priority,
            created_at: self.created_at,
            timeout_ms: self.timeout_ms,
            depends_on: self.depends_on@,
            resumable: self.resumable,
            resume_from: opt_cp_view(self.resume_from),
        }
    }
}

impl Clone for TaskRecord {
    fn clone(&self) -> (r: Self)
        ensures
            r@ == self@,
    {
        let resume_from = match &self.resume_from {
            Some(c) => Some(c.clone()),
            None => None,
        };
        TaskRecord {
            task_id: self.task_id,
            task_type: self.task_type,
            priority: self.priority,
            created_at: self.created_at,
            timeout_ms: self.timeout_ms,
            depends_on: self.depends_on.clone(),
            resumable: self.resumable,
            resume_from,
        }
    }
}

/// The outcome of a task as its result reports it.
#[derive(Debug)]
pub struct TaskOutcome {
    pub task_id: u128,
    pub node_id: u128,
    pub success: bool,
    pub duration_ms: u64,
    pub error: Option<String>,
}

pub struct OutcomeView {
    pub task_id: u128,
    pub node_id: u128,
    pub success: bool,
    pub duration_ms: u64,
    pub error: Option<Seq<char>>,
}

impl View for TaskOutcome {
    type V = OutcomeView;

    open spec fn view(&self) -> OutcomeView {
        OutcomeView {
            task_id: self.task_id,
            node_id: self.node_id,
            success: self.success,
            duration_ms: self.duration_ms,
            error: crate::text::opt_view(self.error),
        }
    }
}

pub open spec fn opt_outcome_view(o: Option<TaskOutcome>) -> Option<OutcomeView> {
    match o {
        Some(r) => Some(r@),
        None => None,
    }
}

/// View of a task for display in the TUI.
#[derive(Debug, Clone, Copy, PartialEq, Eq, Structural)]
pub struct TaskView {
    pub task_id: u128,
    pub task_type: TaskType,
    pub status: TaskStatus,
    pub assigned_to: Option<u128>,
    /// Bit pattern of the `f32` progress percentage.
    pub progress_bits: u32,
}

struct TaskEntry {
    task: TaskRecord,
    status: TaskStatus,
    assigned_to: Option<u128>,
    result: Option<TaskOutcome>,
    progress_bits: u32,
    progress_msg: Option<String>,
    retry_count: u32,
    max_retries: u32,
}

/// The state of one task in the table.
pub struct EntryView {
    pub task: TaskRecordView,
    pub status: TaskStatus,
    pub assigned_to: Option<u128>,
    pub result: Option<OutcomeView>,
    pub progress_bits: u32,
    pub progress_msg: Option<Seq<char>>,
    pub retry_count: u32,
    pub max_retries: u32,
}

impl View for TaskEntry {
    type V = EntryView;

    closed spec fn view(&self) -> EntryView {
        EntryView {
            task: self.task@,
            status: self.status,
            assigned_to: self.assigned_to,
            result: opt_outcome_view(self.result),
            progress_bits: self.progress_bits,
            progress_msg: crate::text::opt_view(self.progress_msg),
            retry_count: self.retry_count,
            max_retries: self.max_retries,
        }
    }
}

/// The table: each task by id, and the ids whose completion was recorded.
pub struct TaskManagerView {
    pub tasks: Map<u128, EntryView>,
    pub completed: Set<u128>,
}

/// Manages task lifecycle: submission, assignment, completion.
pub struct TaskManager {
    entries: Vec<TaskEntry>,
    /// Task IDs whose completion was recorded — used for idempotency.
    completed_ids: Vec<u128>,
}

// ---------------------------------------------------------------------------
// From the entry list to the table
// ---------------------------------------------------------------------------

spec fn id_of(e: TaskEntry) -> u128 {
    e.task.task_id
}

spec fn has_id(s: Seq<TaskEntry>, id: u128) -> bool {
    exists|i: int| 0 <= i < s.len() && id_of(#[trigger] s[i]) == id
}

spec fn index_of(s: Seq<TaskEntry>, id: u128) -> int {
    choose|i: int| 0 <= i < s.len() && id_of(#[trigger] s[i]) == id
}

spec fn ids_unique(s: Seq<TaskEntry>) -> bool {
    forall|i: int, j: int| 0 <= i < s.len() && 0 <= j < s.len() && id_of(#[trigger] s[i]) == id_of(#[trigger] s[j]) ==> i == j
}

spec fn map_of(s: Seq<TaskEntry>) -> Map<u128, EntryView> {
    Map::new(|id: u128| has_id(s, id), |id: u128| s[index_of(s, id)]@)
}

proof fn lemma_index_of(s: Seq<TaskEntry>, i: int)
    requires
        ids_unique(s),
        0 <= i < s.len(),
    ensures
        has_id(s, id_of(s[i])),
        index_of(s, id_of(s[i])) == i,
        map_of(s).contains_key(id_of(s[i])),
        map_of(s)[id_of(s[i])] == s[i]@,
{
    let id = id_of(s[i]);
    assert(has_id(s, id));
    let j = index_of(s, id);
    assert(id_of(s[j]) == id);
}

proof fn lemma_map_update(s: Seq<TaskEntry>, i: int, e: TaskEntry)
    requires
        ids_unique(s),
        0 <= i < s.len(),
        id_of(e) == id_of(s[i]),
    ensures
        ids_unique(s.update(i, e)),
        map_of(s.update(i, e)) == map_of(s).insert(id_of(e), e@),
{
    let t = s.update(i, e);
    assert(ids_unique(t)) by {
        assert forall|a: int, b: int| 0 <= a < t.len() && 0 <= b < t.len() && id_of(#[trigger] t[a]) == id_of(#[trigger] t[b]) implies a == b by {
            assert(id_of(t[a]) == id_of(s[a]));
            assert(id_of(t[b]) == id_of(s[b]));
        }
    }
    assert forall|id: u128| #[trigger] has_id(t, id) == has_id(s, id) by {
        if has_id(s, id) {
            let j = choose|j: int| 0 <= j < s.len() && id_of(#[trigger] s[j]) == id;
            assert(id_of(t[j]) == id);
        }
        if has_id(t, id) {
            let j = choose|j: int| 0 <= j < t.len() && id_of(#[trigger] t[j]) == id;
            assert(id_of(s[j]) == id);
        }
    }
    assert forall|id: u128| #[trigger] map_of(t).contains_key(id) implies map_of(t)[id] == map_of(s).insert(id_of(e), e@)[id] by {
        let j = choose|j: int| 0 <= j < t.len() && id_of(#[trigger] t[j]) == id;
        lemma_index_of(t, j);
        if j != i {
            lemma_index_of(s, j);
        }
    }
    assert(map_of(t) =~= map_of(s).insert(id_of(e), e@));
}

proof fn lemma_map_push(s: Seq<TaskEntry>, e: TaskEntry)
    requires
        ids_unique(s),
        !has_id(s, id_of(e)),
    ensures
        ids_unique(s.push(e)),
        map_of(s.push(e)) == map_of(s).insert(id_of(e), e@),
{
    let t = s.push(e);
    assert(ids_unique(t)) by {
        assert forall|a: int, b: int| 0 <= a < t.len() && 0 <= b < t.len() && id_of(#[trigger] t[a]) == id_of(#[trigger] t[b]) implies a == b by {
            if a < s.len() && b == s.len() {
                assert(id_of(s[a]) == id_of(e));
            }
            if b < s.len() && a == s.len() {
                assert(id_of(s[b]) == id_of(e));
            }
        }
    }
    assert forall|id: u128| #[trigger] has_id(t, id) == (has_id(s, id) || id == id_of(e)) by {
        if has_id(s, id) {
            let j = choose|j: int| 0 <= j < s.len() && id_of(#[trigger] s[j]) == id;
            assert(id_of(t[j]) == id);
        }
        if id == id_of(e) {
            assert(id_of(t[s.len() as int]) == id);
        }
        if has_id(t, id) && id != id_of(e) {
            let j = choose|j: int| 0 <= j < t.len() && id_of(#[trigger] t[j]) == id;
            assert(id_of(s[j]) == id);
        }
    }
    assert forall|id: u128| #[trigger] map_of(t).contains_key(id) implies map_of(t)[id] == map_of(s).insert(id_of(e), e@)[id] by {
        let j = choose|j: int| 0 <= j < t.len() && id_of(#[trigger] t[j]) == id;
        lemma_index_of(t, j);
        if j < s.len() {
            lemma_index_of(s, j);
        }
    }
    assert(map_of(t) =~= map_of(s).insert(id_of(e), e@));
}

proof fn lemma_map_remove(s: Seq<TaskEntry>, i: int)
    requires
        ids_unique(s),
        0 <= i < s.len(),
    ensures
        ids_unique(s.remove(i)),
        map_of(s.remove(i)) == map_of(s).remove(id_of(s[i])),
{
    let t = s.remove(i);
    let rid = id_of(s[i]);
    assert(forall|a: int| 0 <= a < t.len() ==> #[trigger] t[a] == s[if a < i { a } else { a + 1 }]);
    assert(ids_unique(t)) by {
        assert forall|a: int, b: int| 0 <= a < t.len() && 0 <= b < t.len() && id_of(#[trigger] t[a]) == id_of(#[trigger] t[b]) implies a == b by {
            let sa = if a < i { a } else { a + 1 };
            let sb = if b < i { b } else { b + 1 };
            assert(id_of(s[sa]) == id_of(s[sb]));
        }
    }
    assert forall|id: u128| #[trigger] has_id(t, id) == (has_id(s, id) && id != rid) by {
        if has_id(s, id) && id != rid {
            let j = choose|j: int| 0 <= j < s.len() && id_of(#[trigger] s[j]) == id;
            let a = if j < i { j } else { j - 1 };
            assert(j != i);
            assert(id_of(t[a]) == id);
        }
        if has_id(t, id) {
            let a = choose|a: int| 0 <= a < t.len() && id_of(#[trigger] t[a]) == id;
            let sa = if a < i { a } else { a + 1 };
            assert(id_of(s[sa]) == id);
            assert(sa != i);
        }
    }
    assert forall|id: u128| #[trigger] map_of(t).contains_key(id) implies map_of(t)[id] == map_of(s).remove(rid)[id] by {
        let a = choose|a: int| 0 <= a < t.len() && id_of(#[trigger] t[a]) == id;
        let sa = if a < i { a } else { a + 1 };
        lemma_index_of(t, a);
        lemma_index_of(s, sa);
    }
    assert(map_of(t) =~= map_of(s).remove(rid));
}

// ---------------------------------------------------------------------------
// The operations on the table
// ---------------------------------------------------------------------------

/// A freshly submitted task: pending, unassigned, no progress, default retries.
pub open spec fn fresh_entry(task: TaskRecordView) -> EntryView {
    EntryView {
        task,
        status: TaskStatus::Pending,
        assigned_to: None,
        result: None,
        progress_bits: PROGRESS_ZERO_BITS,
        progress_msg: None,
        retry_count: 0,
        max_retries: DEFAULT_MAX_RETRIES,
    }
}

pub open spec fn spec_assign(m: TaskManagerView, id: u128, node: u128) -> TaskManagerView {
    if m.tasks.contains_key(id) {
        TaskManagerView {
            tasks: m.tasks.insert(id, EntryView { status: TaskStatus::Assigned, assigned_to: Some(node), ..m.tasks[id] }),
            ..m
        }
    } else {
        m
    }
}

pub open spec fn spec_update_progress(m: TaskManagerView, id: u128, bits: u32, msg: Option<Seq<char>>) -> TaskManagerView {
    if m.tasks.contains_key(id) {
        TaskManagerView {
            tasks: m.tasks.insert(id, EntryView { status: TaskStatus::Running, progress_bits: bits, progress_msg: msg, ..m.tasks[id] }),
            ..m
        }
    } else {
        m
    }
}

/// Completion: ignored when the completion was already recorded, when the
/// task is unknown, or when it already reached a terminal state.
pub open spec fn spec_complete(m: TaskManagerView, id: u128, r: OutcomeView) -> TaskManagerView {
    if m.completed.contains(id) || !m.tasks.contains_key(id) || is_terminal_status(m.tasks[id].status) {
        m
    } else {
        let e = m.tasks[id];
        TaskManagerView {
            tasks: m.tasks.insert(id, EntryView {
                status: if r.success { TaskStatus::Completed } else { TaskStatus::Failed },
                progress_bits: if r.success { PROGRESS_FULL_BITS } else { e.progress_bits },
                result: Some(r),
                ..e
            }),
            completed: m.completed.insert(id),
        }
    }
}

pub open spec fn spec_cancel(m: TaskManagerView, id: u128) -> TaskManagerView {
    if m.tasks.contains_key(id) {
        TaskManagerView { tasks: m.tasks.insert(id, EntryView { status: TaskStatus::Cancelled, ..m.tasks[id] }), ..m }
    } else {
        m
    }
}

/// The error text of a task that ran out of retries.
pub open spec fn max_retries_error(max: u32) -> Seq<char> {
    "Max retries ("@ + crate::numparse::decimal_text(max as nat) + ") exceeded"@
}

/// Requeue: the new table and whether the task was put back to pending.
pub open spec fn spec_requeue(m: TaskManagerView, id: u128) -> (TaskManagerView, bool) {
    if !m.tasks.contains_key(id) {
        (m, false)
    } else {
        let e = m.tasks[id];
        if e.status == TaskStatus::Pending {
            (m, true)
        } else {
            let retry = (e.retry_count + 1) as u32;
            if retry > e.max_retries {
                let failure = OutcomeView {
                    task_id: id,
                    node_id: match e.assigned_to { Some(n) => n, None => crate::ids::NIL_ID },
                    success: false,
                    duration_ms: 0,
                    error: Some(max_retries_error(e.max_retries)),
                };
                (
                    TaskManagerView {
                        tasks: m.tasks.insert(id, EntryView { retry_count: retry, status: TaskStatus::Failed, result: Some(failure), ..e }),
                        ..m
                    },
                    false,
                )
            } else {
                (
                    TaskManagerView {
                        tasks: m.tasks.insert(id, EntryView {
                            retry_count: retry,
                            status: TaskStatus::Pending,
                            assigned_to: None,
                            progress_bits: PROGRESS_ZERO_BITS,
                            progress_msg: None,
                            ..e
                        }),
                        ..m
                    },
                    true,
                )
            }
        }
    }
}

pub open spec fn spec_inject_checkpoint(m: TaskManagerView, id: u128, cp: CheckpointView) -> TaskManagerView {
    if m.tasks.contains_key(id) && m.tasks[id].task.resumable {
        let e = m.tasks[id];
        TaskManagerView {
            tasks: m.tasks.insert(id, EntryView { task: TaskRecordView { resume_from: Some(cp), ..e.task }, ..e }),
            ..m
        }
    } else {
        m
    }
}

pub open spec fn spec_revert_to_pending(m: TaskManagerView, id: u128) -> TaskManagerView {
    if m.tasks.contains_key(id) && m.tasks[id].status == TaskStatus::Assigned {
        TaskManagerView {
            tasks: m.tasks.insert(id, EntryView { status: TaskStatus::Pending, assigned_to: None, ..m.tasks[id] }),
            ..m
        }
    } else {
        m
    }
}

/// An assigned or running task on the given node.
pub open spec fn active_on(e: EntryView, node: u128) -> bool {
    e.assigned_to == Some(node) && (e.status == TaskStatus::Assigned || e.status == TaskStatus::Running)
}

pub open spec fn is_active_status(s: TaskStatus) -> bool {
    s == TaskStatus::Pending || s == TaskStatus::Assigned || s == TaskStatus::Running
}

/// Every dependency of the task has its completion recorded.
pub open spec fn deps_done(m: TaskManagerView, t: TaskRecordView) -> bool {
    forall|i: int| 0 <= i < t.depends_on.len() ==> m.completed.contains(#[trigger] t.depends_on[i])
}

/// A pending task ready for dispatch.
pub open spec fn ready(m: TaskManagerView, e: EntryView) -> bool {
    e.status == TaskStatus::Pending && deps_done(m, e.task)
}

pub open spec fn view_of(e: EntryView) -> TaskView {
    TaskView {
        task_id: e.task.task_id,
        task_type: e.task.task_type,
        status: e.status,
        assigned_to: e.assigned_to,
        progress_bits: e.progress_bits,
    }
}

/// The table keeps each task under its own id.
pub open spec fn keyed_by_id(m: TaskManagerView) -> bool {
    forall|id: u128| #[trigger] m.tasks.contains_key(id) ==> m.tasks[id].task.task_id == id
}

pub open spec fn seq_no_dups<T>(s: Seq<T>) -> bool {
    forall|i: int, j: int| 0 <= i < s.len() && 0 <= j < s.len() && i != j ==> s[i] != s[j]
}

impl TaskManager {
    pub closed spec fn view(&self) -> TaskManagerView {
        TaskManagerView { tasks: map_of(self.entries@), completed: self.completed_ids@.to_set() }
    }

    #[verifier::type_invariant]
    closed spec fn inv(&self) -> bool {
        &&& ids_unique(self.entries@)
        &&& seq_no_dups(self.completed_ids@)
    }

    pub fn new() -> (s: Self)
        ensures
            s.view().tasks == Map::<u128, EntryView>::empty(),
            s.view().completed == Set::<u128>::empty(),
    {
        let s = TaskManager { entries: Vec::new(), completed_ids: Vec::new() };
        assert(map_of(s.entries@) =~= Map::<u128, EntryView>::empty());
        assert(s.completed_ids@.to_set() =~= Set::<u128>::empty());
        s
    }

    /// Every task of the table is kept under its own id.
    pub proof fn lemma_keyed_by_id(&self)
        ensures
            keyed_by_id(self.view()),
    {
        assert forall|id: u128| #[trigger] self.view().tasks.contains_key(id) implies self.view().tasks[id].task.task_id == id by {
            let s = self.entries@;
            assert(has_id(s, id));
            let j = index_of(s, id);
            assert(id_of(s[j]) == id);
        }
    }

    /// The position of the task with the given id.
    fn find(&self, id: u128) -> (r: Option<usize>)
        ensures
            match r {
                Some(i) => i < self.entries@.len() && id_of(self.entries@[i as int]) == id,
                None => !has_id(self.entries@, id),
            },
    {
        let mut i: usize = 0;
        while i < self.entries.len()
            invariant
                i <= self.entries@.len(),
                forall|j: int| 0 <= j < i ==> id_of(#[trigger] self.entries@[j]) != id,
            decreases self.entries@.len() - i,
        {
            if self.entries[i].task.task_id == id {
                return Some(i);
            }
            i = i + 1;
        }
        None
    }

    fn completed_contains(&self, id: u128) -> (r: bool)
        ensures
            r == self.view().completed.contains(id),
    {
        let mut i: usize = 0;
        while i < self.completed_ids.len()
            invariant
                i <= self.completed_ids@.len(),
                forall|j: int| 0 <= j < i ==> self.completed_ids@[j] != id,
            decreases self.completed_ids@.len() - i,
        {
            if self.completed_ids[i] == id {
                assert(self.completed_ids@.contains(id));
                return true;
            }
            i = i + 1;
        }
        false
    }

    /// Submit a new task (replacing any task with the same id). Returns the task ID.
    pub fn submit(&mut self, task: TaskRecord) -> (id: u128)
        ensures
            id == task.task_id,
            final(self).view().tasks == old(self).view().tasks.insert(id, fresh_entry(task@)),
            final(self).view().completed == old(self).view().completed,
    {
        let task_id = task.task_id;
        self.restore(task, 0, DEFAULT_MAX_RETRIES);
        task_id
    }

    /// Puts back a task read from storage: pending, unassigned, with the
    /// retry counts it was saved with (replacing any task with the same id).
    pub fn restore(&mut self, task: TaskRecord, retry_count: u32, max_retries: u32)
        ensures
            final(self).view().tasks == old(self).view().tasks.insert(task.task_id,
                EntryView { retry_count, max_retries, ..fresh_entry(task@) }),
            final(self).view().completed == old(self).view().completed,
    {
        proof {
            use_type_invariant(&*self);
        }
        let task_id = task.task_id;
        let entry = TaskEntry {
            task,
            status: TaskStatus::Pending,
            assigned_to: None,
            result: None,
            progress_bits: PROGRESS_ZERO_BITS,
            progress_msg: None,
            retry_count,
            max_retries,
        };
        let mut es: Vec<TaskEntry> = Vec::new();
        std::mem::swap(&mut es, &mut self.entries);
        let ghost before = es@;
        match Self::find_in(&es, task_id) {
            Some(i) => {
                es.set(i, entry);
                proof {
                    lemma_map_update(before, i as int, entry);
                }
            },
            None => {
                es.push(entry);
                proof {
                    lemma_map_push(before, entry);
                }
            },
        }
        self.entries = es;
    }

    fn find_in(es: &Vec<TaskEntry>, id: u128) -> (r: Option<usize>)
        ensures
            match r {
                Some(i) => i < es@.len() && id_of(es@[i as int]) == id,
                None => !has_id(es@, id),
            },
    {
        let mut i: usize = 0;
        while i < es.len()
            invariant
                i <= es@.len(),
                forall|j: int| 0 <= j < i ==> id_of(#[trigger] es@[j]) != id,
            decreases es@.len() - i,
        {
            if es[i].task.task_id == id {
                return Some(i);
            }
            i = i + 1;
        }
        None
    }

    /// Assign a task to a node.
    pub fn assign(&mut self, task_id: u128, node_id: u128)
        ensures
            final(self).view() == spec_assign(old(self).view(), task_id, node_id),
    {
        proof {
            use_type_invariant(&*self);
        }
        let mut es: Vec<TaskEntry> = Vec::new();
        std::mem::swap(&mut es, &mut self.entries);
        let ghost before = es@;
        match Self::find_in(&es, task_id) {
            Some(i) => {
                let e = &mut es[i];
                e.status = TaskStatus::Assigned;
                e.assigned_to = Some(node_id);
                proof {
                    lemma_index_of(before, i as int);
                    lemma_map_update(before, i as int, es@[i as int]);
                }
            },
            None => {},
        }
        self.entries = es;
        proof {
            assert(self.view().tasks =~= spec_assign(old(self).view(), task_id, node_id).tasks);
        }
    }

    /// Mark a task as running with the given progress (bits of an `f32` percentage) and message.
    pub fn update_progress(&mut self, task_id: u128, progress_bits: u32, msg: Option<String>)
        ensures
            final(self).view() == spec_update_progress(old(self).view(), task_id, progress_bits, crate::text::opt_view(msg)),
    {
        proof {
            use_type_invariant(&*self);
        }
        let mut es: Vec<TaskEntry> = Vec::new();
        std::mem::swap(&mut es, &mut self.entries);
        let ghost before = es@;
        match Self::find_in(&es, task_id) {
            Some(i) => {
                let e = &mut es[i];
                e.status = TaskStatus::Running;
                e.progress_bits = progress_bits;
                e.progress_msg = msg;
                proof {
                    lemma_index_of(before, i as int);
                    lemma_map_update(before, i as int, es@[i as int]);
                }
            },
            None => {},
        }
        self.entries = es;
        proof {
            assert(self.view().tasks =~= spec_update_progress(old(self).view(), task_id, progress_bits, crate::text::opt_view(msg)).tasks);
        }
    }

    /// Complete a task with a result. Idempotent: ignores duplicate completions.
    pub fn complete(&mut self, task_id: u128, result: TaskOutcome)
        ensures
            final(self).view() == spec_complete(old(self).view(), task_id, result@),
    {
        proof {
            use_type_invariant(&*self);
        }
        if self.completed_contains(task_id) {
            return;
        }
        let mut es: Vec<TaskEntry> = Vec::new();
        std::mem::swap(&mut es, &mut self.entries);
        let ghost before = es@;
        match Self::find_in(&es, task_id) {
            Some(i) => {
                proof {
                    lemma_index_of(before, i as int);
                }
                if es[i].status.is_terminal() {
                    self.entries = es;
                    return;
                }
                let ghost rv = result@;
                let success = result.success;
                let e = &mut es[i];
                e.status = if success { TaskStatus::Completed } else { TaskStatus::Failed };
                e.progress_bits = if success { PROGRESS_FULL_BITS } else { e.progress_bits };
                e.result = Some(result);
                proof {
                    lemma_map_update(before, i as int, es@[i as int]);
                }
                self.entries = es;
                let mut cs: Vec<u128> = Vec::new();
                std::mem::swap(&mut cs, &mut self.completed_ids);
                let ghost old_completed = cs@;
                cs.push(task_id);
                proof {
                    assert(!old_completed.contains(task_id));
                    assert(seq_no_dups(cs@));
                    old_completed.lemma_push_to_set_commute(task_id);
                }
                self.completed_ids = cs;
                proof {
                    assert(self.completed_ids@.to_set() =~= old_completed.to_set().insert(task_id));
                    assert(self.view().tasks =~= spec_complete(old(self).view(), task_id, rv).tasks);
                }
            },
            None => {
                self.entries = es;
            },
        }
    }

    /// Cancel a task.
    pub fn cancel(&mut self, task_id: u128)
        ensures
            final(self).view() == spec_cancel(old(self).view(), task_id),
    {
        proof {
            use_type_invariant(&*self);
        }
        let mut es: Vec<TaskEntry> = Vec::new();
        std::mem::swap(&mut es, &mut self.entries);
        let ghost before = es@;
        match Self::find_in(&es, task_id) {
            Some(i) => {
                let e = &mut es[i];
                e.status = TaskStatus::Cancelled;
                proof {
                    lemma_index_of(before, i as int);
                    lemma_map_update(before, i as int, es@[i as int]);
                }
            },
            None => {},
        }
        self.entries = es;
        proof {
            assert(self.view().tasks =~= spec_cancel(old(self).view(), task_id).tasks);
        }
    }

    /// Re-queue a task for reassignment. Returns true if re-queued, false if max retries exceeded.
    /// Idempotent: if already Pending, returns true without incrementing retry count.
    pub fn requeue(&mut self, task_id: u128) -> (r: bool)
        requires
            old(self).view().tasks.contains_key(task_id) ==> old(self).view().tasks[task_id].retry_count < u32::MAX,
        ensures
            (final(self).view(), r) == spec_requeue(old(self).view(), task_id),
    {
        proof {
            use_type_invariant(&*self);
        }
        let mut es: Vec<TaskEntry> = Vec::new();
        std::mem::swap(&mut es, &mut self.entries);
        let ghost before = es@;
        match Self::find_in(&es, task_id) {
            Some(i) => {
                proof {
                    lemma_index_of(before, i as int);
                }
                if es[i].status == TaskStatus::Pending {
                    self.entries = es;
                    return true;
                }
                let retry = es[i].retry_count + 1;
                let max = es[i].max_retries;
                if retry > max {
                    let node = match es[i].assigned_to {
                        Some(n) => n,
                        None => crate::ids::NIL_ID,
                    };
                    let mut msg = crate::text::owned("Max retries (");
                    let num = crate::numparse::decimal_string(max as u64);
                    crate::text::push_str(&mut msg, num.as_str());
                    crate::text::push_str(&mut msg, ") exceeded");
                    let e = &mut es[i];
                    e.retry_count = retry;
                    e.status = TaskStatus::Failed;
                    e.result = Some(TaskOutcome {
                        task_id,
                        node_id: node,
                        success: false,
                        duration_ms: 0,
                        error: Some(msg),
                    });
                    proof {
                        lemma_map_update(before, i as int, es@[i as int]);
                    }
                    self.entries = es;
                    proof {
                        assert(self.view().tasks =~= spec_requeue(old(self).view(), task_id).0.tasks);
                    }
                    return false;
                }
                let e = &mut es[i];
                e.retry_count = retry;
                e.status = TaskStatus::Pending;
                e.assigned_to = None;
                e.progress_bits = PROGRESS_ZERO_BITS;
                e.progress_msg = None;
                proof {
                    lemma_map_update(before, i as int, es@[i as int]);
                }
                self.entries = es;
                proof {
                    assert(self.view().tasks =~= spec_requeue(old(self).view(), task_id).0.tasks);
                }
                true
            },
            None => {
                self.entries = es;
                false
            },
        }
    }

    /// Inject checkpoint data into a task for resume-from-checkpoint on requeue.
    pub fn inject_checkpoint(&mut self, task_id: u128, checkpoint: CheckpointData)
        ensures
            final(self).view() == spec_inject_checkpoint(old(self).view(), task_id, checkpoint@),
    {
        proof {
            use_type_invariant(&*self);
        }
        let mut es: Vec<TaskEntry> = Vec::new();
        std::mem::swap(&mut es, &mut self.entries);
        let ghost before = es@;
        let ghost cpv = checkpoint@;
        match Self::find_in(&es, task_id) {
            Some(i) => {
                proof {
                    lemma_index_of(before, i as int);
                }
                if es[i].task.resumable {
                    let e = &mut es[i];
                    e.task.resume_from = Some(checkpoint);
                    proof {
                        lemma_map_update(before, i as int, es@[i as int]);
                    }
                }
            },
            None => {},
        }
        self.entries = es;
        proof {
            assert(self.view().tasks =~= spec_inject_checkpoint(old(self).view(), task_id, cpv).tasks);
        }
    }

    /// Revert an assigned task back to pending (e.g. when local execution is throttled).
    pub fn revert_to_pending(&mut self, task_id: u128)
        ensures
            final(self).view() == spec_revert_to_pending(old(self).view(), task_id),
    {
        proof {
            use_type_invariant(&*self);
        }
        let mut es: Vec<TaskEntry> = Vec::new();
        std::mem::swap(&mut es, &mut self.entries);
        let ghost before = es@;
        match Self::find_in(&es, task_id) {
            Some(i) => {
                proof {
                    lemma_index_of(before, i as int);
                }
                if es[i].status == TaskStatus::Assigned {
                    let e = &mut es[i];
                    e.status = TaskStatus::Pending;
                    e.assigned_to = None;
                    proof {
                        lemma_map_update(before, i as int, es@[i as int]);
                    }
                }
            },
            None => {},
        }
        self.entries = es;
        proof {
            assert(self.view().tasks =~= spec_revert_to_pending(old(self).view(), task_id).tasks);
        }
    }

    /// Every key of the table is the id of some entry, at a unique position.
    proof fn lemma_key_position(&self, id: u128) -> (j: int)
        requires
            ids_unique(self.entries@),
            self.view().tasks.contains_key(id),
        ensures
            0 <= j < self.entries@.len(),
            id_of(self.entries@[j]) == id,
            self.view().tasks[id] == self.entries@[j]@,
    {
        let j = choose|j: int| 0 <= j < self.entries@.len() && id_of(#[trigger] self.entries@[j]) == id;
        lemma_index_of(self.entries@, j);
        j
    }

    /// Check if all dependencies of a task are completed.
    pub fn dependencies_satisfied(&self, task: &TaskRecord) -> (r: bool)
        ensures
            r == deps_done(self.view(), task@),
    {
        let mut i: usize = 0;
        while i < task.depends_on.len()
            invariant
                i <= task.depends_on@.len(),
                forall|j: int| 0 <= j < i ==> self.view().completed.contains(#[trigger] task.depends_on@[j]),
            decreases task.depends_on@.len() - i,
        {
            if !self.completed_contains(task.depends_on[i]) {
                assert(!self.view().completed.contains(task@.depends_on[i as int]));
                return false;
            }
            i = i + 1;
        }
        true
    }

    /// Get all active task IDs assigned to a given node.
    pub fn tasks_assigned_to(&self, node_id: u128) -> (r: Vec<u128>)
        ensures
            seq_no_dups(r@),
            forall|id: u128| r@.contains(id) <==> (self.view().tasks.contains_key(id) && active_on(self.view().tasks[id], node_id)),
    {
        proof {
            use_type_invariant(self);
        }
        let mut out: Vec<u128> = Vec::new();
        let ghost mut js: Seq<int> = Seq::empty();
        let mut i: usize = 0;
        while i < self.entries.len()
            invariant
                ids_unique(self.entries@),
                i <= self.entries@.len(),
                js.len() == out@.len(),
                forall|k: int| 0 <= k < js.len() ==> 0 <= #[trigger] js[k] < i && active_on(self.entries@[js[k]]@, node_id)
                    && out@[k] == id_of(self.entries@[js[k]]),
                forall|a: int, b: int| 0 <= a < b < js.len() ==> js[a] < js[b],
                forall|j: int| 0 <= j < i && active_on(#[trigger] self.entries@[j]@, node_id) ==> js.contains(j),
            decreases self.entries@.len() - i,
        {
            let e = &self.entries[i];
            let ghost js0 = js;
            if e.assigned_to == Some(node_id) && (e.status == TaskStatus::Assigned || e.status == TaskStatus::Running) {
                out.push(e.task.task_id);
                proof {
                    js = js.push(i as int);
                }
            }
            proof {
                assert forall|j: int| 0 <= j < i && js0.contains(j) implies js.contains(j) by {
                    let k = choose|k: int| 0 <= k < js0.len() && js0[k] == j;
                    assert(js[k] == j);
                }
                if js.len() > js0.len() {
                    assert(js[js0.len() as int] == i);
                }
            }
            i = i + 1;
        }
        proof {
            assert(seq_no_dups(out@)) by {
                assert forall|a: int, b: int| 0 <= a < out@.len() && 0 <= b < out@.len() && a != b implies out@[a] != out@[b] by {
                    assert(js[a] != js[b]);
                }
            }
            assert forall|id: u128| out@.contains(id) <==> (self.view().tasks.contains_key(id) && active_on(self.view().tasks[id], node_id)) by {
                if out@.contains(id) {
                    let k = choose|k: int| 0 <= k < out@.len() && out@[k] == id;
                    lemma_index_of(self.entries@, js[k]);
                }
                if self.view().tasks.contains_key(id) && active_on(self.view().tasks[id], node_id) {
                    let j = self.lemma_key_position(id);
                    let k = choose|k: int| 0 <= k < js.len() && js[k] == j;
                    assert(out@[k] == id);
                }
            }
        }
        out
    }

    /// Find the lowest-priority task assigned to a given node (for work stealing).
    pub fn lowest_priority_task_on(&self, node_id: u128) -> (r: Option<u128>)
        ensures
            r is None <==> (forall|id: u128| #[trigger] self.view().tasks.contains_key(id) ==> !active_on(self.view().tasks[id], node_id)),
            r matches Some(id) ==> self.view().tasks.contains_key(id) && active_on(self.view().tasks[id], node_id)
                && forall|other: u128| #[trigger] self.view().tasks.contains_key(other) && active_on(self.view().tasks[other], node_id)
                    ==> self.view().tasks[id].task.priority <= self.view().tasks[other].task.priority,
    {
        proof {
            use_type_invariant(self);
        }
        let mut best: Option<usize> = None;
        let mut i: usize = 0;
        while i < self.entries.len()
            invariant
                ids_unique(self.entries@),
                i <= self.entries@.len(),
                best is None <==> (forall|j: int| 0 <= j < i ==> !active_on(#[trigger] self.entries@[j]@, node_id)),
                best matches Some(b) ==> b < i && active_on(self.entries@[b as int]@, node_id)
                    && forall|j: int| 0 <= j < i && active_on(#[trigger] self.entries@[j]@, node_id)
                        ==> self.entries@[b as int].task.priority <= self.entries@[j].task.priority,
            decreases self.entries@.len() - i,
        {
            let e = &self.entries[i];
            if e.assigned_to == Some(node_id) && (e.status == TaskStatus::Assigned || e.status == TaskStatus::Running) {
                proof {
                    assert(active_on(self.entries@[i as int]@, node_id));
                }
                match best {
                    None => {
                        best = Some(i);
                    },
                    Some(b) => {
                        if e.task.priority < self.entries[b].task.priority {
                            best = Some(i);
                        }
                    },
                }
            } else {
                proof {
                    assert(!active_on(self.entries@[i as int]@, node_id));
                }
            }
            i = i + 1;
        }
        match best {
            Some(b) => {
                proof {
                    lemma_index_of(self.entries@, b as int);
                    assert forall|other: u128| #[trigger] self.view().tasks.contains_key(other) && active_on(self.view().tasks[other], node_id)
                        implies self.view().tasks[self.entries@[b as int].task.task_id].task.priority <= self.view().tasks[other].task.priority by {
                        let j = self.lemma_key_position(other);
                    }
                }
                Some(self.entries[b].task.task_id)
            },
            None => {
                proof {
                    assert forall|id: u128| #[trigger] self.view().tasks.contains_key(id) implies !active_on(self.view().tasks[id], node_id) by {
                        let j = self.lemma_key_position(id);
                    }
                }
                None
            },
        }
    }

    /// Find a task whose id, in hyphenated text, starts with the given prefix (compared lower-cased).
    pub fn find_by_prefix(&self, prefix: &str) -> (r: Option<u128>)
        ensures
            r matches Some(id) ==> self.view().tasks.contains_key(id)
                && crate::text::seq_starts_with(crate::ids::uuid_text(id), crate::text::lowercase_of(prefix@)),
            r is None ==> forall|id: u128| #[trigger] self.view().tasks.contains_key(id)
                ==> !crate::text::seq_starts_with(crate::ids::uuid_text(id), crate::text::lowercase_of(prefix@)),
    {
        proof {
            use_type_invariant(self);
        }
        let p = crate::text::to_lowercase(prefix);
        let mut i: usize = 0;
        while i < self.entries.len()
            invariant
                ids_unique(self.entries@),
                p@ == crate::text::lowercase_of(prefix@),
                i <= self.entries@.len(),
                forall|j: int| 0 <= j < i ==> !crate::text::seq_starts_with(crate::ids::uuid_text(#[trigger] id_of(self.entries@[j])), p@),
            decreases self.entries@.len() - i,
        {
            let id = self.entries[i].task.task_id;
            let text = crate::ids::uuid_to_string(id);
            if crate::text::str_starts_with(text.as_str(), p.as_str()) {
                proof {
                    lemma_index_of(self.entries@, i as int);
                }
                return Some(id);
            }
            i = i + 1;
        }
        proof {
            assert forall|id: u128| #[trigger] self.view().tasks.contains_key(id)
                implies !crate::text::seq_starts_with(crate::ids::uuid_text(id), p@) by {
                let j = self.lemma_key_position(id);
            }
        }
        None
    }

    fn entry_to_view(e: &TaskEntry) -> (v: TaskView)
        ensures
            v == view_of(e@),
    {
        TaskView {
            task_id: e.task.task_id,
            task_type: e.task.task_type,
            status: e.status,
            assigned_to: e.assigned_to,
            progress_bits: e.progress_bits,
        }
    }

    /// Get active tasks (pending, assigned, running).
    pub fn active_tasks(&self) -> (r: Vec<TaskView>)
        ensures
            forall|k: int| 0 <= k < r@.len() ==> self.view().tasks.contains_key(#[trigger] r@[k].task_id)
                && r@[k] == view_of(self.view().tasks[r@[k].task_id]) && is_active_status(r@[k].status),
            forall|id: u128| #[trigger] self.view().tasks.contains_key(id) && is_active_status(self.view().tasks[id].status)
                ==> exists|k: int| 0 <= k < r@.len() && #[trigger] r@[k].task_id == id,
            forall|a: int, b: int| 0 <= a < r@.len() && 0 <= b < r@.len() && a != b ==> r@[a].task_id != r@[b].task_id,
    {
        proof {
            use_type_invariant(self);
        }
        let mut out: Vec<TaskView> = Vec::new();
        let ghost mut js: Seq<int> = Seq::empty();
        let mut i: usize = 0;
        while i < self.entries.len()
            invariant
                ids_unique(self.entries@),
                i <= self.entries@.len(),
                js.len() == out@.len(),
                forall|k: int| 0 <= k < js.len() ==> 0 <= #[trigger] js[k] < i && is_active_status(self.entries@[js[k]]@.status)
                    && out@[k] == view_of(self.entries@[js[k]]@),
                forall|a: int, b: int| 0 <= a < b < js.len() ==> js[a] < js[b],
                forall|j: int| 0 <= j < i && is_active_status(#[trigger] self.entries@[j]@.status) ==> js.contains(j),
            decreases self.entries@.len() - i,
        {
            let e = &self.entries[i];
            let ghost js0 = js;
            if e.status == TaskStatus::Pending || e.status == TaskStatus::Assigned || e.status == TaskStatus::Running {
                let v = Self::entry_to_view(e);
                out.push(v);
                proof {
                    js = js.push(i as int);
                }
            }
            proof {
                assert forall|j: int| 0 <= j < i && js0.contains(j) implies js.contains(j) by {
                    let k = choose|k: int| 0 <= k < js0.len() && js0[k] == j;
                    assert(js[k] == j);
                }
                if js.len() > js0.len() {
                    assert(js[js0.len() as int] == i);
                }
            }
            i = i + 1;
        }
        proof {
            assert forall|k: int| 0 <= k < out@.len() implies self.view().tasks.contains_key(#[trigger] out@[k].task_id)
                && out@[k] == view_of(self.view().tasks[out@[k].task_id]) && is_active_status(out@[k].status) by {
                lemma_index_of(self.entries@, js[k]);
            }
            assert forall|id: u128| #[trigger] self.view().tasks.contains_key(id) && is_active_status(self.view().tasks[id].status)
                implies exists|k: int| 0 <= k < out@.len() && #[trigger] out@[k].task_id == id by {
                let j = self.lemma_key_position(id);
                let k = choose|k: int| 0 <= k < js.len() && js[k] == j;
                assert(out@[k].task_id == id);
            }
            assert forall|a: int, b: int| 0 <= a < out@.len() && 0 <= b < out@.len() && a != b implies out@[a].task_id != out@[b].task_id by {
                assert(js[a] != js[b]);
            }
        }
        out
    }
}

/// The positions `0..keys.len()`, ordered by key from largest to smallest;
/// positions with equal keys keep their order.
fn sort_desc_indices(keys: &Vec<u128>) -> (order: Vec<usize>)
    ensures
        order@.len() == keys@.len(),
        forall|k: int| 0 <= k < order@.len() ==> (#[trigger] order@[k]) < keys@.len(),
        forall|j: usize| j < keys@.len() ==> #[trigger] order@.contains(j),
        seq_no_dups(order@),
        forall|a: int, b: int| 0 <= a < b < order@.len() ==> keys@[order@[a] as int] >= keys@[order@[b] as int],
{
    let mut order: Vec<usize> = Vec::new();
    let mut i: usize = 0;
    while i < keys.len()
        invariant
            i <= keys@.len(),
            order@.len() == i,
            forall|k: int| 0 <= k < order@.len() ==> (#[trigger] order@[k]) < i,
            forall|j: usize| j < i ==> #[trigger] order@.contains(j),
            seq_no_dups(order@),
            forall|a: int, b: int| 0 <= a < b < order@.len() ==> keys@[order@[a] as int] >= keys@[order@[b] as int],
        decreases keys@.len() - i,
    {
        let x = keys[i];
        let mut p: usize = 0;
        while p < order.len() && keys[order[p]] >= x
            invariant
                i < keys@.len(),
                x == keys@[i as int],
                p <= order@.len(),
                order@.len() == i,
                forall|k: int| 0 <= k < order@.len() ==> (#[trigger] order@[k]) < i,
                forall|k: int| 0 <= k < p ==> keys@[order@[k] as int] >= x,
            decreases order@.len() - p,
        {
            p = p + 1;
        }
        let ghost before = order@;
        order.insert(p, i);
        proof {
            assert(order@ =~= before.subrange(0, p as int).push(i) + before.subrange(p as int, before.len() as int));
            assert forall|k: int| 0 <= k < order@.len() implies (#[trigger] order@[k]) < i + 1 by {
                if k < p {
                    assert(order@[k] == before[k]);
                } else if k > p {
                    assert(order@[k] == before[k - 1]);
                }
            }
            assert forall|j: usize| j < i + 1 implies #[trigger] order@.contains(j) by {
                if j < i {
                    assert(before.contains(j));
                    let k = choose|k: int| 0 <= k < before.len() && before[k] == j;
                    if k < p {
                        assert(order@[k] == j);
                    } else {
                        assert(order@[k + 1] == j);
                    }
                } else {
                    assert(order@[p as int] == j);
                }
            }
            assert forall|a: int, b: int| 0 <= a < order@.len() && 0 <= b < order@.len() && a != b implies order@[a] != order@[b] by {
                let sa = if a < p { a } else if a == p { -1 } else { a - 1 };
                let sb = if b < p { b } else if b == p { -1 } else { b - 1 };
                if sa >= 0 && sb >= 0 {
                    assert(order@[a] == before[sa]);
                    assert(order@[b] == before[sb]);
                } else if sa >= 0 {
                    assert(order@[a] == before[sa]);
                    assert(before[sa] < i);
                } else if sb >= 0 {
                    assert(order@[b] == before[sb]);
                    assert(before[sb] < i);
                }
            }
            assert forall|a: int, b: int| 0 <= a < b < order@.len() implies keys@[order@[a] as int] >= keys@[order@[b] as int] by {
                if b < p {
                    assert(order@[a] == before[a]);
                    assert(order@[b] == before[b]);
                } else if b == p {
                    assert(order@[a] == before[a]);
                } else if a < p {
                    assert(order@[a] == before[a]);
                    assert(order@[b] == before[b - 1]);
                } else if a == p {
                    assert(order@[b] == before[b - 1]);
                    assert(keys@[before[p as int] as int] < x);
                    if b - 1 > p {
                        assert(keys@[before[p as int] as int] >= keys@[before[b - 1] as int]);
                    }
                } else {
                    assert(order@[a] == before[a - 1]);
                    assert(order@[b] == before[b - 1]);
                }
            }
        }
        i = i + 1;
    }
    order
}

impl TaskManager {
    /// Get pending tasks that are ready for dispatch (all dependencies satisfied).
    /// Sorted by priority descending (highest priority first).
    pub fn pending_tasks(&self) -> (r: Vec<TaskRecord>)
        ensures
            forall|k: int| 0 <= k < r@.len() ==> self.view().tasks.contains_key(#[trigger] r@[k].task_id)
                && r@[k]@ == self.view().tasks[r@[k].task_id].task && ready(self.view(), self.view().tasks[r@[k].task_id]),
            forall|id: u128| #[trigger] self.view().tasks.contains_key(id) && ready(self.view(), self.view().tasks[id])
                ==> exists|k: int| 0 <= k < r@.len() && #[trigger] r@[k].task_id == id,
            forall|a: int, b: int| 0 <= a < r@.len() && 0 <= b < r@.len() && a != b ==> r@[a].task_id != r@[b].task_id,
            forall|a: int, b: int| 0 <= a < b < r@.len() ==> r@[a].priority >= r@[b].priority,
    {
        proof {
            use_type_invariant(self);
        }
        let mut cand: Vec<usize> = Vec::new();
        let mut keys: Vec<u128> = Vec::new();
        let mut i: usize = 0;
        while i < self.entries.len()
            invariant
                ids_unique(self.entries@),
                i <= self.entries@.len(),
                cand@.len() == keys@.len(),
                forall|k: int| 0 <= k < cand@.len() ==> (#[trigger] cand@[k]) < i && ready(self.view(), self.entries@[cand@[k] as int]@)
                    && keys@[k] == self.entries@[cand@[k] as int].task.priority as u128,
                forall|a: int, b: int| 0 <= a < b < cand@.len() ==> cand@[a] < cand@[b],
                forall|j: usize| j < i && ready(self.view(), self.entries@[j as int]@) ==> #[trigger] cand@.contains(j),
            decreases self.entries@.len() - i,
        {
            let ghost c0 = cand@;
            let e = &self.entries[i];
            if e.status == TaskStatus::Pending && self.dependencies_satisfied(&e.task) {
                cand.push(i);
                keys.push(e.task.priority as u128);
            }
            proof {
                assert forall|j: usize| j < i && c0.contains(j) implies #[trigger] cand@.contains(j) by {
                    let k = choose|k: int| 0 <= k < c0.len() && c0[k] == j;
                    assert(cand@[k] == j);
                }
                if cand@.len() > c0.len() {
                    assert(cand@[c0.len() as int] == i);
                }
            }
            i = i + 1;
        }
        let order = sort_desc_indices(&keys);
        let mut out: Vec<TaskRecord> = Vec::new();
        let mut k: usize = 0;
        while k < order.len()
            invariant
                ids_unique(self.entries@),
                order@.len() == keys@.len(),
                cand@.len() == keys@.len(),
                forall|m: int| 0 <= m < order@.len() ==> (#[trigger] order@[m]) < keys@.len(),
                forall|m: int| 0 <= m < cand@.len() ==> (#[trigger] cand@[m]) < self.entries@.len(),
                k <= order@.len(),
                out@.len() == k,
                forall|m: int| 0 <= m < k ==> (#[trigger] out@[m])@ == self.entries@[cand@[order@[m] as int] as int].task@,
            decreases order@.len() - k,
        {
            let t = self.entries[cand[order[k]]].task.clone();
            out.push(t);
            k = k + 1;
        }
        proof {
            assert forall|m: int| 0 <= m < out@.len() implies self.view().tasks.contains_key(#[trigger] out@[m].task_id)
                && out@[m]@ == self.view().tasks[out@[m].task_id].task && ready(self.view(), self.view().tasks[out@[m].task_id]) by {
                lemma_index_of(self.entries@, cand@[order@[m] as int] as int);
            }
            assert forall|id: u128| #[trigger] self.view().tasks.contains_key(id) && ready(self.view(), self.view().tasks[id])
                implies exists|m: int| 0 <= m < out@.len() && #[trigger] out@[m].task_id == id by {
                let j = self.lemma_key_position(id);
                assert(cand@.contains(j as usize));
                let c = choose|c: int| 0 <= c < cand@.len() && cand@[c] == j as usize;
                assert(order@.contains(c as usize));
                let m = choose|m: int| 0 <= m < order@.len() && order@[m] == c as usize;
                assert(out@[m].task_id == id);
            }
            assert forall|a: int, b: int| 0 <= a < out@.len() && 0 <= b < out@.len() && a != b implies out@[a].task_id != out@[b].task_id by {
                assert(order@[a] != order@[b]);
                let ca = order@[a] as int;
                let cb = order@[b] as int;
                if ca < cb {
                    assert(cand@[ca] < cand@[cb]);
                } else {
                    assert(cand@[cb] < cand@[ca]);
                }
            }
        }
        out
    }

    /// Get all tasks as views, one per task, newest first by creation time;
    /// tasks created at the same time keep their order in the table.
    pub fn all_tasks(&self) -> (r: Vec<TaskView>)
        ensures
            forall|k: int| 0 <= k < r@.len() ==> self.view().tasks.contains_key(#[trigger] r@[k].task_id)
                && r@[k] == view_of(self.view().tasks[r@[k].task_id]),
            forall|id: u128| #[trigger] self.view().tasks.contains_key(id) ==> exists|k: int| 0 <= k < r@.len() && #[trigger] r@[k].task_id == id,
            forall|a: int, b: int| 0 <= a < r@.len() && 0 <= b < r@.len() && a != b ==> r@[a].task_id != r@[b].task_id,
            forall|a: int, b: int| 0 <= a < b < r@.len() ==> self.view().tasks[r@[a].task_id].task.created_at
                >= self.view().tasks[r@[b].task_id].task.created_at,
    {
        proof {
            use_type_invariant(self);
        }
        let mut keys: Vec<u128> = Vec::new();
        let mut i: usize = 0;
        while i < self.entries.len()
            invariant
                i <= self.entries@.len(),
                keys@.len() == i,
                forall|k: int| 0 <= k < i ==> keys@[k] == (#[trigger] self.entries@[k]).task.created_at as u128,
            decreases self.entries@.len() - i,
        {
            keys.push(self.entries[i].task.created_at as u128);
            i = i + 1;
        }
        let order = sort_desc_indices(&keys);
        let mut out: Vec<TaskView> = Vec::new();
        let mut k: usize = 0;
        while k < order.len()
            invariant
                order@.len() == keys@.len(),
                keys@.len() == self.entries@.len(),
                forall|m: int| 0 <= m < order@.len() ==> (#[trigger] order@[m]) < keys@.len(),
                k <= order@.len(),
                out@.len() == k,
                forall|m: int| 0 <= m < k ==> #[trigger] out@[m] == view_of(self.entries@[order@[m] as int]@),
            decreases order@.len() - k,
        {
            let v = Self::entry_to_view(&self.entries[order[k]]);
            out.push(v);
            k = k + 1;
        }
        proof {
            assert forall|m: int| 0 <= m < out@.len() implies self.view().tasks.contains_key(#[trigger] out@[m].task_id)
                && out@[m] == view_of(self.view().tasks[out@[m].task_id]) by {
                lemma_index_of(self.entries@, order@[m] as int);
            }
            assert forall|id: u128| #[trigger] self.view().tasks.contains_key(id)
                implies exists|m: int| 0 <= m < out@.len() && #[trigger] out@[m].task_id == id by {
                let j = self.lemma_key_position(id);
                assert(order@.contains(j as usize));
                let m = choose|m: int| 0 <= m < order@.len() && order@[m] == j as usize;
                assert(out@[m].task_id == id);
            }
            assert forall|a: int, b: int| 0 <= a < out@.len() && 0 <= b < out@.len() && a != b
                implies out@[a].task_id != out@[b].task_id by {
                assert(order@[a] != order@[b]);
            }
            assert forall|a: int, b: int| 0 <= a < b < out@.len() implies self.view().tasks[out@[a].task_id].task.created_at
                >= self.view().tasks[out@[b].task_id].task.created_at by {
                assert(keys@[order@[a] as int] >= keys@[order@[b] as int]);
                lemma_index_of(self.entries@, order@[a] as int);
                lemma_index_of(self.entries@, order@[b] as int);
            }
        }
        out
    }
}

// ---------------------------------------------------------------------------
// Pruning of finished tasks
// ---------------------------------------------------------------------------

/// The ids of the tasks in a terminal state.
pub open spec fn terminal_ids(m: TaskManagerView) -> Set<u128> {
    m.tasks.dom().filter(|id: u128| is_terminal_status(m.tasks[id].status))
}

/// The ids of the entries at the given positions.
spec fn ids_at(s: Seq<TaskEntry>, pos: Seq<usize>) -> Seq<u128> {
    Seq::new(pos.len(), |k: int| id_of(s[pos[k] as int]))
}

/// The ids of the marked entries from position `from` on.
spec fn marked_ids(s: Seq<TaskEntry>, mark: Seq<bool>, from: int) -> Set<u128> {
    Set::new(|id: u128| exists|j: int| from <= j < s.len() && j < mark.len() && mark[j] && id_of(#[trigger] s[j]) == id)
}

proof fn lemma_ids_at_count(s: Seq<TaskEntry>, pos: Seq<usize>)
    requires
        ids_unique(s),
        seq_no_dups(pos),
        forall|k: int| 0 <= k < pos.len() ==> (#[trigger] pos[k]) < s.len(),
    ensures
        ids_at(s, pos).to_set().finite(),
        ids_at(s, pos).to_set().len() == pos.len(),
{
    broadcast use vstd::seq_lib::seq_to_set_is_finite;
    let t = ids_at(s, pos);
    assert forall|a: int, b: int| 0 <= a < t.len() && 0 <= b < t.len() && a != b implies t[a] != t[b] by {
        assert(pos[a] != pos[b]);
        assert(id_of(s[pos[a] as int]) == t[a]);
        assert(id_of(s[pos[b] as int]) == t[b]);
    }
    assert(t.no_duplicates());
    t.unique_seq_to_set();
}

/// Removes the marked entries, from the last position to the first.
fn remove_marked(es: &mut Vec<TaskEntry>, mark: &Vec<bool>)
    requires
        ids_unique(old(es)@),
        mark@.len() == old(es)@.len(),
    ensures
        ids_unique(final(es)@),
        map_of(final(es)@) == map_of(old(es)@).remove_keys(marked_ids(old(es)@, mark@, 0)),
{
    let ghost s0 = es@;
    let mut i: usize = es.len();
    assert(map_of(s0).remove_keys(marked_ids(s0, mark@, s0.len() as int)) =~= map_of(s0));
    while i > 0
        invariant
            mark@.len() == s0.len(),
            i <= s0.len(),
            i <= es@.len(),
            es@.subrange(0, i as int) == s0.subrange(0, i as int),
            ids_unique(es@),
            map_of(es@) == map_of(s0).remove_keys(marked_ids(s0, mark@, i as int)),
        decreases i,
    {
        let ghost before = es@;
        assert(before[i - 1] == s0.subrange(0, i as int)[i - 1]);
        let ghost x = id_of(s0[i - 1]);
        if mark[i - 1] {
            es.remove(i - 1);
            proof {
                lemma_map_remove(before, i - 1);
                assert(es@.subrange(0, i - 1) =~= s0.subrange(0, i - 1)) by {
                    assert forall|k: int| 0 <= k < i - 1 implies es@[k] == s0[k] by {
                        assert(before[k] == s0.subrange(0, i as int)[k]);
                    }
                }
                assert(marked_ids(s0, mark@, i - 1) =~= marked_ids(s0, mark@, i as int).insert(x)) by {
                    assert(id_of(s0[i - 1]) == x);
                }
                assert(map_of(s0).remove_keys(marked_ids(s0, mark@, i as int)).remove(x)
                    =~= map_of(s0).remove_keys(marked_ids(s0, mark@, i - 1)));
            }
        } else {
            proof {
                assert(es@.subrange(0, i - 1) =~= s0.subrange(0, i - 1)) by {
                    assert forall|k: int| 0 <= k < i - 1 implies es@[k] == s0[k] by {
                        assert(before[k] == s0.subrange(0, i as int)[k]);
                    }
                }
                assert forall|id: u128| #[trigger] marked_ids(s0, mark@, i - 1).contains(id)
                    implies marked_ids(s0, mark@, i as int).contains(id) by {
                    let j = choose|j: int| i - 1 <= j < s0.len() && j < mark@.len() && mark@[j] && id_of(#[trigger] s0[j]) == id;
                    assert(j != i - 1);
                }
                assert(marked_ids(s0, mark@, i - 1) =~= marked_ids(s0, mark@, i as int));
            }
        }
        i = i - 1;
    }
}

impl TaskManager {
    /// Remove the oldest terminal tasks when more than `MAX_TERMINAL_TASKS`
    /// of them are held, keeping exactly that many.
    pub fn prune_terminal(&mut self)
        ensures
            final(self).view().completed == old(self).view().completed,
            terminal_ids(old(self).view()).finite(),
            terminal_ids(old(self).view()).len() <= MAX_TERMINAL_TASKS ==> final(self).view().tasks == old(self).view().tasks,
            terminal_ids(old(self).view()).len() > MAX_TERMINAL_TASKS ==> terminal_ids(final(self).view()).len() == MAX_TERMINAL_TASKS,
            forall|id: u128| #[trigger] final(self).view().tasks.contains_key(id) ==> old(self).view().tasks.contains_key(id)
                && final(self).view().tasks[id] == old(self).view().tasks[id],
            forall|id: u128| #[trigger] old(self).view().tasks.contains_key(id) && !is_terminal_status(old(self).view().tasks[id].status)
                ==> final(self).view().tasks.contains_key(id),
            forall|r: u128, k: u128|
                #![trigger old(self).view().tasks.contains_key(r), final(self).view().tasks.contains_key(k)]
                old(self).view().tasks.contains_key(r) && !final(self).view().tasks.contains_key(r)
                && final(self).view().tasks.contains_key(k) && is_terminal_status(final(self).view().tasks[k].status)
                ==> is_terminal_status(old(self).view().tasks[r].status)
                    && old(self).view().tasks[r].task.created_at <= old(self).view().tasks[k].task.created_at,
    {
        proof {
            use_type_invariant(&*self);
        }
        let ghost m0 = self.view();
        let ghost s0 = self.entries@;
        let mut tpos: Vec<usize> = Vec::new();
        let mut keys: Vec<u128> = Vec::new();
        let mut i: usize = 0;
        while i < self.entries.len()
            invariant
                self.entries@ == s0,
                i <= s0.len(),
                tpos@.len() == keys@.len(),
                forall|k: int| 0 <= k < tpos@.len() ==> (#[trigger] tpos@[k]) < i && is_terminal_status(s0[tpos@[k] as int].status)
                    && keys@[k] == (u64::MAX - s0[tpos@[k] as int].task.created_at) as u128,
                forall|a: int, b: int| 0 <= a < b < tpos@.len() ==> tpos@[a] < tpos@[b],
                forall|j: usize| j < i && is_terminal_status(s0[j as int].status) ==> #[trigger] tpos@.contains(j),
            decreases s0.len() - i,
        {
            let ghost t0 = tpos@;
            if self.entries[i].status.is_terminal() {
                tpos.push(i);
                keys.push((u64::MAX - self.entries[i].task.created_at) as u128);
            }
            proof {
                assert forall|j: usize| j < i && t0.contains(j) implies #[trigger] tpos@.contains(j) by {
                    let k = choose|k: int| 0 <= k < t0.len() && t0[k] == j;
                    assert(tpos@[k] == j);
                }
                if tpos@.len() > t0.len() {
                    assert(tpos@[t0.len() as int] == i);
                }
            }
            i = i + 1;
        }
        proof {
            assert(seq_no_dups(tpos@)) by {
                assert forall|a: int, b: int| 0 <= a < tpos@.len() && 0 <= b < tpos@.len() && a != b implies tpos@[a] != tpos@[b] by {
                    if a < b {
                        assert(tpos@[a] < tpos@[b]);
                    } else {
                        assert(tpos@[b] < tpos@[a]);
                    }
                }
            }
            lemma_ids_at_count(s0, tpos@);
            self.lemma_terminal_ids(s0, tpos@);
        }
        let count = tpos.len();
        if count <= MAX_TERMINAL_TASKS {
            return;
        }
        let order = sort_desc_indices(&keys);
        let to_remove = count - MAX_TERMINAL_TASKS;
        let mut mark: Vec<bool> = Vec::new();
        let mut j: usize = 0;
        while j < self.entries.len()
            invariant
                self.entries@ == s0,
                j <= s0.len(),
                mark@.len() == j,
                forall|q: int| 0 <= q < j ==> !(#[trigger] mark@[q]),
            decreases s0.len() - j,
        {
            mark.push(false);
            j = j + 1;
        }
        let mut k: usize = 0;
        while k < to_remove
            invariant
                self.entries@ == s0,
                mark@.len() == s0.len(),
                to_remove <= order@.len(),
                order@.len() == tpos@.len(),
                forall|q: int| 0 <= q < order@.len() ==> (#[trigger] order@[q]) < tpos@.len(),
                forall|q: int| 0 <= q < tpos@.len() ==> (#[trigger] tpos@[q]) < s0.len(),
                k <= to_remove,
                forall|p: int| 0 <= p < s0.len() ==> (#[trigger] mark@[p]
                    <==> exists|q: int| 0 <= q < k && tpos@[order@[q] as int] == p),
            decreases to_remove - k,
        {
            let p = tpos[order[k]];
            let ghost m1 = mark@;
            mark.set(p, true);
            proof {
                assert forall|x: int| 0 <= x < s0.len() implies (#[trigger] mark@[x]
                    <==> exists|q: int| 0 <= q < k + 1 && tpos@[order@[q] as int] == x) by {
                    if x == p {
                        assert(tpos@[order@[k as int] as int] == x);
                    } else {
                        assert(mark@[x] == m1[x]);
                        if exists|q: int| 0 <= q < k + 1 && tpos@[order@[q] as int] == x {
                            let q = choose|q: int| 0 <= q < k + 1 && tpos@[order@[q] as int] == x;
                            assert(q != k);
                        }
                    }
                }
            }
            k = k + 1;
        }
        let mut es: Vec<TaskEntry> = Vec::new();
        std::mem::swap(&mut es, &mut self.entries);
        remove_marked(&mut es, &mark);
        self.entries = es;
        proof {
            lemma_prune_result(s0, self.entries@, tpos@, keys@, order@, mark@, to_remove as int);
        }
    }

    /// The terminal ids of the table are the ids at the terminal positions.
    proof fn lemma_terminal_ids(&self, s0: Seq<TaskEntry>, tpos: Seq<usize>)
        requires
            s0 == self.entries@,
            s0.len() <= usize::MAX,
            ids_unique(s0),
            forall|k: int| 0 <= k < tpos.len() ==> (#[trigger] tpos[k]) < s0.len() && is_terminal_status(s0[tpos[k] as int].status),
            forall|j: usize| j < s0.len() && is_terminal_status(s0[j as int].status) ==> #[trigger] tpos.contains(j),
        ensures
            terminal_ids(self.view()) == ids_at(s0, tpos).to_set(),
    {
        let t = ids_at(s0, tpos);
        assert forall|id: u128| #[trigger] terminal_ids(self.view()).contains(id) implies t.to_set().contains(id) by {
            let j = self.lemma_key_position(id);
            let ju = j as usize;
            assert(is_terminal_status(s0[ju as int].status));
            assert(tpos.contains(ju));
            let k = choose|k: int| 0 <= k < tpos.len() && tpos[k] == ju;
            assert(t[k] == id);
        }
        assert forall|id: u128| #[trigger] t.to_set().contains(id) implies terminal_ids(self.view()).contains(id) by {
            let k = choose|k: int| 0 <= k < t.len() && t[k] == id;
            lemma_index_of(s0, tpos[k] as int);
        }
        assert(terminal_ids(self.view()) =~= t.to_set());
    }
}

/// What the removal of the marked oldest terminal entries leaves.
proof fn lemma_prune_result(
    s0: Seq<TaskEntry>,
    s1: Seq<TaskEntry>,
    tpos: Seq<usize>,
    keys: Seq<u128>,
    order: Seq<usize>,
    mark: Seq<bool>,
    to_remove: int,
)
    requires
        s0.len() <= usize::MAX,
        ids_unique(s0),
        ids_unique(s1),
        map_of(s1) == map_of(s0).remove_keys(marked_ids(s0, mark, 0)),
        mark.len() == s0.len(),
        tpos.len() == keys.len(),
        tpos.len() <= usize::MAX,
        seq_no_dups(tpos),
        forall|k: int| 0 <= k < tpos.len() ==> (#[trigger] tpos[k]) < s0.len() && is_terminal_status(s0[tpos[k] as int].status)
            && keys[k] == (u64::MAX - s0[tpos[k] as int].task.created_at) as u128,
        forall|j: usize| j < s0.len() && is_terminal_status(s0[j as int].status) ==> #[trigger] tpos.contains(j),
        order.len() == keys.len(),
        forall|k: int| 0 <= k < order.len() ==> (#[trigger] order[k]) < keys.len(),
        forall|j: usize| j < keys.len() ==> #[trigger] order.contains(j),
        seq_no_dups(order),
        forall|a: int, b: int| 0 <= a < b < order.len() ==> keys[order[a] as int] >= keys[order[b] as int],
        0 <= to_remove <= order.len(),
        forall|p: int| 0 <= p < s0.len() ==> (#[trigger] mark[p] <==> exists|q: int| 0 <= q < to_remove && tpos[order[q] as int] == p),
    ensures
        forall|id: u128| #[trigger] map_of(s1).contains_key(id) ==> map_of(s0).contains_key(id) && map_of(s1)[id] == map_of(s0)[id],
        forall|id: u128| #[trigger] map_of(s0).contains_key(id) && !is_terminal_status(map_of(s0)[id].status) ==> map_of(s1).contains_key(id),
        forall|r: u128, k: u128|
            #![trigger map_of(s0).contains_key(r), map_of(s1).contains_key(k)]
            map_of(s0).contains_key(r) && !map_of(s1).contains_key(r)
            && map_of(s1).contains_key(k) && is_terminal_status(map_of(s1)[k].status)
            ==> is_terminal_status(map_of(s0)[r].status) && map_of(s0)[r].task.created_at <= map_of(s0)[k].task.created_at,
        map_of(s1).dom().filter(|id: u128| is_terminal_status(map_of(s1)[id].status)).finite(),
        map_of(s1).dom().filter(|id: u128| is_terminal_status(map_of(s1)[id].status)).len() == tpos.len() - to_remove,
{
    let removed = marked_ids(s0, mark, 0);
    let m0 = map_of(s0);
    let m1 = map_of(s1);
    // A marked position holds a terminal entry, one of the first `to_remove` in age order.
    assert forall|id: u128| #[trigger] removed.contains(id) implies
        exists|q: int| 0 <= q < to_remove && id_of(s0[tpos[order[q] as int] as int]) == id by {
        let j = choose|j: int| 0 <= j < s0.len() && j < mark.len() && mark[j] && id_of(#[trigger] s0[j]) == id;
        assert(mark[j]);
        let q = choose|q: int| 0 <= q < to_remove && tpos[order[q] as int] == j;
        assert(id_of(s0[tpos[order[q] as int] as int]) == id);
    }
    // The position in age order of every terminal entry.
    assert forall|id: u128| m0.contains_key(id) && is_terminal_status(#[trigger] m0[id].status) implies
        exists|b: int| 0 <= b < order.len() && id_of(s0[tpos[order[b] as int] as int]) == id by {
        let j = index_of(s0, id);
        lemma_index_of(s0, j);
        let ju = j as usize;
        assert(is_terminal_status(s0[ju as int].status));
        assert(tpos.contains(ju));
        let c = choose|c: int| 0 <= c < tpos.len() && tpos[c] == ju;
        let cu = c as usize;
        assert(cu < keys.len());
        assert(order.contains(cu));
        let b = choose|b: int| 0 <= b < order.len() && order[b] == cu;
        assert(id_of(s0[tpos[order[b] as int] as int]) == id);
    }
    // An entry at age position b is removed exactly when b < to_remove.
    assert forall|b: int| 0 <= b < order.len() implies
        (#[trigger] removed.contains(id_of(s0[tpos[order[b] as int] as int])) <==> b < to_remove) by {
        let p = tpos[order[b] as int] as int;
        if b < to_remove {
            assert(mark[p]);
        }
        if removed.contains(id_of(s0[p])) {
            let j = choose|j: int| 0 <= j < s0.len() && j < mark.len() && mark[j] && id_of(#[trigger] s0[j]) == id_of(s0[p]);
            assert(j == p);
            let q = choose|q: int| 0 <= q < to_remove && tpos[order[q] as int] == j;
            assert(order[q] == order[b]);
            assert(q == b);
        }
    }
    assert forall|id: u128| #[trigger] m0.contains_key(id) && !is_terminal_status(m0[id].status) implies m1.contains_key(id) by {
        if removed.contains(id) {
            let q = choose|q: int| 0 <= q < to_remove && id_of(s0[tpos[order[q] as int] as int]) == id;
            lemma_index_of(s0, tpos[order[q] as int] as int);
        }
    }
    assert forall|r: u128, k: u128|
        #![trigger m0.contains_key(r), m1.contains_key(k)]
        m0.contains_key(r) && !m1.contains_key(r) && m1.contains_key(k) && is_terminal_status(m1[k].status)
        implies is_terminal_status(m0[r].status) && m0[r].task.created_at <= m0[k].task.created_at by {
        assert(removed.contains(r));
        let a = choose|a: int| 0 <= a < to_remove && id_of(s0[tpos[order[a] as int] as int]) == r;
        lemma_index_of(s0, tpos[order[a] as int] as int);
        assert(is_terminal_status(m0[k].status));
        let b = choose|b: int| 0 <= b < order.len() && id_of(s0[tpos[order[b] as int] as int]) == k;
        lemma_index_of(s0, tpos[order[b] as int] as int);
        assert(!removed.contains(k));
        assert(!(b < to_remove));
        assert(keys[order[a] as int] >= keys[order[b] as int]);
    }
    // The kept terminal entries are those at age positions from `to_remove` on.
    let kept = Seq::new((order.len() - to_remove) as nat, |t: int| tpos[order[t + to_remove] as int]);
    let tk = m1.dom().filter(|id: u128| is_terminal_status(m1[id].status));
    assert forall|id: u128| #[trigger] tk.contains(id) implies ids_at(s0, kept).to_set().contains(id) by {
        let b = choose|b: int| 0 <= b < order.len() && id_of(s0[tpos[order[b] as int] as int]) == id;
        assert(ids_at(s0, kept)[b - to_remove] == id);
    }
    assert forall|id: u128| #[trigger] ids_at(s0, kept).to_set().contains(id) implies tk.contains(id) by {
        let t = choose|t: int| 0 <= t < ids_at(s0, kept).len() && ids_at(s0, kept)[t] == id;
        let b = t + to_remove;
        lemma_index_of(s0, tpos[order[b] as int] as int);
    }
    assert(tk =~= ids_at(s0, kept).to_set());
    assert(seq_no_dups(kept)) by {
        assert forall|a: int, b: int| 0 <= a < kept.len() && 0 <= b < kept.len() && a != b implies kept[a] != kept[b] by {
            assert(order[a + to_remove] != order[b + to_remove]);
        }
    }
    lemma_ids_at_count(s0, kept);
}


impl TaskManager {
    /// How often a task was re-queued, if the task is known.
    pub fn retry_count_of(&self, task_id: u128) -> (r: Option<u32>)
        ensures
            match r {
                Some(c) => self.view().tasks.contains_key(task_id) && self.view().tasks[task_id].retry_count == c,
                None => !self.view().tasks.contains_key(task_id),
            },
    {
        proof {
            use_type_invariant(self);
        }
        match self.find(task_id) {
            Some(i) => {
                proof {
                    lemma_index_of(self.entries@, i as int);
                }
                Some(self.entries[i].retry_count)
            },
            None => None,
        }
    }
}

impl TaskManager {
    /// How often a task may be re-queued, if the task is known.
    pub fn max_retries_of(&self, task_id: u128) -> (r: Option<u32>)
        ensures
            match r {
                Some(c) => self.view().tasks.contains_key(task_id) && self.view().tasks[task_id].max_retries == c,
                None => !self.view().tasks.contains_key(task_id),
            },
    {
        proof {
            use_type_invariant(self);
        }
        match self.find(task_id) {
            Some(i) => {
                proof {
                    lemma_index_of(self.entries@, i as int);
                }
                Some(self.entries[i].max_retries)
            },
            None => None,
        }
    }
}

impl TaskManager {
    /// The row saved for a known task.
    pub(crate) fn row_for(&self, id: u128) -> (r: crate::persist::TaskRow)
        requires
            self.view().tasks.contains_key(id),
        ensures
            crate::persist::row_matches(r, id, self.view().tasks[id]),
    {
        proof {
            use_type_invariant(self);
        }
        let i = match self.find(id) {
            Some(i) => i,
            None => {
                proof {
                    let j = self.lemma_key_position(id);
                    assert(has_id(self.entries@, id)) by {
                        assert(id_of(self.entries@[j]) == id);
                    }
                }
                return crate::persist::TaskRow {
                    id: String::new(),
                    task_type: String::new(),
                    priority: 0,
                    created_at: 0,
                    timeout_ms: 0,
                    status: String::new(),
                    assigned_to: None,
                    retry_count: 0,
                    max_retries: 0,
                    progress_bits: 0,
                };
            },
        };
        proof {
            lemma_index_of(self.entries@, i as int);
        }
        let e = &self.entries[i];
        crate::persist::TaskRow {
            id: crate::ids::uuid_to_string(id),
            task_type: crate::text::owned(e.task.task_type.name()),
            priority: e.task.priority,
            created_at: e.task.created_at,
            timeout_ms: e.task.timeout_ms,
            status: crate::text::owned(e.status.name()),
            assigned_to: match e.assigned_to {
                Some(n) => Some(crate::ids::uuid_to_string(n)),
                None => None,
            },
            retry_count: e.retry_count,
            max_retries: e.max_retries,
            progress_bits: e.progress_bits,
        }
    }
}

// ---------------------------------------------------------------------------
// Laws of the task table
// ---------------------------------------------------------------------------

/// A progress report on a known task is what the table then holds for it:
/// the task is running, with exactly the reported progress and message, and
/// it lists with that progress; nothing else of it and no other task
/// changes. A report on an unknown task changes nothing.
pub proof fn lemma_progress_is_recorded(m: TaskManagerView, id: u128, bits: u32, msg: Option<Seq<char>>)
    ensures
        m.tasks.contains_key(id) ==> {
            let n = spec_update_progress(m, id, bits, msg);
            &&& n.tasks.contains_key(id)
            &&& n.tasks[id].progress_bits == bits
            &&& view_of(n.tasks[id]).progress_bits == bits
            &&& n.tasks[id].progress_msg == msg
            &&& n.tasks[id].status == TaskStatus::Running
            &&& n.tasks[id].task == m.tasks[id].task
            &&& n.tasks[id].assigned_to == m.tasks[id].assigned_to
            &&& n.tasks[id].result == m.tasks[id].result
            &&& n.tasks[id].retry_count == m.tasks[id].retry_count
            &&& n.tasks.dom() == m.tasks.dom()
            &&& forall|other: u128| other != id && #[trigger] m.tasks.contains_key(other) ==> n.tasks[other] == m.tasks[other]
            &&& n.completed == m.completed
        },
        !m.tasks.contains_key(id) ==> spec_update_progress(m, id, bits, msg) == m,
{
    if m.tasks.contains_key(id) {
        let n = spec_update_progress(m, id, bits, msg);
        assert(n.tasks.dom() =~= m.tasks.dom());
    }
}

/// Completing a task twice has the effect of completing it once: the second
/// result is ignored.
pub proof fn lemma_complete_idempotent(m: TaskManagerView, id: u128, r1: OutcomeView, r2: OutcomeView)
    ensures
        spec_complete(spec_complete(m, id, r1), id, r2) == spec_complete(m, id, r1),
{
}

/// A task in a terminal state is not changed by a completion.
pub proof fn lemma_complete_keeps_terminal(m: TaskManagerView, id: u128, r: OutcomeView)
    requires
        m.tasks.contains_key(id),
        is_terminal_status(m.tasks[id].status),
    ensures
        spec_complete(m, id, r) == m,
{
}

/// Completing a known, still running task makes it terminal, stores its
/// result and records the completion; a failed result keeps the progress.
pub proof fn lemma_complete_records(m: TaskManagerView, id: u128, r: OutcomeView)
    requires
        m.tasks.contains_key(id),
        !m.completed.contains(id),
        !is_terminal_status(m.tasks[id].status),
    ensures
        spec_complete(m, id, r).completed == m.completed.insert(id),
        is_terminal_status(spec_complete(m, id, r).tasks[id].status),
        spec_complete(m, id, r).tasks[id].result == Some(r),
        r.success <==> spec_complete(m, id, r).tasks[id].status == TaskStatus::Completed,
        !r.success ==> spec_complete(m, id, r).tasks[id].progress_bits == m.tasks[id].progress_bits,
{
}

/// Requeueing is idempotent on a requeued task: the second call reports
/// success and changes nothing.
pub proof fn lemma_requeue_idempotent(m: TaskManagerView, id: u128)
    requires
        spec_requeue(m, id).1,
        m.tasks.contains_key(id),
    ensures
        spec_requeue(spec_requeue(m, id).0, id) == (spec_requeue(m, id).0, true),
{
}

/// A requeue that puts a task back never exceeds its retry budget; one that
/// refuses a known, non-pending task leaves it failed.
pub proof fn lemma_requeue_retry_budget(m: TaskManagerView, id: u128)
    requires
        m.tasks.contains_key(id),
        m.tasks[id].status != TaskStatus::Pending,
        m.tasks[id].retry_count < u32::MAX,
    ensures
        spec_requeue(m, id).1 ==> spec_requeue(m, id).0.tasks[id].retry_count <= m.tasks[id].max_retries
            && spec_requeue(m, id).0.tasks[id].status == TaskStatus::Pending
            && spec_requeue(m, id).0.tasks[id].assigned_to is None,
        !spec_requeue(m, id).1 ==> spec_requeue(m, id).0.tasks[id].status == TaskStatus::Failed
            && spec_requeue(m, id).0.tasks[id].retry_count > m.tasks[id].max_retries,
        spec_requeue(m, id).0.tasks[id].retry_count == m.tasks[id].retry_count + 1,
{
}

/// Assigning and then reverting gives back a pending, unassigned task.
pub proof fn lemma_assign_then_revert(m: TaskManagerView, id: u128, node: u128)
    requires
        m.tasks.contains_key(id),
    ensures
        spec_revert_to_pending(spec_assign(m, id, node), id).tasks[id].status == TaskStatus::Pending,
        spec_revert_to_pending(spec_assign(m, id, node), id).tasks[id].assigned_to is None,
        spec_revert_to_pending(spec_assign(m, id, node), id).completed == m.completed,
{
}

/// No operation on a single task touches any other task.
pub proof fn lemma_operations_are_local(m: TaskManagerView, id: u128, other: u128, node: u128, r: OutcomeView, bits: u32, cp: CheckpointView)
    requires
        id != other,
        m.tasks.contains_key(other),
    ensures
        spec_assign(m, id, node).tasks[other] == m.tasks[other],
        spec_update_progress(m, id, bits, None).tasks[other] == m.tasks[other],
        spec_complete(m, id, r).tasks[other] == m.tasks[other],
        spec_cancel(m, id).tasks[other] == m.tasks[other],
        spec_requeue(m, id).0.tasks[other] == m.tasks[other],
        spec_inject_checkpoint(m, id, cp).tasks[other] == m.tasks[other],
        spec_revert_to_pending(m, id).tasks[other] == m.tasks[other],
{
}

} // verus!
