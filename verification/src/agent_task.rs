//! How an agent runs a task: whether it takes it, what a request must name,
//! the schedule of a (simulated) training run with its checkpoints, the
//! tokens a simulated model answers with, and the results it keeps while the
//! coordinator is unreachable.
use vstd::prelude::*;
use crate::text::{owned, push_str};
use crate::numparse::{decimal_string, decimal_text};
use crate::task_manager::{TaskOutcome, opt_outcome_view};

verus! {

// ---------------------------------------------------------------------------
// Admission
// ---------------------------------------------------------------------------

/// How many tasks an agent runs at once: half its cores, at least one.
pub fn max_concurrent(cpu_cores: usize) -> (r: usize)
    ensures
        r == (if cpu_cores / 2 >= 1 { cpu_cores / 2 } else { 1 }),
{
    let half = cpu_cores / 2;
    if half >= 1 { half } else { 1 }
}

pub open spec fn capacity_message(running: nat, max: nat) -> Seq<char> {
    "At capacity: "@ + decimal_text(running) + "/"@ + decimal_text(max) + " tasks running"@
}

/// Whether a new task is taken: refused, with the message sent to the
/// coordinator, when `running` tasks already fill the capacity.
pub fn accept_task(running: usize, max: usize) -> (r: Result<(), String>)
    ensures
        r is Ok <==> running < max,
        r matches Err(m) ==> m@ == capacity_message(running as nat, max as nat),
{
    if running >= max {
        let mut m = owned("At capacity: ");
        let a = decimal_string(running as u64);
        push_str(&mut m, a.as_str());
        push_str(&mut m, "/");
        let b = decimal_string(max as u64);
        push_str(&mut m, b.as_str());
        push_str(&mut m, " tasks running");
        return Err(m);
    }
    Ok(())
}

pub open spec fn ram_message(available: nat, required: nat) -> Seq<char> {
    "Insufficient RAM: "@ + decimal_text(available) + " MB available, "@ + decimal_text(required) + " MB required by quota"@
}

/// The refusal of a task whose RAM quota exceeds the memory available.
pub fn quota_rejection(available_mb: u64, max_ram_mb: Option<u64>) -> (r: Option<String>)
    ensures
        r is Some <==> (max_ram_mb matches Some(q) && available_mb < q),
        r matches Some(m) ==> m@ == ram_message(available_mb as nat, max_ram_mb.unwrap() as nat),
{
    match max_ram_mb {
        Some(q) => {
            if available_mb < q {
                let mut m = owned("Insufficient RAM: ");
                let a = decimal_string(available_mb);
                push_str(&mut m, a.as_str());
                push_str(&mut m, " MB available, ");
                let b = decimal_string(q);
                push_str(&mut m, b.as_str());
                push_str(&mut m, " MB required by quota");
                Some(m)
            } else {
                None
            }
        },
        None => None,
    }
}

pub open spec fn overrun_message(task_id: u128, used: nat, max: nat) -> Seq<char> {
    "Task "@ + crate::ids::uuid_text(task_id) + " exceeded memory quota ("@ + decimal_text(used) + " MB > "@
        + decimal_text(max) + " MB)"@
}

/// The error reported while a task runs when the memory in use passes the
/// task's RAM quota.
pub fn memory_overrun(task_id: u128, used_mb: u64, max_ram_mb: Option<u64>) -> (r: Option<String>)
    ensures
        r is Some <==> (max_ram_mb matches Some(q) && used_mb > q),
        r matches Some(m) ==> m@ == overrun_message(task_id, used_mb as nat, max_ram_mb.unwrap() as nat),
{
    match max_ram_mb {
        Some(q) => {
            if used_mb > q {
                let mut m = owned("Task ");
                let id = crate::ids::uuid_to_string(task_id);
                push_str(&mut m, id.as_str());
                push_str(&mut m, " exceeded memory quota (");
                let a = decimal_string(used_mb);
                push_str(&mut m, a.as_str());
                push_str(&mut m, " MB > ");
                let b = decimal_string(q);
                push_str(&mut m, b.as_str());
                push_str(&mut m, " MB)");
                Some(m)
            } else {
                None
            }
        },
        None => None,
    }
}

/// The error of a task that ran out of time.
pub fn timeout_error(timeout_ms: u64) -> (r: String)
    ensures
        r@ == "Task timed out after "@ + decimal_text(timeout_ms as nat) + "ms"@,
{
    let mut m = owned("Task timed out after ");
    let a = decimal_string(timeout_ms);
    push_str(&mut m, a.as_str());
    push_str(&mut m, "ms");
    m
}

/// The result reported for a task, from what its run produced.
pub fn task_outcome(task_id: u128, node_id: u128, run: Result<(), String>, duration_ms: u64) -> (r: TaskOutcome)
    ensures
        r.task_id == task_id,
        r.node_id == node_id,
        r.duration_ms == duration_ms,
        r.success == run is Ok,
        match run {
            Ok(_) => r.error is None,
            Err(e) => r.error == Some(e),
        },
{
    match run {
        Ok(()) => TaskOutcome { task_id, node_id, success: true, duration_ms, error: None },
        Err(e) => TaskOutcome { task_id, node_id, success: false, duration_ms, error: Some(e) },
    }
}

// ---------------------------------------------------------------------------
// Requests
// ---------------------------------------------------------------------------

/// What an agent reads of a request before running it.
pub enum PayloadRequest {
    Train { dataset_path: String },
    Finetune { base_model: String, dataset_path: String },
    Preprocess { input_path: String },
    Evaluate { model_path: String, dataset_path: String },
    Rag { query: String, index_path: String },
    Embed { input: String },
    /// A response sent to an agent by mistake.
    InferenceResponse,
    /// Any request that needs no field.
    Other,
}

pub open spec fn spec_validate(req: PayloadRequest) -> Option<Seq<char>> {
    match req {
        PayloadRequest::Train { dataset_path } =>
            if dataset_path@.len() == 0 { Some("Training requires --dataset path"@) } else { None },
        PayloadRequest::Finetune { base_model, dataset_path } =>
            if base_model@.len() == 0 {
                Some("Fine-tuning requires --base model"@)
            } else if dataset_path@.len() == 0 {
                Some("Fine-tuning requires --dataset path"@)
            } else {
                None
            },
        PayloadRequest::Preprocess { input_path } =>
            if input_path@.len() == 0 { Some("Preprocessing requires --input path"@) } else { None },
        PayloadRequest::Evaluate { model_path, dataset_path } =>
            if model_path@.len() == 0 {
                Some("Evaluation requires --model path"@)
            } else if dataset_path@.len() == 0 {
                Some("Evaluation requires --dataset path"@)
            } else {
                None
            },
        PayloadRequest::Rag { query, index_path } =>
            if query@.len() == 0 {
                Some("RAG requires a query string"@)
            } else if index_path@.len() == 0 {
                Some("RAG requires --index path"@)
            } else {
                None
            },
        PayloadRequest::Embed { input } =>
            if input@.len() == 0 { Some("Embedding requires input text"@) } else { None },
        PayloadRequest::InferenceResponse => Some("Agent should not receive InferenceResponse"@),
        PayloadRequest::Other => None,
    }
}

/// The error a request is refused with before it runs, if any.
pub fn validate_request(req: &PayloadRequest) -> (r: Result<(), String>)
    ensures
        match spec_validate(*req) {
            Some(m) => r matches Err(e) && e@ == m,
            None => r is Ok,
        },
{
    match req {
        PayloadRequest::Train { dataset_path } => {
            if dataset_path.as_str().unicode_len() == 0 {
                return Err(owned("Training requires --dataset path"));
            }
        },
        PayloadRequest::Finetune { base_model, dataset_path } => {
            if base_model.as_str().unicode_len() == 0 {
                return Err(owned("Fine-tuning requires --base model"));
            }
            if dataset_path.as_str().unicode_len() == 0 {
                return Err(owned("Fine-tuning requires --dataset path"));
            }
        },
        PayloadRequest::Preprocess { input_path } => {
            if input_path.as_str().unicode_len() == 0 {
                return Err(owned("Preprocessing requires --input path"));
            }
        },
        PayloadRequest::Evaluate { model_path, dataset_path } => {
            if model_path.as_str().unicode_len() == 0 {
                return Err(owned("Evaluation requires --model path"));
            }
            if dataset_path.as_str().unicode_len() == 0 {
                return Err(owned("Evaluation requires --dataset path"));
            }
        },
        PayloadRequest::Rag { query, index_path } => {
            if query.as_str().unicode_len() == 0 {
                return Err(owned("RAG requires a query string"));
            }
            if index_path.as_str().unicode_len() == 0 {
                return Err(owned("RAG requires --index path"));
            }
        },
        PayloadRequest::Embed { input } => {
            if input.as_str().unicode_len() == 0 {
                return Err(owned("Embedding requires input text"));
            }
        },
        PayloadRequest::InferenceResponse => {
            return Err(owned("Agent should not receive InferenceResponse"));
        },
        PayloadRequest::Other => {},
    }
    Ok(())
}

// ---------------------------------------------------------------------------
// Simulated models
// ---------------------------------------------------------------------------

/// The size of the simulated vocabulary.
pub const VOCAB_SIZE: u32 = 50257;

/// The `i`-th token generated for a prompt of `len` bytes with multiplier `m`.
pub open spec fn sim_token(len: u32, m: u32, i: u32) -> u32 {
    (((len as nat * m as nat) % 0x1_0000_0000nat + i as nat) % 0x1_0000_0000nat % VOCAB_SIZE as nat) as u32
}

fn token_run(len: u32, m: u32, count: u32) -> (r: Vec<u32>)
    ensures
        r@.len() == count,
        forall|i: int| 0 <= i < count ==> #[trigger] r@[i] == sim_token(len, m, i as u32),
{
    let mut v: Vec<u32> = Vec::new();
    let mut i: u32 = 0;
    while i < count
        invariant
            i <= count,
            v@.len() == i,
            forall|k: int| 0 <= k < i ==> #[trigger] v@[k] == sim_token(len, m, k as u32),
        decreases count - i,
    {
        let t = len.wrapping_mul(m).wrapping_add(i) % VOCAB_SIZE;
        v.push(t);
        i = i + 1;
    }
    v
}

/// The tokens a simulated inference answers a prompt of `prompt_len` bytes
/// with: `min(max_tokens, 128)` of them.
pub fn inference_tokens(prompt_len: usize, max_tokens: u32) -> (r: Vec<u32>)
    ensures
        r@.len() == (if max_tokens < 128 { max_tokens } else { 128 }),
        forall|i: int| 0 <= i < r@.len() ==> #[trigger] r@[i] == sim_token(prompt_len as u32, 31, i as u32),
{
    let n = if max_tokens < 128 { max_tokens } else { 128 };
    token_run(prompt_len as u32, 31, n)
}

/// The 32 tokens a simulated retrieval-augmented answer to a query of
/// `query_len` bytes consists of.
pub fn rag_tokens(query_len: usize) -> (r: Vec<u32>)
    ensures
        r@.len() == 32,
        forall|i: int| 0 <= i < 32 ==> #[trigger] r@[i] == sim_token(query_len as u32, 7, i as u32),
{
    token_run(query_len as u32, 7, 32)
}

// ---------------------------------------------------------------------------
// Training schedule
// ---------------------------------------------------------------------------

/// One step of a training run.
#[derive(Debug, Clone, Copy, PartialEq, Eq, Structural)]
pub struct TrainStep {
    pub epoch: u32,
    pub step: u32,
    pub global_step: u32,
    /// Whether a checkpoint is sent after this step.
    pub checkpoint: bool,
}

/// Whether the run holds step `st` of epoch `e`.
pub open spec fn has_epoch_step(s: Seq<TrainStep>, e: u32, st: u32) -> bool {
    exists|k: int| 0 <= k < s.len() && s[k].epoch == e && s[k].step == st
}

/// Whether the run holds step `st` at or after position `lo`.
pub open spec fn has_step_from(s: Seq<TrainStep>, lo: int, st: u32) -> bool {
    exists|k: int| lo <= k < s.len() && s[k].step == st
}

/// Whether a step comes at or after the resume point.
pub open spec fn after_resume(s: TrainStep, start_epoch: u32, start_step: u32) -> bool {
    s.epoch > start_epoch || (s.epoch == start_epoch && s.step >= start_step)
}

/// The steps of a training run, in order: every step of every epoch from
/// the resume point on, each with its global index and whether a
/// checkpoint follows it.
pub fn training_schedule(epochs: u32, steps: u32, every: u32, start_epoch: u32, start_step: u32) -> (r: Vec<TrainStep>)
    requires
        steps > 0,
        every > 0,
        (if epochs >= 1 { epochs as int } else { 1int }) * steps <= u32::MAX,
    ensures
        forall|k: int| 0 <= k < r@.len() ==> {
            let s = #[trigger] r@[k];
            &&& s.step < steps
            &&& s.global_step == s.epoch * steps + s.step
            &&& s.epoch < (if epochs >= 1 { epochs } else { 1 })
            &&& after_resume(s, start_epoch, start_step)
            &&& s.checkpoint == (s.global_step > 0 && s.global_step % every == 0)
        },
        forall|a: int, b: int| 0 <= a < b < r@.len() ==> r@[a].global_step < r@[b].global_step,
        forall|e: u32, st: u32| e < (if epochs >= 1 { epochs } else { 1 }) && st < steps
            && after_resume(TrainStep { epoch: e, step: st, global_step: 0, checkpoint: false }, start_epoch, start_step)
            ==> #[trigger] has_epoch_step(r@, e, st),
{
    let total = if epochs >= 1 { epochs } else { 1 };
    let mut out: Vec<TrainStep> = Vec::new();
    let mut epoch: u32 = start_epoch;
    while epoch < total
        invariant
            steps > 0,
            every > 0,
            total as int * steps <= u32::MAX,
            total == (if epochs >= 1 { epochs } else { 1 }),
            start_epoch <= epoch <= total || (epoch == start_epoch && start_epoch >= total),
            forall|k: int| 0 <= k < out@.len() ==> {
                let s = #[trigger] out@[k];
                &&& s.step < steps
                &&& s.global_step == s.epoch * steps + s.step
                &&& s.epoch < total
                &&& s.epoch < epoch
                &&& after_resume(s, start_epoch, start_step)
                &&& s.checkpoint == (s.global_step > 0 && s.global_step % every == 0)
            },
            forall|a: int, b: int| 0 <= a < b < out@.len() ==> out@[a].global_step < out@[b].global_step,
            forall|e: u32, st: u32| e < epoch && e < total && st < steps
                && after_resume(TrainStep { epoch: e, step: st, global_step: 0, checkpoint: false }, start_epoch, start_step)
                ==> #[trigger] has_epoch_step(out@, e, st),
        decreases total - epoch,
    {
        let first = if epoch == start_epoch { start_step } else { 0 };
        let mut step: u32 = first;
        let ghost before = out@;
        while step < steps
            invariant
                steps > 0,
                every > 0,
                total as int * steps <= u32::MAX,
                epoch < total,
                start_epoch <= epoch,
                first == (if epoch == start_epoch { start_step } else { 0 }),
                first <= step,
                out@.len() >= before.len(),
                out@.subrange(0, before.len() as int) == before,
                forall|k: int| 0 <= k < out@.len() ==> {
                    let s = #[trigger] out@[k];
                    &&& s.step < steps
                    &&& s.global_step == s.epoch * steps + s.step
                    &&& s.epoch < total
                    &&& s.epoch <= epoch
                    &&& after_resume(s, start_epoch, start_step)
                    &&& s.checkpoint == (s.global_step > 0 && s.global_step % every == 0)
                },
                forall|k: int| before.len() <= k < out@.len() ==> #[trigger] out@[k].epoch == epoch && out@[k].step < step,
                forall|k: int| 0 <= k < before.len() ==> #[trigger] out@[k].epoch < epoch,
                forall|a: int, b: int| 0 <= a < b < out@.len() ==> out@[a].global_step < out@[b].global_step,
                forall|st: u32| first <= st < step ==> #[trigger] has_step_from(out@, before.len() as int, st),
                forall|e: u32, st: u32| #[trigger] has_epoch_step(before, e, st) ==> has_epoch_step(out@, e, st),
            decreases steps - step,
        {
            assert(epoch * steps + step < total * steps) by (nonlinear_arith)
                requires epoch < total, step < steps;
            let g = epoch * steps + step;
            let cp = g > 0 && g % every == 0;
            let ghost o = out@;
            out.push(TrainStep { epoch, step, global_step: g, checkpoint: cp });
            proof {
                assert forall|a: int, b: int| 0 <= a < b < out@.len() implies out@[a].global_step < out@[b].global_step by {
                    if b == out@.len() - 1 && a < o.len() {
                        let s = o[a];
                        if a >= before.len() {
                            assert(s.epoch == epoch && s.step < step);
                        } else {
                            assert(s.epoch < epoch);
                            assert(s.epoch * steps + s.step < epoch * steps) by (nonlinear_arith)
                                requires s.epoch < epoch, s.step < steps;
                        }
                    }
                }
                assert forall|st: u32| first <= st < step + 1 implies #[trigger] has_step_from(out@, before.len() as int, st) by {
                    if st == step {
                        assert(out@[out@.len() - 1].step == st);
                    } else {
                        assert(has_step_from(o, before.len() as int, st));
                        let k = choose|k: int| before.len() <= k < o.len() && o[k].step == st;
                        assert(out@[k] == o[k]);
                    }
                }
                assert forall|e: u32, st: u32| #[trigger] has_epoch_step(before, e, st) implies has_epoch_step(out@, e, st) by {
                    assert(has_epoch_step(o, e, st));
                    let k = choose|k: int| 0 <= k < o.len() && o[k].epoch == e && o[k].step == st;
                    assert(out@[k] == o[k]);
                }
                assert(out@.subrange(0, before.len() as int) =~= before);
            }
            step = step + 1;
        }
        proof {
            assert forall|e: u32, st: u32| e < epoch + 1 && e < total && st < steps
                && after_resume(TrainStep { epoch: e, step: st, global_step: 0, checkpoint: false }, start_epoch, start_step)
                implies #[trigger] has_epoch_step(out@, e, st) by {
                if e < epoch {
                    assert(has_epoch_step(before, e, st));
                } else {
                    assert(first <= st);
                    assert(has_step_from(out@, before.len() as int, st));
                    let k = choose|k: int| before.len() <= k < out@.len() && out@[k].step == st;
                    assert(out@[k].epoch == e);
                }
            }
        }
        epoch = epoch + 1;
    }
    out
}

// ---------------------------------------------------------------------------
// Results kept while disconnected
// ---------------------------------------------------------------------------

/// The number of results kept while the coordinator is unreachable.
pub const MAX_BUFFERED_RESULTS: usize = 1000;

/// Results that could not be sent, the oldest dropped beyond
/// `MAX_BUFFERED_RESULTS`.
pub struct ResultBuffer<T> {
    items: Vec<T>,
}

impl<T> ResultBuffer<T> {
    pub closed spec fn view(&self) -> Seq<T> {
        self.items@
    }

    pub fn new() -> (r: Self)
        ensures
            r.view() == Seq::<T>::empty(),
    {
        ResultBuffer { items: Vec::new() }
    }

    /// Keeps a result, dropping the oldest when the buffer is full.
    pub fn push(&mut self, result: T)
        requires
            old(self).view().len() <= MAX_BUFFERED_RESULTS,
        ensures
            final(self).view() == if old(self).view().len() >= MAX_BUFFERED_RESULTS {
                old(self).view().skip(1).push(result)
            } else {
                old(self).view().push(result)
            },
            final(self).view().len() <= MAX_BUFFERED_RESULTS,
    {
        if self.items.len() >= MAX_BUFFERED_RESULTS {
            let ghost before = self.items@;
            self.items.remove(0);
            assert(self.items@ =~= before.skip(1));
        }
        self.items.push(result);
    }

    /// What becomes of a result after an attempt to send it: nothing more
    /// when it went out; kept for re-delivery, as `push` keeps it, when the
    /// connection was lost (the failed send gives the result back).
    pub fn after_send(&mut self, sent: Result<(), T>)
        requires
            old(self).view().len() <= MAX_BUFFERED_RESULTS,
        ensures
            match sent {
                Ok(()) => final(self).view() == old(self).view(),
                Err(result) => final(self).view() == if old(self).view().len() >= MAX_BUFFERED_RESULTS {
                    old(self).view().skip(1).push(result)
                } else {
                    old(self).view().push(result)
                },
            },
            final(self).view().len() <= MAX_BUFFERED_RESULTS,
    {
        match sent {
            Ok(()) => {},
            Err(result) => self.push(result),
        }
    }

    /// All buffered results, oldest first, leaving the buffer empty.
    pub fn drain(&mut self) -> (r: Vec<T>)
        ensures
            r@ == old(self).view(),
            final(self).view() == Seq::<T>::empty(),
    {
        let mut out: Vec<T> = Vec::new();
        std::mem::swap(&mut out, &mut self.items);
        out
    }

    pub fn len(&self) -> (r: usize)
        ensures
            r == self.view().len(),
    {
        self.items.len()
    }
}

} // verus!
