//! The coordinating client's decisions: what each command of the command bar
//! does to the cluster state and which outside work it asks for, and how the
//! state follows the events that agents send.
use vstd::prelude::*;
use crate::text::{owned, push_str, views, opt_view, seq_starts_with, lowercase_of, str_eq, byte_len, chars_of,
    char_byte_len, string_from_chars};
use crate::types::{NodeStatus, OsKind, ArchKind, TaskType};
use crate::ids::{uuid_text, uuid_to_string, new_v4};
use crate::command::{Command, CommandView};
use crate::agents::{AgentTable, AgentView, short_id, short_of};
use crate::task_manager::{TaskManager, TaskManagerView, TaskOutcome, TaskRecord, TaskRecordView, spec_cancel};
use crate::cross_compile::{target_for_platform, label_for_target, github_agent_url, spec_target_for_platform,
    spec_label_for_target, agent_url};
use crate::views::InfoState;
use crate::numparse::{decimal_string, decimal_text};

verus! {

/// How an activity line is shown.
#[derive(Debug, Clone, Copy, PartialEq, Eq, Structural)]
pub enum ActivityLevel {
    Info,
    Success,
    Warning,
    Error,
}

/// Ring-buffer activity log with fixed capacity: the newest lines last.
pub struct ActivityLog {
    entries: Vec<(String, ActivityLevel)>,
    capacity: usize,
}

pub type ActivityEntry = (Seq<char>, ActivityLevel);

/// A log after a line is added: the oldest line goes when the log is full.
pub open spec fn logged(log: Seq<ActivityEntry>, cap: nat, text: Seq<char>, level: ActivityLevel) -> Seq<ActivityEntry> {
    if log.len() >= cap { log.skip(1).push((text, level)) } else { log.push((text, level)) }
}

impl ActivityLog {
    pub closed spec fn view(&self) -> Seq<ActivityEntry> {
        self.entries@.map_values(|e: (String, ActivityLevel)| (e.0@, e.1))
    }

    pub closed spec fn spec_capacity(&self) -> nat {
        self.capacity as nat
    }

    #[verifier::type_invariant]
    closed spec fn inv(&self) -> bool {
        self.capacity > 0 && self.entries@.len() <= self.capacity
    }

    /// An empty log keeping at most `capacity` lines.
    pub fn new(capacity: usize) -> (r: Self)
        requires
            capacity > 0,
        ensures
            r.view() == Seq::<ActivityEntry>::empty(),
            r.spec_capacity() == capacity,
    {
        let r = ActivityLog { entries: Vec::new(), capacity };
        assert(r.view() =~= Seq::<ActivityEntry>::empty());
        r
    }

    /// Adds a line, dropping the oldest one when the log is full.
    pub fn push(&mut self, text: String, level: ActivityLevel)
        ensures
            final(self).view() == logged(old(self).view(), old(self).spec_capacity(), text@, level),
            final(self).spec_capacity() == old(self).spec_capacity(),
            final(self).view().len() <= final(self).spec_capacity(),
    {
        proof {
            use_type_invariant(&*self);
        }
        let ghost t = text@;
        let ghost before = self.view();
        let mut es: Vec<(String, ActivityLevel)> = Vec::new();
        std::mem::swap(&mut es, &mut self.entries);
        let ghost raw = es@;
        if es.len() >= self.capacity {
            es.remove(0);
            assert(es@.map_values(|e: (String, ActivityLevel)| (e.0@, e.1)) =~= before.skip(1));
        }
        let ghost mid = es@;
        es.push((text, level));
        assert(es@.map_values(|e: (String, ActivityLevel)| (e.0@, e.1))
            =~= mid.map_values(|e: (String, ActivityLevel)| (e.0@, e.1)).push((t, level)));
        self.entries = es;
    }

    /// The lines, oldest first.
    pub fn entries(&self) -> (r: &Vec<(String, ActivityLevel)>)
        ensures
            r@.map_values(|e: (String, ActivityLevel)| (e.0@, e.1)) == self.view(),
    {
        &self.entries
    }

    pub fn len(&self) -> (r: usize)
        ensures
            r == self.view().len(),
    {
        self.entries.len()
    }
}

/// Adding lines never makes the log longer than its capacity.
pub proof fn lemma_log_bounded(log: Seq<ActivityEntry>, cap: nat, text: Seq<char>, level: ActivityLevel)
    requires
        cap > 0,
        log.len() <= cap,
    ensures
        logged(log, cap, text, level).len() <= cap,
        logged(log, cap, text, level).last() == (text, level),
        log.len() < cap ==> logged(log, cap, text, level).drop_last() == log,
{
    assert(log.push((text, level)).drop_last() =~= log);
}

// ---------------------------------------------------------------------------
// The info views
// ---------------------------------------------------------------------------

/// The info views that were opened, by node.
pub struct InfoViews {
    views: Vec<(u128, InfoState)>,
}

/// What an info view shows: its log lines and whether its node is connected.
pub type InfoView = (Seq<Seq<char>>, bool);

spec fn info_ids_unique(s: Seq<(u128, InfoState)>) -> bool {
    forall|i: int, j: int| 0 <= i < s.len() && 0 <= j < s.len() && (#[trigger] s[i]).0 == (#[trigger] s[j]).0 ==> i == j
}

spec fn info_map(s: Seq<(u128, InfoState)>) -> Map<u128, InfoView>
    decreases s.len(),
{
    if s.len() == 0 {
        Map::empty()
    } else {
        info_map(s.drop_last()).insert(s.last().0, (views(s.last().1.log_lines@), s.last().1.active))
    }
}

proof fn lemma_info_map(s: Seq<(u128, InfoState)>)
    requires
        info_ids_unique(s),
    ensures
        forall|id: u128| #[trigger] info_map(s).contains_key(id) <==> exists|i: int| 0 <= i < s.len() && s[i].0 == id,
        forall|i: int| 0 <= i < s.len() ==> #[trigger] info_map(s)[s[i].0] == (views(s[i].1.log_lines@), s[i].1.active),
    decreases s.len(),
{
    if s.len() > 0 {
        let t = s.drop_last();
        assert(info_ids_unique(t)) by {
            assert forall|i: int, j: int| 0 <= i < t.len() && 0 <= j < t.len() && (#[trigger] t[i]).0 == (#[trigger] t[j]).0 implies i == j by {
                assert(t[i] == s[i] && t[j] == s[j]);
            }
        }
        lemma_info_map(t);
        assert forall|id: u128| #[trigger] info_map(s).contains_key(id) <==> exists|i: int| 0 <= i < s.len() && s[i].0 == id by {
            if info_map(s).contains_key(id) && id != s.last().0 {
                assert(info_map(t).contains_key(id));
                let i = choose|i: int| 0 <= i < t.len() && t[i].0 == id;
                assert(s[i] == t[i]);
            }
            if id == s.last().0 {
                assert(s[s.len() - 1].0 == id);
            }
            if exists|i: int| 0 <= i < s.len() && s[i].0 == id {
                let i = choose|i: int| 0 <= i < s.len() && s[i].0 == id;
                if i < s.len() - 1 {
                    assert(t[i] == s[i]);
                    assert(info_map(t).contains_key(id));
                }
            }
        }
        assert forall|i: int| 0 <= i < s.len() implies #[trigger] info_map(s)[s[i].0] == (views(s[i].1.log_lines@), s[i].1.active) by {
            if i < s.len() - 1 {
                assert(t[i] == s[i]);
                assert(s[i].0 != s.last().0);
                assert(info_map(t)[t[i].0] == (views(t[i].1.log_lines@), t[i].1.active));
                assert(info_map(t).contains_key(t[i].0));
            }
        }
    }
}

impl InfoViews {
    pub closed spec fn view(&self) -> Map<u128, InfoView> {
        info_map(self.views@)
    }

    #[verifier::type_invariant]
    closed spec fn inv(&self) -> bool {
        info_ids_unique(self.views@)
    }

    pub fn new() -> (r: Self)
        ensures
            r.view() == Map::<u128, InfoView>::empty(),
    {
        InfoViews { views: Vec::new() }
    }

    fn position(&self, id: u128) -> (r: Option<usize>)
        ensures
            match r {
                Some(i) => i < self.views@.len() && self.views@[i as int].0 == id,
                None => forall|i: int| 0 <= i < self.views@.len() ==> (#[trigger] self.views@[i]).0 != id,
            },
    {
        let mut i: usize = 0;
        while i < self.views.len()
            invariant
                i <= self.views@.len(),
                forall|j: int| 0 <= j < i ==> (#[trigger] self.views@[j]).0 != id,
            decreases self.views@.len() - i,
        {
            if self.views[i].0 == id {
                return Some(i);
            }
            i = i + 1;
        }
        None
    }

    /// Opens the info view of a node, creating it when it does not exist.
    pub fn open(&mut self, id: u128)
        ensures
            final(self).view() == if old(self).view().contains_key(id) {
                old(self).view()
            } else {
                old(self).view().insert(id, (Seq::<Seq<char>>::empty(), true))
            },
    {
        proof {
            use_type_invariant(&*self);
            lemma_info_map(self.views@);
        }
        if self.position(id).is_none() {
            let ghost before = self.views@;
            let st = InfoState::new();
            proof {
                assert(views(st.log_lines@) =~= Seq::<Seq<char>>::empty());
            }
            let mut vs: Vec<(u128, InfoState)> = Vec::new();
            std::mem::swap(&mut vs, &mut self.views);
            vs.push((id, st));
            proof {
                assert(info_ids_unique(vs@)) by {
                    assert forall|a: int, b: int| 0 <= a < vs@.len() && 0 <= b < vs@.len() && (#[trigger] vs@[a]).0 == (#[trigger] vs@[b]).0 implies a == b by {
                        if a < before.len() {
                            assert(vs@[a] == before[a]);
                        }
                        if b < before.len() {
                            assert(vs@[b] == before[b]);
                        }
                    }
                }
                assert(vs@.drop_last() =~= before);
            }
            self.views = vs;
        } else {
            proof {
                let i = choose|i: int| 0 <= i < self.views@.len() && self.views@[i].0 == id;
            }
        }
    }

    fn change_at(&mut self, i: usize, line: Option<String>, deactivate: bool)
        requires
            i < old(self).views@.len(),
        ensures
            final(self).view() == old(self).view().insert(old(self).views@[i as int].0, (
                match line {
                    Some(l) => crate::views::keep_last(old(self).view()[old(self).views@[i as int].0].0.push(l@), crate::views::MAX_LOG_LINES as nat),
                    None => old(self).view()[old(self).views@[i as int].0].0,
                },
                if deactivate { false } else { old(self).view()[old(self).views@[i as int].0].1 },
            )),
    {
        proof {
            use_type_invariant(&*self);
            lemma_info_map(self.views@);
        }
        let ghost before = self.views@;
        let mut vs: Vec<(u128, InfoState)> = Vec::new();
        std::mem::swap(&mut vs, &mut self.views);
        let (id, mut st) = vs.remove(i);
        let ghost mid = vs@;
        if let Some(l) = line {
            st.append_log(l);
        }
        if deactivate {
            st.active = false;
        }
        vs.push((id, st));
        proof {
            assert(forall|k: int| 0 <= k < mid.len() ==> #[trigger] mid[k] == before[if k < i { k } else { k + 1 }]);
            assert(info_ids_unique(vs@)) by {
                assert forall|a: int, b: int| 0 <= a < vs@.len() && 0 <= b < vs@.len() && (#[trigger] vs@[a]).0 == (#[trigger] vs@[b]).0 implies a == b by {
                    let sa = if a < i { a } else if a < mid.len() { a + 1 } else { i as int };
                    let sb = if b < i { b } else if b < mid.len() { b + 1 } else { i as int };
                    if a < mid.len() {
                        assert(vs@[a] == before[sa]);
                    }
                    if b < mid.len() {
                        assert(vs@[b] == before[sb]);
                    }
                }
            }
            lemma_info_map(vs@);
            let newv = info_map(vs@);
            let expect = info_map(before).insert(id, (views(st.log_lines@), st.active));
            assert forall|k: u128| #[trigger] newv.contains_key(k) <==> expect.contains_key(k) by {
                if newv.contains_key(k) {
                    let q = choose|q: int| 0 <= q < vs@.len() && vs@[q].0 == k;
                    if q < mid.len() {
                        let sq = if q < i { q } else { q + 1 };
                        assert(vs@[q] == before[sq]);
                    }
                }
                if expect.contains_key(k) && k != id {
                    let q = choose|q: int| 0 <= q < before.len() && before[q].0 == k;
                    assert(q != i);
                    let r = if q < i { q } else { q - 1 };
                    assert(vs@[r] == before[q]);
                }
                if k == id {
                    assert(vs@[mid.len() as int].0 == k);
                }
            }
            assert forall|k: u128| #[trigger] newv.contains_key(k) implies newv[k] == expect[k] by {
                let q = choose|q: int| 0 <= q < vs@.len() && vs@[q].0 == k;
                if q < mid.len() {
                    let sq = if q < i { q } else { q + 1 };
                    assert(vs@[q] == before[sq]);
                    assert(info_map(before)[before[sq].0] == (views(before[sq].1.log_lines@), before[sq].1.active));
                }
            }
            assert(newv =~= expect);
        }
        self.views = vs;
    }

    /// The info view of a node, if it was opened.
    pub fn get(&self, id: u128) -> (r: Option<&InfoState>)
        ensures
            match r {
                Some(st) => self.view().contains_key(id) && self.view()[id] == (views(st.log_lines@), st.active),
                None => !self.view().contains_key(id),
            },
    {
        proof {
            use_type_invariant(self);
            lemma_info_map(self.views@);
        }
        match self.position(id) {
            Some(i) => Some(&self.views[i].1),
            None => None,
        }
    }

    /// Closes a node's info view, if it was opened.
    pub fn remove(&mut self, id: u128)
        ensures
            final(self).view() == old(self).view().remove(id),
    {
        proof {
            use_type_invariant(&*self);
            lemma_info_map(self.views@);
        }
        match self.position(id) {
            Some(i) => {
                let ghost before = self.views@;
                let mut vs: Vec<(u128, InfoState)> = Vec::new();
                std::mem::swap(&mut vs, &mut self.views);
                vs.remove(i);
                proof {
                    assert(forall|k: int| 0 <= k < vs@.len() ==> #[trigger] vs@[k] == before[if k < i { k } else { k + 1 }]);
                    assert(info_ids_unique(vs@)) by {
                        assert forall|a: int, b: int| 0 <= a < vs@.len() && 0 <= b < vs@.len() && (#[trigger] vs@[a]).0 == (#[trigger] vs@[b]).0 implies a == b by {
                            let sa = if a < i { a } else { a + 1 };
                            let sb = if b < i { b } else { b + 1 };
                            assert(vs@[a] == before[sa]);
                            assert(vs@[b] == before[sb]);
                        }
                    }
                    lemma_info_map(vs@);
                    let newv = info_map(vs@);
                    let expect = info_map(before).remove(id);
                    assert forall|k: u128| #[trigger] newv.contains_key(k) <==> expect.contains_key(k) by {
                        if newv.contains_key(k) {
                            let q = choose|q: int| 0 <= q < vs@.len() && vs@[q].0 == k;
                            let sq = if q < i { q } else { q + 1 };
                            assert(vs@[q] == before[sq]);
                            assert(sq != i);
                        }
                        if expect.contains_key(k) {
                            let q = choose|q: int| 0 <= q < before.len() && before[q].0 == k;
                            assert(q != i);
                            let r = if q < i { q } else { q - 1 };
                            assert(vs@[r] == before[q]);
                        }
                    }
                    assert forall|k: u128| #[trigger] newv.contains_key(k) implies newv[k] == expect[k] by {
                        let q = choose|q: int| 0 <= q < vs@.len() && vs@[q].0 == k;
                        let sq = if q < i { q } else { q + 1 };
                        assert(vs@[q] == before[sq]);
                        assert(info_map(before)[before[sq].0] == (views(before[sq].1.log_lines@), before[sq].1.active));
                    }
                    assert(newv =~= expect);
                }
                self.views = vs;
            },
            None => {
                proof {
                    assert(!info_map(self.views@).contains_key(id));
                    assert(info_map(self.views@).remove(id) =~= info_map(self.views@));
                }
            },
        }
    }

    /// Adds a line to a node's log, if its view was opened.
    pub fn append(&mut self, id: u128, line: String)
        ensures
            final(self).view() == if old(self).view().contains_key(id) {
                old(self).view().insert(id, (crate::views::keep_last(old(self).view()[id].0.push(line@), crate::views::MAX_LOG_LINES as nat), old(self).view()[id].1))
            } else {
                old(self).view()
            },
    {
        proof {
            use_type_invariant(&*self);
            lemma_info_map(self.views@);
        }
        match self.position(id) {
            Some(i) => self.change_at(i, Some(line), false),
            None => {},
        }
    }

    /// Adds a line to a node's log and marks the node disconnected, if its view was opened.
    pub fn append_and_deactivate(&mut self, id: u128, line: String)
        ensures
            final(self).view() == if old(self).view().contains_key(id) {
                old(self).view().insert(id, (crate::views::keep_last(old(self).view()[id].0.push(line@), crate::views::MAX_LOG_LINES as nat), false))
            } else {
                old(self).view()
            },
    {
        proof {
            use_type_invariant(&*self);
            lemma_info_map(self.views@);
        }
        match self.position(id) {
            Some(i) => self.change_at(i, Some(line), true),
            None => {},
        }
    }
}


// ---------------------------------------------------------------------------
// The coordinating client
// ---------------------------------------------------------------------------

/// A quota a task is submitted with; the CPU share is kept as typed.
pub struct QuotaRequest {
    pub max_ram_mb: Option<u64>,
    pub max_cpu_pct: Option<String>,
}

/// A task to build and hand to the scheduler. Floating-point settings are
/// kept as typed; the other settings have their defaults applied.
#[allow(inconsistent_fields)]
pub enum DispatchRequest {
    Train { dataset: String, epochs: u32, lr: Option<String>, batch_size: u32, output: String, quota: Option<QuotaRequest> },
    Finetune {
        base_model: String,
        dataset: String,
        epochs: u32,
        lr: Option<String>,
        batch_size: u32,
        output: String,
        adapter: String,
        quota: Option<QuotaRequest>,
    },
    Infer { prompt: String, max_tokens: u32, temperature: Option<String> },
    Preprocess { input: String, output: String, format: String },
    Evaluate { model: String, dataset: String, metrics: Vec<String>, output: Option<String> },
    Rag { query: String, index: String, model: Option<String>, top_k: u32 },
    Embed { input: String, model: Option<String>, index: Option<String>, operation: String },
    Plugin { name: String, config: String },
}


/// A dispatch request with its text fields as character sequences.
#[allow(inconsistent_fields)]
pub enum DispatchView {
    Train { dataset: Seq<char>, epochs: u32, lr: Option<Seq<char>>, batch_size: u32, output: Seq<char>,
        quota: Option<(Option<u64>, Option<Seq<char>>)> },
    Finetune { base_model: Seq<char>, dataset: Seq<char>, epochs: u32, lr: Option<Seq<char>>, batch_size: u32,
        output: Seq<char>, adapter: Seq<char>, quota: Option<(Option<u64>, Option<Seq<char>>)> },
    Infer { prompt: Seq<char>, max_tokens: u32, temperature: Option<Seq<char>> },
    Preprocess { input: Seq<char>, output: Seq<char>, format: Seq<char> },
    Evaluate { model: Seq<char>, dataset: Seq<char>, metrics: Seq<Seq<char>>, output: Option<Seq<char>> },
    Rag { query: Seq<char>, index: Seq<char>, model: Option<Seq<char>>, top_k: u32 },
    Embed { input: Seq<char>, model: Option<Seq<char>>, index: Option<Seq<char>>, operation: Seq<char> },
    Plugin { name: Seq<char>, config: Seq<char> },
}

pub open spec fn quota_view(q: Option<QuotaRequest>) -> Option<(Option<u64>, Option<Seq<char>>)> {
    match q {
        Some(q) => Some((q.max_ram_mb, opt_view(q.max_cpu_pct))),
        None => None,
    }
}

pub open spec fn dispatch_view(d: DispatchRequest) -> DispatchView {
    match d {
        DispatchRequest::Train { dataset, epochs, lr, batch_size, output, quota } => DispatchView::Train {
            dataset: dataset@, epochs, lr: opt_view(lr), batch_size, output: output@, quota: quota_view(quota) },
        DispatchRequest::Finetune { base_model, dataset, epochs, lr, batch_size, output, adapter, quota } => DispatchView::Finetune {
            base_model: base_model@, dataset: dataset@, epochs, lr: opt_view(lr), batch_size, output: output@,
            adapter: adapter@, quota: quota_view(quota) },
        DispatchRequest::Infer { prompt, max_tokens, temperature } => DispatchView::Infer {
            prompt: prompt@, max_tokens, temperature: opt_view(temperature) },
        DispatchRequest::Preprocess { input, output, format } => DispatchView::Preprocess {
            input: input@, output: output@, format: format@ },
        DispatchRequest::Evaluate { model, dataset, metrics, output } => DispatchView::Evaluate {
            model: model@, dataset: dataset@, metrics: views(metrics@), output: opt_view(output) },
        DispatchRequest::Rag { query, index, model, top_k } => DispatchView::Rag {
            query: query@, index: index@, model: opt_view(model), top_k },
        DispatchRequest::Embed { input, model, index, operation } => DispatchView::Embed {
            input: input@, model: opt_view(model), index: opt_view(index), operation: operation@ },
        DispatchRequest::Plugin { name, config } => DispatchView::Plugin { name: name@, config: config@ },
    }
}

/// The kind of task a dispatch request makes.
pub open spec fn dispatch_task_type(d: DispatchView) -> TaskType {
    match d {
        DispatchView::Train { .. } => TaskType::Train,
        DispatchView::Finetune { .. } => TaskType::Finetune,
        DispatchView::Infer { .. } => TaskType::Inference,
        DispatchView::Preprocess { .. } => TaskType::Preprocess,
        DispatchView::Evaluate { .. } => TaskType::Evaluate,
        DispatchView::Rag { .. } => TaskType::Rag,
        DispatchView::Embed { .. } => TaskType::Embed,
        DispatchView::Plugin { .. } => TaskType::Plugin,
    }
}

/// The priority every dispatched task gets.
pub const DISPATCH_PRIORITY: u8 = 5;

/// The timeout every dispatched task gets: five minutes, in milliseconds.
pub const DISPATCH_TIMEOUT_MS: u64 = 300_000;

/// The record of a task made from a dispatch request: its kind, the default
/// priority and timeout, no dependencies, and resumable from a checkpoint
/// exactly when it trains or fine-tunes.
pub open spec fn spec_dispatch_record(d: DispatchView, task_id: u128, created_at: u64) -> TaskRecordView {
    TaskRecordView {
        task_id,
        task_type: dispatch_task_type(d),
        priority: DISPATCH_PRIORITY,
        created_at,
        timeout_ms: DISPATCH_TIMEOUT_MS,
        depends_on: Seq::empty(),
        resumable: d is Train || d is Finetune,
        resume_from: None,
    }
}

/// A dispatched task can resume from a checkpoint exactly when it trains or
/// fine-tunes; every dispatched record carries its request's kind, the given
/// id and time, the default priority and timeout, and no dependencies.
pub proof fn lemma_dispatch_record_resumable(d: DispatchView, id: u128, t: u64)
    ensures
        spec_dispatch_record(d, id, t).resumable <==> (dispatch_task_type(d) == TaskType::Train
            || dispatch_task_type(d) == TaskType::Finetune),
        spec_dispatch_record(d, id, t).task_type == dispatch_task_type(d),
        (d is Train ==> dispatch_task_type(d) == TaskType::Train),
        (d is Finetune ==> dispatch_task_type(d) == TaskType::Finetune),
        spec_dispatch_record(d, id, t).task_id == id,
        spec_dispatch_record(d, id, t).created_at == t,
        spec_dispatch_record(d, id, t).priority == 5,
        spec_dispatch_record(d, id, t).timeout_ms == 300_000,
        spec_dispatch_record(d, id, t).depends_on.len() == 0,
        spec_dispatch_record(d, id, t).resume_from is None,
{
}

/// Builds the record of the task a dispatch request makes (see
/// `spec_dispatch_record`).
pub fn dispatch_record(req: &DispatchRequest, task_id: u128, created_at: u64) -> (r: TaskRecord)
    ensures
        r@ == spec_dispatch_record(dispatch_view(*req), task_id, created_at),
{
    let (task_type, resumable) = match req {
        DispatchRequest::Train { .. } => (TaskType::Train, true),
        DispatchRequest::Finetune { .. } => (TaskType::Finetune, true),
        DispatchRequest::Infer { .. } => (TaskType::Inference, false),
        DispatchRequest::Preprocess { .. } => (TaskType::Preprocess, false),
        DispatchRequest::Evaluate { .. } => (TaskType::Evaluate, false),
        DispatchRequest::Rag { .. } => (TaskType::Rag, false),
        DispatchRequest::Embed { .. } => (TaskType::Embed, false),
        DispatchRequest::Plugin { .. } => (TaskType::Plugin, false),
    };
    let r = TaskRecord {
        task_id,
        task_type,
        priority: DISPATCH_PRIORITY,
        created_at,
        timeout_ms: DISPATCH_TIMEOUT_MS,
        depends_on: Vec::new(),
        resumable,
        resume_from: None,
    };
    assert(r@.depends_on =~= Seq::<u128>::empty());
    r
}

/// The value of an optional setting, or its default.
pub open spec fn or_default<T>(o: Option<T>, d: T) -> T {
    match o {
        Some(v) => v,
        None => d,
    }
}

/// The quota of a training request: present when either limit is given.
pub open spec fn spec_quota(ram: Option<u64>, cpu: Option<Seq<char>>) -> Option<(Option<u64>, Option<Seq<char>>)> {
    if ram is Some || cpu is Some { Some((ram, cpu)) } else { None }
}

/// The task a command requests, with its defaults applied; none for the
/// commands that request no task.
pub open spec fn spec_dispatch(cmd: CommandView) -> Option<DispatchView> {
    match cmd {
        CommandView::Train { dataset, epochs, lr, batch_size, output, max_ram_mb, max_cpu_pct } => Some(DispatchView::Train {
            dataset, epochs: or_default(epochs, 3), lr, batch_size: or_default(batch_size, 32),
            output: or_default(output, "output"@), quota: spec_quota(max_ram_mb, max_cpu_pct) }),
        CommandView::Finetune { base_model, dataset, adapter, epochs, lr, batch_size, output, max_ram_mb, max_cpu_pct } =>
            Some(DispatchView::Finetune {
            base_model, dataset, epochs: or_default(epochs, 3), lr, batch_size: or_default(batch_size, 16),
            output: or_default(output, "output"@), adapter: or_default(adapter, "lora"@),
            quota: spec_quota(max_ram_mb, max_cpu_pct) }),
        CommandView::Infer { prompt, max_tokens, temperature } => Some(DispatchView::Infer {
            prompt, max_tokens: or_default(max_tokens, 256), temperature }),
        CommandView::Preprocess { input, output, format } => Some(DispatchView::Preprocess {
            input, output: or_default(output, "output"@), format: or_default(format, "tokenize"@) }),
        CommandView::Evaluate { model, dataset, metrics, output } => Some(DispatchView::Evaluate { model, dataset, metrics, output }),
        CommandView::Rag { query, index, model, top_k } => Some(DispatchView::Rag { query, index, model, top_k: or_default(top_k, 5) }),
        CommandView::Embed { input, model, index, operation } => Some(DispatchView::Embed {
            input, model, index, operation: or_default(operation, "encode"@) }),
        CommandView::Plugin { name, config } => Some(DispatchView::Plugin { name, config }),
        _ => None,
    }
}

fn or_string(o: Option<String>, d: &str) -> (r: String)
    ensures
        r@ == or_default(opt_view(o), d@),
{
    match o {
        Some(v) => v,
        None => owned(d),
    }
}

fn quota_of(ram: Option<u64>, cpu: Option<String>) -> (r: Option<QuotaRequest>)
    ensures
        quota_view(r) == spec_quota(ram, opt_view(cpu)),
{
    if ram.is_some() || cpu.is_some() {
        Some(QuotaRequest { max_ram_mb: ram, max_cpu_pct: cpu })
    } else {
        None
    }
}

/// Outside work a command asks for.
pub enum Effect {
    /// Build the task, pick a node for it and send it there.
    Dispatch(DispatchRequest),
    /// The task was cancelled here; stop it locally and tell every agent.
    BroadcastCancel(u128),
    /// Scan a subnet for devices.
    StartScan(String),
    /// Install the agent on a host.
    Deploy { target: String, user: Option<String>, pass: Option<String> },
    /// Send the new cluster token to every agent.
    BroadcastToken(String),
    /// Tell every agent to update from a URL.
    BroadcastUpdate(String),
    /// Tell one agent to update from the binary for its platform.
    SendUpdate { node: u128, hostname: String, label: String, download_url: String },
    /// Tell one agent to remove itself.
    SendPurge { node: u128, hostname: String },
}

/// The kind of an effect with its text fields as character sequences.
#[allow(inconsistent_fields)]
pub enum EffectView {
    Dispatch(DispatchView),
    BroadcastCancel(u128),
    StartScan(Seq<char>),
    Deploy { target: Seq<char>, user: Option<Seq<char>>, pass: Option<Seq<char>> },
    BroadcastToken(Seq<char>),
    BroadcastUpdate(Seq<char>),
    SendUpdate { node: u128, hostname: Seq<char>, label: Seq<char>, download_url: Seq<char> },
    SendPurge { node: u128, hostname: Seq<char> },
}

pub open spec fn effect_view(e: Effect) -> EffectView {
    match e {
        Effect::Dispatch(d) => EffectView::Dispatch(dispatch_view(d)),
        Effect::BroadcastCancel(t) => EffectView::BroadcastCancel(t),
        Effect::StartScan(s) => EffectView::StartScan(s@),
        Effect::Deploy { target, user, pass } => EffectView::Deploy { target: target@, user: opt_view(user), pass: opt_view(pass) },
        Effect::BroadcastToken(t) => EffectView::BroadcastToken(t@),
        Effect::BroadcastUpdate(u) => EffectView::BroadcastUpdate(u@),
        Effect::SendUpdate { node, hostname, label, download_url } =>
            EffectView::SendUpdate { node, hostname: hostname@, label: label@, download_url: download_url@ },
        Effect::SendPurge { node, hostname } => EffectView::SendPurge { node, hostname: hostname@ },
    }
}

pub open spec fn effects_view(s: Seq<Effect>) -> Seq<EffectView> {
    s.map_values(|e: Effect| effect_view(e))
}

/// The coordinating client's state.
pub struct Coordinator {
    pub client_id: u128,
    pub agents: AgentTable,
    pub tasks: TaskManager,
    pub activity: ActivityLog,
    pub info_views: InfoViews,
    pub should_quit: bool,
    pub cluster_token: String,
    pub github_repo: String,
    /// The subnet configured for scans (empty when none is).
    pub scan_subnet: String,
}

/// What the decisions read and change of the client's state.
pub struct CoordinatorView {
    pub client_id: u128,
    pub agents: Map<u128, AgentView>,
    pub tasks: TaskManagerView,
    pub activity: Seq<ActivityEntry>,
    pub capacity: nat,
    pub info: Map<u128, InfoView>,
    pub should_quit: bool,
    pub cluster_token: Seq<char>,
    pub github_repo: Seq<char>,
    pub scan_subnet: Seq<char>,
}

impl Coordinator {
    pub open spec fn state(&self) -> CoordinatorView {
        CoordinatorView {
            client_id: self.client_id,
            agents: self.agents.view(),
            tasks: self.tasks.view(),
            activity: self.activity.view(),
            capacity: self.activity.spec_capacity(),
            info: self.info_views.view(),
            should_quit: self.should_quit,
            cluster_token: self.cluster_token@,
            github_repo: self.github_repo@,
            scan_subnet: self.scan_subnet@,
        }
    }
}

/// The state with one more activity line.
pub open spec fn with_line(c: CoordinatorView, text: Seq<char>, level: ActivityLevel) -> CoordinatorView {
    CoordinatorView { activity: logged(c.activity, c.capacity, text, level), ..c }
}

/// The state with several more activity lines, in order.
pub open spec fn with_lines(c: CoordinatorView, lines: Seq<ActivityEntry>) -> CoordinatorView
    decreases lines.len(),
{
    if lines.len() == 0 {
        c
    } else {
        with_line(with_lines(c, lines.drop_last()), lines.last().0, lines.last().1)
    }
}

/// The subnet a pulse scans: the one given, else the configured one, else
/// the detected local one, else `192.168.1.0/24`.
pub open spec fn pulse_subnet(arg: Option<Seq<char>>, configured: Seq<char>, detected: Option<Seq<char>>) -> Seq<char> {
    match arg {
        Some(s) => s,
        None => if configured.len() > 0 {
            configured
        } else {
            match detected {
                Some(d) => d,
                None => "192.168.1.0/24"@,
            }
        },
    }
}

/// The node an `info` command opens, if one is found.
pub open spec fn info_target(c: CoordinatorView, node_id: Option<u128>, prefix: Option<Seq<char>>) -> Option<u128> {
    match node_id {
        Some(id) => Some(id),
        None => match prefix {
            Some(p) => {
                if exists|id: u128| #[trigger] c.agents.contains_key(id) && seq_starts_with(uuid_text(id), lowercase_of(p))
                    && forall|o: u128| #[trigger] c.agents.contains_key(o) && seq_starts_with(uuid_text(o), lowercase_of(p)) ==> o == id {
                    Some(choose|id: u128| #[trigger] c.agents.contains_key(id) && seq_starts_with(uuid_text(id), lowercase_of(p))
                        && forall|o: u128| #[trigger] c.agents.contains_key(o) && seq_starts_with(uuid_text(o), lowercase_of(p)) ==> o == id)
                } else {
                    None
                }
            },
            None => Some(c.client_id),
        },
    }
}

/// The info views after a node's view is opened.
pub open spec fn opened(info: Map<u128, InfoView>, id: u128) -> Map<u128, InfoView> {
    if info.contains_key(id) { info } else { info.insert(id, (Seq::<Seq<char>>::empty(), true)) }
}

/// The online agents with a known target platform.
pub open spec fn updatable(c: CoordinatorView, id: u128) -> bool {
    c.agents.contains_key(id) && c.agents[id].status == NodeStatus::Online
        && spec_target_for_platform(c.agents[id].os, c.agents[id].arch) is Some
}

/// The label of an agent's platform.
pub open spec fn agent_label(c: CoordinatorView, id: u128) -> Seq<char> {
    spec_label_for_target(spec_target_for_platform(c.agents[id].os, c.agents[id].arch).unwrap())
}

/// The activity lines of an `ascend` without URL: one per agent updated,
/// then, when none was, a warning unless some agent was skipped, then one
/// per agent skipped for its unknown platform.
pub open spec fn ascend_lines(sent: Seq<EffectView>, skipped: Seq<Seq<char>>) -> Seq<ActivityEntry> {
    let s = Seq::new(sent.len(), |k: int| match sent[k] {
        EffectView::SendUpdate { hostname, label, .. } => ("[ascend] sending to "@ + hostname + " ("@ + label + ")"@, ActivityLevel::Info),
        _ => (Seq::empty(), ActivityLevel::Info),
    });
    let w = if sent.len() == 0 && skipped.len() == 0 { seq![("No online agents to update"@, ActivityLevel::Warning)] } else { Seq::empty() };
    s + w + Seq::new(skipped.len(), |k: int| ("[ascend] skipped "@ + skipped[k] + " (unknown platform)"@, ActivityLevel::Warning))
}

/// The activity lines of a purge sent to the given agents.
pub open spec fn purge_lines(sent: Seq<EffectView>) -> Seq<ActivityEntry> {
    Seq::new(sent.len(), |k: int| match sent[k] {
        EffectView::SendPurge { hostname, .. } => ("[purge] sending to "@ + hostname, ActivityLevel::Info),
        _ => (Seq::empty(), ActivityLevel::Info),
    })
}

proof fn lemma_with_lines_push(c: CoordinatorView, lines: Seq<ActivityEntry>, e: ActivityEntry)
    ensures
        with_lines(c, lines.push(e)) == with_line(with_lines(c, lines), e.0, e.1),
{
    assert(lines.push(e).drop_last() =~= lines);
}

proof fn lemma_with_lines_concat(c: CoordinatorView, a: Seq<ActivityEntry>, b: Seq<ActivityEntry>)
    ensures
        with_lines(c, a + b) == with_lines(with_lines(c, a), b),
    decreases b.len(),
{
    if b.len() == 0 {
        assert(a + b =~= a);
    } else {
        assert((a + b).drop_last() =~= a + b.drop_last());
        lemma_with_lines_concat(c, a, b.drop_last());
    }
}

impl Coordinator {
    /// A client with no agent, no task and an empty activity log.
    pub fn new(client_id: u128, cluster_token: String, github_repo: String, scan_subnet: String) -> (r: Self)
        ensures
            r.state() == (CoordinatorView {
                client_id,
                agents: Map::empty(),
                tasks: TaskManagerView { tasks: Map::empty(), completed: Set::empty() },
                activity: Seq::empty(),
                capacity: 200,
                info: Map::empty(),
                should_quit: false,
                cluster_token: cluster_token@,
                github_repo: github_repo@,
                scan_subnet: scan_subnet@,
            }),
    {
        let r = Coordinator {
            client_id,
            agents: AgentTable::new(),
            tasks: TaskManager::new(),
            activity: ActivityLog::new(200),
            info_views: InfoViews::new(),
            should_quit: false,
            cluster_token,
            github_repo,
            scan_subnet,
        };
        assert(r.tasks.view() =~= TaskManagerView { tasks: Map::empty(), completed: Set::empty() });
        r
    }

    /// Adds an activity line.
    pub fn log(&mut self, text: String, level: ActivityLevel)
        ensures
            final(self).state() == with_line(old(self).state(), text@, level),
    {
        self.activity.push(text, level);
    }

    fn log_lines(&mut self, lines: Vec<(String, ActivityLevel)>)
        ensures
            final(self).state() == with_lines(old(self).state(), lines@.map_values(|e: (String, ActivityLevel)| (e.0@, e.1))),
    {
        let ghost st0 = self.state();
        let ghost lv = lines@.map_values(|e: (String, ActivityLevel)| (e.0@, e.1));
        let n = lines.len();
        let mut rest = lines;
        let mut rev: Vec<(String, ActivityLevel)> = Vec::new();
        while rest.len() > 0
            invariant
                rest@.len() + rev@.len() == lv.len(),
                forall|k: int| 0 <= k < rest@.len() ==> (#[trigger] rest@[k]).0@ == lv[k].0 && rest@[k].1 == lv[k].1,
                forall|k: int| 0 <= k < rev@.len() ==> (#[trigger] rev@[k]).0@ == lv[lv.len() - 1 - k].0 && rev@[k].1 == lv[lv.len() - 1 - k].1,
            decreases rest@.len(),
        {
            let x = rest.pop().unwrap();
            rev.push(x);
        }
        let mut done: usize = 0;
        assert(lv.take(0) =~= Seq::<ActivityEntry>::empty());
        while rev.len() > 0
            invariant
                rev@.len() + done == lv.len(),
                lv.len() == n,
                forall|k: int| 0 <= k < rev@.len() ==> (#[trigger] rev@[k]).0@ == lv[lv.len() - 1 - k].0 && rev@[k].1 == lv[lv.len() - 1 - k].1,
                self.state() == with_lines(st0, lv.take(done as int)),
            decreases rev@.len(),
        {
            let (t, l) = rev.pop().unwrap();
            proof {
                lemma_with_lines_push(st0, lv.take(done as int), lv[done as int]);
                assert(lv.take(done as int).push(lv[done as int]) =~= lv.take(done + 1));
            }
            self.activity.push(t, l);
            done = done + 1;
        }
        assert(lv.take(lv.len() as int) =~= lv);
    }
}


// ---------------------------------------------------------------------------
// What each command does
// ---------------------------------------------------------------------------

/// `info`: the node's view is opened, or a warning says no agent matches.
pub open spec fn info_done(old: CoordinatorView, new: CoordinatorView, node_id: Option<u128>, prefix: Option<Seq<char>>) -> bool {
    match info_target(old, node_id, prefix) {
        Some(id) => new == (CoordinatorView { info: opened(old.info, id), ..old }),
        None => new == with_line(old, "no agent matching '"@ + prefix.unwrap() + "'"@, ActivityLevel::Warning),
    }
}

/// `cancel`: a task whose id starts with the text is cancelled and the
/// cancellation sent out, or a warning says no task matches.
pub open spec fn cancel_done(old: CoordinatorView, new: CoordinatorView, task_text: Seq<char>, effects: Seq<EffectView>) -> bool {
    ||| exists|t: u128| #![trigger old.tasks.tasks[t]] old.tasks.tasks.contains_key(t)
            && seq_starts_with(uuid_text(t), lowercase_of(task_text))
            && effects == seq![EffectView::BroadcastCancel(t)]
            && new == (CoordinatorView { tasks: spec_cancel(old.tasks, t), ..old })
    ||| (forall|t: u128| #[trigger] old.tasks.tasks.contains_key(t) ==> !seq_starts_with(uuid_text(t), lowercase_of(task_text)))
            && effects.len() == 0
            && new == with_line(old, "Task not found: "@ + task_text, ActivityLevel::Warning)
}

/// `bless`: a fresh random token replaces the cluster token and is sent out.
pub open spec fn bless_done(old: CoordinatorView, new: CoordinatorView, effects: Seq<EffectView>) -> bool {
    exists|id: u128| {
        let token = #[trigger] uuid_text(id);
        &&& effects == seq![EffectView::BroadcastToken(token)]
        &&& new == with_line(CoordinatorView { cluster_token: token, ..old },
            "[token] rotating cluster token to "@ + token.take(8) + "..."@, ActivityLevel::Warning)
    }
}

/// `ascend` without URL: each online agent of a known platform is sent the
/// binary for it; the others are reported skipped.
pub open spec fn ascend_all_done(old: CoordinatorView, new: CoordinatorView, effects: Seq<EffectView>) -> bool {
    &&& forall|k: int| 0 <= k < effects.len() ==> (#[trigger] effects[k] matches EffectView::SendUpdate { node, hostname, label, download_url }
        && updatable(old, node) && hostname == old.agents[node].hostname && label == agent_label(old, node)
        && download_url == agent_url(old.github_repo, label))
    &&& forall|id: u128| #[trigger] updatable(old, id) ==> exists|k: int| 0 <= k < effects.len()
        && (#[trigger] effects[k] matches EffectView::SendUpdate { node, .. } && node == id)
    &&& forall|a: int, b: int| #![trigger effects[a], effects[b]] 0 <= a < effects.len() && 0 <= b < effects.len() && a != b ==>
        (effects[a] matches EffectView::SendUpdate { node: na, .. } && effects[b] matches EffectView::SendUpdate { node: nb, .. } && na != nb)
    &&& exists|skipped: Seq<u128>| {
        &&& skipped.no_duplicates()
        &&& (forall|id: u128| #[trigger] skipped.contains(id) <==> old.agents.contains_key(id)
            && old.agents[id].status == NodeStatus::Online
            && spec_target_for_platform(old.agents[id].os, old.agents[id].arch) is None)
        &&& new == with_lines(old, ascend_lines(effects, skipped.map_values(|id: u128| old.agents[id].hostname)))
    }
}

/// `purge all`: each online agent is told to remove itself, or a warning
/// says none is online.
pub open spec fn purge_all_done(old: CoordinatorView, new: CoordinatorView, effects: Seq<EffectView>) -> bool {
    &&& forall|k: int| 0 <= k < effects.len() ==> (#[trigger] effects[k] matches EffectView::SendPurge { node, hostname }
        && old.agents.contains_key(node) && old.agents[node].status == NodeStatus::Online && hostname == old.agents[node].hostname)
    &&& forall|id: u128| #[trigger] old.agents.contains_key(id) && old.agents[id].status == NodeStatus::Online
        ==> exists|k: int| 0 <= k < effects.len() && (#[trigger] effects[k] matches EffectView::SendPurge { node, .. } && node == id)
    &&& forall|a: int, b: int| #![trigger effects[a], effects[b]] 0 <= a < effects.len() && 0 <= b < effects.len() && a != b ==>
        (effects[a] matches EffectView::SendPurge { node: na, .. } && effects[b] matches EffectView::SendPurge { node: nb, .. } && na != nb)
    &&& new == if effects.len() == 0 {
        with_line(old, "No online agents to purge"@, ActivityLevel::Warning)
    } else {
        with_lines(old, purge_lines(effects))
    }
}

/// `purge <prefix>`: an agent whose id starts with the text is told to
/// remove itself, or a warning says none matches.
pub open spec fn purge_one_done(old: CoordinatorView, new: CoordinatorView, target: Seq<char>, effects: Seq<EffectView>) -> bool {
    ||| exists|id: u128| #![trigger old.agents[id]] old.agents.contains_key(id) && seq_starts_with(uuid_text(id), target)
            && effects == seq![EffectView::SendPurge { node: id, hostname: old.agents[id].hostname }]
            && new == with_line(old, "[purge] sending to "@ + old.agents[id].hostname, ActivityLevel::Info)
    ||| (forall|id: u128| #[trigger] old.agents.contains_key(id) ==> !seq_starts_with(uuid_text(id), target))
            && effects.len() == 0
            && new == with_line(old, "[purge] no agent matching '"@ + target + "'"@, ActivityLevel::Warning)
}

/// The part of a plugin's configuration shown in the activity line: its
/// first 60 bytes.
pub open spec fn plugin_preview(config: Seq<char>) -> Seq<char> {
    if byte_len(config) <= 60 {
        config
    } else {
        config.take(choose|k: int| 0 <= k <= config.len() && byte_len(config.take(k)) == 60)
    }
}

/// Whether byte 60 of a configuration falls between characters, as the
/// activity line's cut needs.
pub open spec fn preview_cut_ok(config: Seq<char>) -> bool {
    byte_len(config) <= 60 || exists|k: int| 0 <= k <= config.len() && byte_len(config.take(k)) == 60
}

fn preview_of(config: &str) -> (r: String)
    requires
        preview_cut_ok(config@),
    ensures
        r@ == plugin_preview(config@),
{
    let cs = chars_of(config);
    let mut bytes: usize = 0;
    let mut k: usize = 0;
    while k < cs.len() && bytes < 60
        invariant
            preview_cut_ok(config@),
            cs@ == config@,
            k <= cs@.len(),
            bytes == byte_len(cs@.take(k as int)),
            bytes <= 60,
        decreases cs@.len() - k,
    {
        let w = char_byte_len(cs[k]);
        proof {
            crate::text::lemma_byte_len_take_step(cs@, k as int);
            if bytes + w > 60 {
                // byte 60 would fall inside this character: the precondition rules that out
                if byte_len(config@) > 60 {
                    let j = choose|j: int| 0 <= j <= config@.len() && byte_len(config@.take(j)) == 60;
                    if j <= k {
                        if j < k {
                            crate::text::lemma_byte_len_take_monotone(cs@, j, k as int);
                        }
                    } else {
                        if j > k + 1 {
                            crate::text::lemma_byte_len_take_monotone(cs@, k + 1, j);
                        }
                    }
                } else {
                    if k + 1 < cs@.len() {
                        crate::text::lemma_byte_len_take_monotone(cs@, k + 1, cs@.len() as int);
                    }
                    assert(cs@.take(cs@.len() as int) =~= cs@);
                }
            }
        }
        bytes = bytes + w;
        k = k + 1;
    }
    proof {
        if byte_len(config@) > 60 {
            assert(bytes == 60) by {
                if bytes < 60 {
                    assert(k == cs@.len());
                    assert(cs@.take(k as int) =~= cs@);
                }
            }
            let j = choose|j: int| 0 <= j <= config@.len() && byte_len(config@.take(j)) == 60;
            crate::text::lemma_byte_len_take_injective(cs@, j, k as int);
        } else {
            if k < cs@.len() {
                crate::text::lemma_byte_len_take_monotone(cs@, k as int, cs@.len() as int);
                assert(cs@.take(cs@.len() as int) =~= cs@);
            }
            assert(k == cs@.len());
            assert(cs@.take(k as int) =~= cs@);
        }
    }
    let mut out = String::new();
    let mut i: usize = 0;
    while i < k
        invariant
            k <= cs@.len(),
            i <= k,
            out@ == cs@.take(i as int),
        decreases k - i,
    {
        crate::text::push_char(&mut out, cs[i]);
        i = i + 1;
        assert(out@ =~= cs@.take(i as int));
    }
    out
}

impl Coordinator {
    fn cmd_info(&mut self, node_id: Option<u128>, prefix: Option<String>)
        ensures
            info_done(old(self).state(), final(self).state(), node_id, opt_view(prefix)),
    {
        let ghost st = self.state();
        match node_id {
            Some(id) => {
                self.info_views.open(id);
            },
            None => match prefix {
                Some(p) => {
                    match self.agents.find_by_prefix(p.as_str()) {
                        Some(id) => {
                            proof {
                                let pv = p@;
                                let c = choose|c: u128| #[trigger] st.agents.contains_key(c) && seq_starts_with(uuid_text(c), lowercase_of(pv))
                                    && forall|o: u128| #[trigger] st.agents.contains_key(o) && seq_starts_with(uuid_text(o), lowercase_of(pv)) ==> o == c;
                                assert(c == id);
                            }
                            self.info_views.open(id);
                        },
                        None => {
                            let mut m = owned("no agent matching '");
                            push_str(&mut m, p.as_str());
                            push_str(&mut m, "'");
                            self.activity.push(m, ActivityLevel::Warning);
                        },
                    }
                },
                None => {
                    let id = self.client_id;
                    self.info_views.open(id);
                },
            },
        }
    }

    fn cmd_cancel(&mut self, task_id: String) -> (r: Vec<Effect>)
        ensures
            cancel_done(old(self).state(), final(self).state(), task_id@, effects_view(r@)),
    {
        let ghost st = self.state();
        match self.tasks.find_by_prefix(task_id.as_str()) {
            Some(t) => {
                self.tasks.cancel(t);
                let r = vec![Effect::BroadcastCancel(t)];
                proof {
                    assert(effects_view(r@) =~= seq![EffectView::BroadcastCancel(t)]);
                    assert(st.tasks.tasks.contains_key(t));
                }
                r
            },
            None => {
                let mut m = owned("Task not found: ");
                push_str(&mut m, task_id.as_str());
                self.activity.push(m, ActivityLevel::Warning);
                let r: Vec<Effect> = Vec::new();
                assert(effects_view(r@) =~= Seq::<EffectView>::empty());
                r
            },
        }
    }

    fn cmd_bless(&mut self) -> (r: Vec<Effect>)
        ensures
            bless_done(old(self).state(), final(self).state(), effects_view(r@)),
    {
        let ghost st = self.state();
        let id = new_v4();
        let token = uuid_to_string(id);
        let short = short_id(id);
        let mut m = owned("[token] rotating cluster token to ");
        push_str(&mut m, short.as_str());
        push_str(&mut m, "...");
        let copy = owned(token.as_str());
        self.cluster_token = token;
        self.activity.push(m, ActivityLevel::Warning);
        let r = vec![Effect::BroadcastToken(copy)];
        proof {
            assert(effects_view(r@) =~= seq![EffectView::BroadcastToken(uuid_text(id))]);
            assert(self.state() == with_line(CoordinatorView { cluster_token: uuid_text(id), ..st },
                "[token] rotating cluster token to "@ + uuid_text(id).take(8) + "..."@, ActivityLevel::Warning));
        }
        r
    }

    fn cmd_purge(&mut self, target: String) -> (r: Vec<Effect>)
        ensures
            target@ == "all"@ ==> purge_all_done(old(self).state(), final(self).state(), effects_view(r@)),
            target@ != "all"@ ==> purge_one_done(old(self).state(), final(self).state(), target@, effects_view(r@)),
    {
        let ghost st = self.state();
        if str_eq(target.as_str(), "all") {
            let online = self.agents.online_agents();
            let mut r: Vec<Effect> = Vec::new();
            let mut lines: Vec<(String, ActivityLevel)> = Vec::new();
            let mut i: usize = 0;
            while i < online.len()
                invariant
                    self.state() == st,
                    i <= online@.len(),
                    r@.len() == i,
                    lines@.len() == i,
                    forall|k: int| 0 <= k < online@.len() ==> st.agents.contains_key(#[trigger] online@[k].0)
                        && st.agents[online@[k].0].status == NodeStatus::Online && online@[k].1@ == st.agents[online@[k].0].hostname,
                    forall|k: int| 0 <= k < i ==> effect_view(#[trigger] r@[k]) == (EffectView::SendPurge { node: online@[k].0, hostname: online@[k].1@ }),
                    forall|k: int| 0 <= k < i ==> (#[trigger] lines@[k]).0@ == "[purge] sending to "@ + online@[k].1@ && lines@[k].1 == ActivityLevel::Info,
                decreases online@.len() - i,
            {
                let (node, ref host) = online[i];
                r.push(Effect::SendPurge { node, hostname: owned(host.as_str()) });
                let mut m = owned("[purge] sending to ");
                push_str(&mut m, host.as_str());
                lines.push((m, ActivityLevel::Info));
                i = i + 1;
            }
            proof {
                let ev = effects_view(r@);
                assert forall|k: int| 0 <= k < ev.len() implies (#[trigger] ev[k] matches EffectView::SendPurge { node, hostname }
                    && st.agents.contains_key(node) && st.agents[node].status == NodeStatus::Online && hostname == st.agents[node].hostname) by {
                    assert(ev[k] == effect_view(r@[k]));
                }
                assert forall|id: u128| #[trigger] st.agents.contains_key(id) && st.agents[id].status == NodeStatus::Online
                    implies exists|k: int| 0 <= k < ev.len() && (#[trigger] ev[k] matches EffectView::SendPurge { node, .. } && node == id) by {
                    let k = choose|k: int| 0 <= k < online@.len() && #[trigger] online@[k].0 == id;
                    assert(ev[k] == effect_view(r@[k]));
                }
                assert forall|a: int, b: int| #![trigger ev[a], ev[b]] 0 <= a < ev.len() && 0 <= b < ev.len() && a != b implies
                    (ev[a] matches EffectView::SendPurge { node: na, .. } && ev[b] matches EffectView::SendPurge { node: nb, .. } && na != nb) by {
                    assert(ev[a] == effect_view(r@[a]));
                    assert(ev[b] == effect_view(r@[b]));
                }
                assert(lines@.map_values(|e: (String, ActivityLevel)| (e.0@, e.1)) =~= purge_lines(ev)) by {
                    assert forall|k: int| 0 <= k < ev.len() implies #[trigger] purge_lines(ev)[k]
                        == lines@.map_values(|e: (String, ActivityLevel)| (e.0@, e.1))[k] by {
                        assert(ev[k] == effect_view(r@[k]));
                    }
                }
            }
            if r.len() == 0 {
                self.activity.push(owned("No online agents to purge"), ActivityLevel::Warning);
            } else {
                self.log_lines(lines);
            }
            r
        } else {
            match self.agents.find_first_by_prefix(target.as_str()) {
                Some(id) => {
                    let host = match self.agents.get(id) {
                        Some(a) => owned(a.hostname.as_str()),
                        None => String::new(),
                    };
                    let mut m = owned("[purge] sending to ");
                    push_str(&mut m, host.as_str());
                    self.activity.push(m, ActivityLevel::Info);
                    let r = vec![Effect::SendPurge { node: id, hostname: host }];
                    assert(effects_view(r@) =~= seq![EffectView::SendPurge { node: id, hostname: st.agents[id].hostname }]);
                    r
                },
                None => {
                    let mut m = owned("[purge] no agent matching '");
                    push_str(&mut m, target.as_str());
                    push_str(&mut m, "'");
                    self.activity.push(m, ActivityLevel::Warning);
                    let r: Vec<Effect> = Vec::new();
                    assert(effects_view(r@) =~= Seq::<EffectView>::empty());
                    r
                },
            }
        }
    }
}


impl Coordinator {
    fn cmd_ascend(&mut self, url: Option<String>) -> (r: Vec<Effect>)
        ensures
            url matches Some(u) ==> effects_view(r@) == seq![EffectView::BroadcastUpdate(u@)]
                && final(self).state() == with_line(old(self).state(), "[ascend] broadcasting "@ + u@ + " to all agents..."@, ActivityLevel::Info),
            url is None ==> ascend_all_done(old(self).state(), final(self).state(), effects_view(r@)),
    {
        let ghost st = self.state();
        match url {
            Some(u) => {
                let mut m = owned("[ascend] broadcasting ");
                push_str(&mut m, u.as_str());
                push_str(&mut m, " to all agents...");
                self.activity.push(m, ActivityLevel::Info);
                let ghost uv = u@;
                let r = vec![Effect::BroadcastUpdate(u)];
                assert(effects_view(r@) =~= seq![EffectView::BroadcastUpdate(uv)]);
                r
            },
            None => self.ascend_all(),
        }
    }

    fn ascend_all(&mut self) -> (r: Vec<Effect>)
        ensures
            ascend_all_done(old(self).state(), final(self).state(), effects_view(r@)),
    {
        let ghost st = self.state();
        let online = self.agents.online_agents();
        let mut r: Vec<Effect> = Vec::new();
        let mut sent_lines: Vec<(String, ActivityLevel)> = Vec::new();
        let mut skipped_lines: Vec<(String, ActivityLevel)> = Vec::new();
        let ghost mut skipped: Seq<u128> = Seq::empty();
        let ghost mut sent_pos: Seq<int> = Seq::empty();
        let ghost mut skip_pos: Seq<int> = Seq::empty();
        let mut i: usize = 0;
        while i < online.len()
            invariant
                self.state() == st,
                i <= online@.len(),
                forall|k: int| 0 <= k < online@.len() ==> st.agents.contains_key(#[trigger] online@[k].0)
                    && st.agents[online@[k].0].status == NodeStatus::Online && online@[k].1@ == st.agents[online@[k].0].hostname,
                forall|a: int, b: int| 0 <= a < online@.len() && 0 <= b < online@.len() && a != b ==> online@[a].0 != online@[b].0,
                r@.len() == sent_pos.len(),
                sent_lines@.len() == sent_pos.len(),
                skipped.len() == skip_pos.len(),
                skipped_lines@.len() == skipped.len(),
                forall|k: int| 0 <= k < sent_pos.len() ==> 0 <= #[trigger] sent_pos[k] < i,
                forall|k: int| 0 <= k < skip_pos.len() ==> 0 <= #[trigger] skip_pos[k] < i,
                forall|a: int, b: int| 0 <= a < b < sent_pos.len() ==> sent_pos[a] < sent_pos[b],
                forall|a: int, b: int| 0 <= a < b < skip_pos.len() ==> skip_pos[a] < skip_pos[b],
                forall|k: int| 0 <= k < sent_pos.len() ==> {
                    let id = #[trigger] online@[sent_pos[k]].0;
                    &&& updatable(st, id)
                    &&& effect_view(r@[k]) == (EffectView::SendUpdate { node: id, hostname: st.agents[id].hostname,
                        label: agent_label(st, id), download_url: agent_url(st.github_repo, agent_label(st, id)) })
                    &&& sent_lines@[k].0@ == "[ascend] sending to "@ + st.agents[id].hostname + " ("@ + agent_label(st, id) + ")"@
                    &&& sent_lines@[k].1 == ActivityLevel::Info
                },
                forall|k: int| 0 <= k < skip_pos.len() ==> {
                    let id = #[trigger] online@[skip_pos[k]].0;
                    &&& skipped[k] == id
                    &&& spec_target_for_platform(st.agents[id].os, st.agents[id].arch) is None
                    &&& skipped_lines@[k].0@ == "[ascend] skipped "@ + st.agents[id].hostname + " (unknown platform)"@
                    &&& skipped_lines@[k].1 == ActivityLevel::Warning
                },
                forall|j: int| 0 <= j < i ==> (sent_pos.contains(j) || skip_pos.contains(j)),
            decreases online@.len() - i,
        {
            let (id, ref host) = online[i];
            let ghost sp0 = sent_pos;
            let ghost kp0 = skip_pos;
            match self.agents.get(id) {
                Some(a) => {
                    match target_for_platform(a.os, a.arch) {
                        Some(t) => {
                            let label = label_for_target(t);
                            let dl = github_agent_url(self.github_repo.as_str(), label.as_str());
                            let mut m = owned("[ascend] sending to ");
                            push_str(&mut m, host.as_str());
                            push_str(&mut m, " (");
                            push_str(&mut m, label.as_str());
                            push_str(&mut m, ")");
                            sent_lines.push((m, ActivityLevel::Info));
                            r.push(Effect::SendUpdate { node: id, hostname: owned(host.as_str()), label, download_url: dl });
                            proof {
                                sent_pos = sent_pos.push(i as int);
                            }
                        },
                        None => {
                            let mut m = owned("[ascend] skipped ");
                            push_str(&mut m, host.as_str());
                            push_str(&mut m, " (unknown platform)");
                            skipped_lines.push((m, ActivityLevel::Warning));
                            proof {
                                skipped = skipped.push(id);
                                skip_pos = skip_pos.push(i as int);
                            }
                        },
                    }
                },
                None => {},
            }
            proof {
                assert forall|j: int| 0 <= j < i + 1 implies (sent_pos.contains(j) || skip_pos.contains(j)) by {
                    if j < i {
                        if sp0.contains(j) {
                            let q = choose|q: int| 0 <= q < sp0.len() && sp0[q] == j;
                            assert(sent_pos[q] == j);
                        } else {
                            let q = choose|q: int| 0 <= q < kp0.len() && kp0[q] == j;
                            assert(skip_pos[q] == j);
                        }
                    } else {
                        if sent_pos.len() > sp0.len() {
                            assert(sent_pos[sent_pos.len() - 1] == j);
                        } else {
                            assert(skip_pos[skip_pos.len() - 1] == j);
                        }
                    }
                }
            }
            i = i + 1;
        }
        let nsent = r.len();
        let nskip = skipped_lines.len();
        let mut lines = sent_lines;
        if nsent == 0 && nskip == 0 {
            lines.push((owned("No online agents to update"), ActivityLevel::Warning));
        }
        let ghost before_lines = lines@;
        let mut sk = skipped_lines;
        let ghost skv = sk@;
        lines.append(&mut sk);
        proof {
            let ev = effects_view(r@);
            let hs = skipped.map_values(|id: u128| st.agents[id].hostname);
            let lv = lines@.map_values(|e: (String, ActivityLevel)| (e.0@, e.1));
            assert(ev.len() == sent_pos.len());
            assert forall|k: int| 0 <= k < ev.len() implies #[trigger] ev[k] == effect_view(r@[k]) by {}
            assert(lv =~= ascend_lines(ev, hs)) by {
                assert forall|k: int| 0 <= k < lv.len() implies #[trigger] lv[k] == ascend_lines(ev, hs)[k] by {
                    if k < sent_pos.len() {
                        let id = online@[sent_pos[k]].0;
                        assert(ev[k] == effect_view(r@[k]));
                        assert(lines@[k] == before_lines[k]);
                    } else if nsent == 0 && nskip == 0 && k == sent_pos.len() {
                    } else {
                        let w: int = if nsent == 0 && nskip == 0 { 1 } else { 0 };
                        let q = k - sent_pos.len() - w;
                        let id = online@[skip_pos[q]].0;
                        assert(lines@[k] == skv[q]);
                        assert(hs[q] == st.agents[skipped[q]].hostname);
                    }
                }
            }
            let ea = ev;
            assert forall|k: int| 0 <= k < ea.len() implies (#[trigger] ea[k] matches EffectView::SendUpdate { node, hostname, label, download_url }
                && updatable(st, node) && hostname == st.agents[node].hostname && label == agent_label(st, node)
                && download_url == agent_url(st.github_repo, label)) by {
                let id = online@[sent_pos[k]].0;
                assert(ea[k] == effect_view(r@[k]));
            }
            assert forall|id: u128| #[trigger] updatable(st, id) implies exists|k: int| 0 <= k < ea.len()
                && (#[trigger] ea[k] matches EffectView::SendUpdate { node, .. } && node == id) by {
                let j = choose|j: int| 0 <= j < online@.len() && #[trigger] online@[j].0 == id;
                if sent_pos.contains(j) {
                    let q = choose|q: int| 0 <= q < sent_pos.len() && sent_pos[q] == j;
                    assert(ea[q] == effect_view(r@[q]));
                } else {
                    let q = choose|q: int| 0 <= q < skip_pos.len() && skip_pos[q] == j;
                    assert(online@[skip_pos[q]].0 == id);
                }
            }
            assert forall|a: int, b: int| #![trigger ea[a], ea[b]] 0 <= a < ea.len() && 0 <= b < ea.len() && a != b implies
                (ea[a] matches EffectView::SendUpdate { node: na, .. } && ea[b] matches EffectView::SendUpdate { node: nb, .. } && na != nb) by {
                let ia = online@[sent_pos[a]].0;
                let ib = online@[sent_pos[b]].0;
                assert(ea[a] == effect_view(r@[a]));
                assert(ea[b] == effect_view(r@[b]));
                assert(sent_pos[a] != sent_pos[b]) by {
                    if a < b {
                        assert(sent_pos[a] < sent_pos[b]);
                    } else {
                        assert(sent_pos[b] < sent_pos[a]);
                    }
                }
            }
            assert(skipped.no_duplicates()) by {
                assert forall|a: int, b: int| 0 <= a < skipped.len() && 0 <= b < skipped.len() && a != b implies skipped[a] != skipped[b] by {
                    assert(online@[skip_pos[a]].0 == skipped[a]);
                    assert(online@[skip_pos[b]].0 == skipped[b]);
                    assert(skip_pos[a] != skip_pos[b]) by {
                        if a < b {
                            assert(skip_pos[a] < skip_pos[b]);
                        } else {
                            assert(skip_pos[b] < skip_pos[a]);
                        }
                    }
                }
            }
            assert forall|id: u128| #[trigger] skipped.contains(id) <==> st.agents.contains_key(id)
                && st.agents[id].status == NodeStatus::Online
                && spec_target_for_platform(st.agents[id].os, st.agents[id].arch) is None by {
                if skipped.contains(id) {
                    let q = choose|q: int| 0 <= q < skipped.len() && skipped[q] == id;
                    assert(online@[skip_pos[q]].0 == id);
                }
                if st.agents.contains_key(id) && st.agents[id].status == NodeStatus::Online
                    && spec_target_for_platform(st.agents[id].os, st.agents[id].arch) is None {
                    let j = choose|j: int| 0 <= j < online@.len() && #[trigger] online@[j].0 == id;
                    if sent_pos.contains(j) {
                        let q = choose|q: int| 0 <= q < sent_pos.len() && sent_pos[q] == j;
                        assert(online@[sent_pos[q]].0 == id);
                    } else {
                        let q = choose|q: int| 0 <= q < skip_pos.len() && skip_pos[q] == j;
                        assert(skipped[q] == id);
                    }
                }
            }
        }
        self.log_lines(lines);
        r
    }
}


/// The commands whose text can be executed: a plugin's configuration must
/// allow its activity line's cut.
pub open spec fn executable_command(cmd: CommandView) -> bool {
    cmd matches CommandView::Plugin { config, .. } ==> preview_cut_ok(config)
}

impl Coordinator {
    /// Executes a command from the command bar: changes the client state and
    /// returns the outside work it asks for. `detected_subnet` is the local
    /// subnet the client found, used by `pulse` when neither the command nor
    /// the configuration names one.
    pub fn execute_command(&mut self, cmd: Command, detected_subnet: Option<String>) -> (r: Vec<Effect>)
        requires
            executable_command(cmd@),
        ensures
            spec_dispatch(cmd@) matches Some(d) ==> effects_view(r@) == seq![EffectView::Dispatch(d)]
                && final(self).state() == (match cmd@ {
                    CommandView::Plugin { name, config } => with_line(old(self).state(),
                        "[plugin] '"@ + name + "' dispatched with config: "@ + plugin_preview(config), ActivityLevel::Info),
                    _ => old(self).state(),
                }),
            cmd@ is Quit ==> r@.len() == 0 && final(self).state() == (CoordinatorView { should_quit: true, ..old(self).state() }),
            cmd@ matches CommandView::Info { node_id, prefix } ==> r@.len() == 0
                && info_done(old(self).state(), final(self).state(), node_id, prefix),
            cmd@ matches CommandView::Unknown(u) ==> r@.len() == 0
                && final(self).state() == with_line(old(self).state(), "Unknown command: "@ + u, ActivityLevel::Warning),
            cmd@ matches CommandView::Pulse { subnet } ==> {
                let sn = pulse_subnet(subnet, old(self).scan_subnet@, opt_view(detected_subnet));
                &&& effects_view(r@) == seq![EffectView::StartScan(sn)]
                &&& final(self).state() == with_line(old(self).state(), "[pulse] scanning "@ + sn + "..."@, ActivityLevel::Info)
            },
            cmd@ matches CommandView::Seed { target, user, pass } ==> effects_view(r@)
                == seq![EffectView::Deploy { target, user, pass }] && final(self).state() == old(self).state(),
            cmd@ is Bless ==> bless_done(old(self).state(), final(self).state(), effects_view(r@)),
            cmd@ matches CommandView::Cancel { task_id } ==> cancel_done(old(self).state(), final(self).state(), task_id, effects_view(r@)),
            cmd@ matches CommandView::Ascend { url } ==> (url matches Some(u) ==> effects_view(r@) == seq![EffectView::BroadcastUpdate(u)]
                && final(self).state() == with_line(old(self).state(), "[ascend] broadcasting "@ + u + " to all agents..."@, ActivityLevel::Info)),
            cmd@ matches CommandView::Ascend { url } ==> (url is None ==> ascend_all_done(old(self).state(), final(self).state(), effects_view(r@))),
            cmd@ matches CommandView::Purge { target } ==> (target == "all"@ ==> purge_all_done(old(self).state(), final(self).state(), effects_view(r@))),
            cmd@ matches CommandView::Purge { target } ==> (target != "all"@ ==> purge_one_done(old(self).state(), final(self).state(), target, effects_view(r@))),
    {
        let ghost st = self.state();
        let ghost cv = cmd@;
        match cmd {
            Command::Info { node_id, prefix } => {
                self.cmd_info(node_id, prefix);
                Vec::new()
            },
            Command::Quit => {
                self.should_quit = true;
                Vec::new()
            },
            Command::Train(a) => {
                let req = DispatchRequest::Train {
                    dataset: a.dataset,
                    epochs: match a.epochs { Some(v) => v, None => 3 },
                    lr: a.lr,
                    batch_size: match a.batch_size { Some(v) => v, None => 32 },
                    output: or_string(a.output, "output"),
                    quota: quota_of(a.max_ram_mb, a.max_cpu_pct),
                };
                let r = vec![Effect::Dispatch(req)];
                assert(effects_view(r@) =~= seq![EffectView::Dispatch(spec_dispatch(cv).unwrap())]);
                r
            },
            Command::Finetune(a) => {
                let req = DispatchRequest::Finetune {
                    base_model: a.base_model,
                    dataset: a.dataset,
                    epochs: match a.epochs { Some(v) => v, None => 3 },
                    lr: a.lr,
                    batch_size: match a.batch_size { Some(v) => v, None => 16 },
                    output: or_string(a.output, "output"),
                    adapter: or_string(a.adapter, "lora"),
                    quota: quota_of(a.max_ram_mb, a.max_cpu_pct),
                };
                let r = vec![Effect::Dispatch(req)];
                assert(effects_view(r@) =~= seq![EffectView::Dispatch(spec_dispatch(cv).unwrap())]);
                r
            },
            Command::Infer(a) => {
                let req = DispatchRequest::Infer {
                    prompt: a.prompt,
                    max_tokens: match a.max_tokens { Some(v) => v, None => 256 },
                    temperature: a.temperature,
                };
                let r = vec![Effect::Dispatch(req)];
                assert(effects_view(r@) =~= seq![EffectView::Dispatch(spec_dispatch(cv).unwrap())]);
                r
            },
            Command::Preprocess(a) => {
                let req = DispatchRequest::Preprocess {
                    input: a.input,
                    output: or_string(a.output, "output"),
                    format: or_string(a.format, "tokenize"),
                };
                let r = vec![Effect::Dispatch(req)];
                assert(effects_view(r@) =~= seq![EffectView::Dispatch(spec_dispatch(cv).unwrap())]);
                r
            },
            Command::Evaluate(a) => {
                let req = DispatchRequest::Evaluate { model: a.model, dataset: a.dataset, metrics: a.metrics, output: a.output };
                let r = vec![Effect::Dispatch(req)];
                assert(effects_view(r@) =~= seq![EffectView::Dispatch(spec_dispatch(cv).unwrap())]);
                r
            },
            Command::Rag(a) => {
                let req = DispatchRequest::Rag {
                    query: a.query,
                    index: a.index,
                    model: a.model,
                    top_k: match a.top_k { Some(v) => v, None => 5 },
                };
                let r = vec![Effect::Dispatch(req)];
                assert(effects_view(r@) =~= seq![EffectView::Dispatch(spec_dispatch(cv).unwrap())]);
                r
            },
            Command::Embed(a) => {
                let req = DispatchRequest::Embed {
                    input: a.input,
                    model: a.model,
                    index: a.index,
                    operation: or_string(a.operation, "encode"),
                };
                let r = vec![Effect::Dispatch(req)];
                assert(effects_view(r@) =~= seq![EffectView::Dispatch(spec_dispatch(cv).unwrap())]);
                r
            },
            Command::Cancel { task_id } => self.cmd_cancel(task_id),
            Command::Pulse { subnet } => {
                let sn = match subnet {
                    Some(x) => x,
                    None => {
                        if self.scan_subnet.as_str().unicode_len() > 0 {
                            owned(self.scan_subnet.as_str())
                        } else {
                            match detected_subnet {
                                Some(d) => d,
                                None => owned("192.168.1.0/24"),
                            }
                        }
                    },
                };
                let mut m = owned("[pulse] scanning ");
                push_str(&mut m, sn.as_str());
                push_str(&mut m, "...");
                self.activity.push(m, ActivityLevel::Info);
                let ghost snv = sn@;
                let r = vec![Effect::StartScan(sn)];
                assert(effects_view(r@) =~= seq![EffectView::StartScan(snv)]);
                r
            },
            Command::Seed { target, user, pass } => {
                let r = vec![Effect::Deploy { target, user, pass }];
                assert(effects_view(r@) =~= seq![effect_view(r@[0])]);
                r
            },
            Command::Bless => self.cmd_bless(),
            Command::Ascend { url } => self.cmd_ascend(url),
            Command::Purge { target } => self.cmd_purge(target),
            Command::Plugin { name, config } => {
                let preview = preview_of(config.as_str());
                let mut m = owned("[plugin] '");
                push_str(&mut m, name.as_str());
                push_str(&mut m, "' dispatched with config: ");
                push_str(&mut m, preview.as_str());
                let req = DispatchRequest::Plugin { name, config };
                let r = vec![Effect::Dispatch(req)];
                self.activity.push(m, ActivityLevel::Info);
                assert(effects_view(r@) =~= seq![EffectView::Dispatch(spec_dispatch(cv).unwrap())]);
                r
            },
            Command::Unknown(u) => {
                let mut m = owned("Unknown command: ");
                push_str(&mut m, u.as_str());
                self.activity.push(m, ActivityLevel::Warning);
                Vec::new()
            },
        }
    }
}

} // verus!
