//! How the coordinating client's state follows what agents report: joins,
//! departures, results, progress, errors and state syncs.
use vstd::prelude::*;
use crate::text::{owned, push_str, opt_view, str_eq};
use crate::discovery::{DiscoveredNode, format_device, device_line};
use crate::types::{OsKind, ArchKind, NodeStatus, TaskStatus, TaskType, task_type_name};
use crate::agents::{AgentView, connected_view, short_id, short_of, checked_status, newly_offline, prunable, online_ids,
    OVERLOADED_TASKS};
use crate::task_manager::{TaskManagerView, TaskOutcome, OutcomeView, TaskRecord, TaskRecordView, spec_requeue, spec_complete,
    is_active_status,
    spec_update_progress, spec_assign, spec_cancel, spec_revert_to_pending, fresh_entry, active_on, seq_no_dups, ready};
use crate::coordinator::{Coordinator, CoordinatorView, ActivityLevel, InfoView, with_line};
use crate::views::{keep_last, MAX_LOG_LINES};
use crate::health::HealthSnapshot;
use crate::numparse::{decimal_string, decimal_text};

verus! {

/// Outside work that follows an agent's report.
pub enum FollowUp {
    /// Send a reconnected agent the tasks it is assigned.
    SyncState { node: u128, tasks: Vec<u128> },
    /// A task went back to pending: load its latest checkpoint, if any, and
    /// inject it.
    LoadCheckpoint(u128),
    /// Tell an agent to stop a task that was taken from it.
    CancelOn { node: u128, task: u128 },
}

pub enum FollowUpView {
    SyncState { node: u128, tasks: Seq<u128> },
    LoadCheckpoint(u128),
    CancelOn { node: u128, task: u128 },
}

pub open spec fn follow_up_view(f: FollowUp) -> FollowUpView {
    match f {
        FollowUp::SyncState { node, tasks } => FollowUpView::SyncState { node, tasks: tasks@ },
        FollowUp::LoadCheckpoint(t) => FollowUpView::LoadCheckpoint(t),
        FollowUp::CancelOn { node, task } => FollowUpView::CancelOn { node, task },
    }
}

pub open spec fn follow_ups_view(s: Seq<FollowUp>) -> Seq<FollowUpView> {
    s.map_values(|f: FollowUp| follow_up_view(f))
}

/// The info views after a line is added to a node's log, if its view is open.
pub open spec fn info_appended(info: Map<u128, InfoView>, id: u128, line: Seq<char>) -> Map<u128, InfoView> {
    if info.contains_key(id) {
        info.insert(id, (keep_last(info[id].0.push(line), MAX_LOG_LINES as nat), info[id].1))
    } else {
        info
    }
}

/// The info views after a line is added to a node's log and the node is
/// shown disconnected, if its view is open.
pub open spec fn info_closed(info: Map<u128, InfoView>, id: u128, line: Seq<char>) -> Map<u128, InfoView> {
    if info.contains_key(id) {
        info.insert(id, (keep_last(info[id].0.push(line), MAX_LOG_LINES as nat), false))
    } else {
        info
    }
}

/// An agent's hostname, or the given text for an unknown agent.
pub open spec fn host_or(c: CoordinatorView, id: u128, d: Seq<char>) -> Seq<char> {
    if c.agents.contains_key(id) { c.agents[id].hostname } else { d }
}

/// `order` lists, once each, the tasks that are assigned to or running on `node`.
pub open spec fn orphan_order(m: TaskManagerView, node: u128, order: Seq<u128>) -> bool {
    &&& seq_no_dups(order)
    &&& forall|t: u128| order.contains(t) <==> (m.tasks.contains_key(t) && active_on(m.tasks[t], node))
}

/// A re-queue that reports a task out of retries, leaving it as it is, once
/// its retry count has reached `u32::MAX` and cannot count one more.
pub open spec fn requeue_limited(m: TaskManagerView, id: u128) -> (TaskManagerView, bool) {
    if m.tasks.contains_key(id) && m.tasks[id].retry_count == u32::MAX {
        (m, false)
    } else {
        spec_requeue(m, id)
    }
}

pub open spec fn requeued_line(node: u128, t: u128) -> Seq<char> {
    short_of(node) + " task "@ + short_of(t) + " re-queued"@
}

pub open spec fn exhausted_line(node: u128, t: u128) -> Seq<char> {
    short_of(node) + " task "@ + short_of(t) + " max retries exceeded"@
}

/// The tasks of `order` re-queued one after the other, each one put back to
/// pending asking for its checkpoint; with `report`, each outcome is logged.
pub open spec fn requeue_all(c: CoordinatorView, node: u128, order: Seq<u128>, report: bool) -> (CoordinatorView, Seq<FollowUpView>)
    decreases order.len(),
{
    if order.len() == 0 {
        (c, Seq::empty())
    } else {
        let prev = requeue_all(c, node, order.drop_last(), report);
        let t = order.last();
        let (m, ok) = requeue_limited(prev.0.tasks, t);
        let c2 = CoordinatorView { tasks: m, ..prev.0 };
        let c3 = if !report {
            c2
        } else if ok {
            with_line(c2, requeued_line(node, t), ActivityLevel::Warning)
        } else {
            with_line(c2, exhausted_line(node, t), ActivityLevel::Error)
        };
        (c3, if ok { prev.1.push(FollowUpView::LoadCheckpoint(t)) } else { prev.1 })
    }
}

/// The agent table with an agent marked offline, if it is known.
pub open spec fn marked_offline(agents: Map<u128, AgentView>, id: u128) -> Map<u128, AgentView> {
    if agents.contains_key(id) {
        agents.insert(id, AgentView { status: NodeStatus::Offline, ..agents[id] })
    } else {
        agents
    }
}

/// The name a departing agent is logged under: its hostname, or the short
/// form of its id when it has none.
pub open spec fn display_name(c: CoordinatorView, id: u128) -> Seq<char> {
    let h = host_or(c, id, Seq::empty());
    if h.len() == 0 { short_of(id) } else { h }
}

/// An agent left: it is logged and marked offline, its tasks (in `order`)
/// are re-queued and reported, and its info view shows the departure.
pub open spec fn disconnect_done(old: CoordinatorView, new: CoordinatorView, id: u128, order: Seq<u128>, fu: Seq<FollowUpView>) -> bool {
    let s1 = with_line(
        CoordinatorView { agents: marked_offline(old.agents, id), ..old },
        short_of(id) + " "@ + display_name(old, id) + " disconnected"@,
        ActivityLevel::Warning,
    );
    let (s2, f) = requeue_all(s1, id, order, true);
    &&& fu == f
    &&& new == (CoordinatorView { info: info_closed(s2.info, id, "[disconnected]"@), ..s2 })
}

impl Coordinator {
    fn requeue_one(&mut self, t: u128) -> (ok: bool)
        ensures
            ({
                let (m, b) = requeue_limited(old(self).state().tasks, t);
                final(self).state() == (CoordinatorView { tasks: m, ..old(self).state() }) && ok == b
            }),
    {
        match self.tasks.retry_count_of(t) {
            Some(c) => {
                if c == u32::MAX {
                    false
                } else {
                    self.tasks.requeue(t)
                }
            },
            None => self.tasks.requeue(t),
        }
    }

    /// Re-queues the tasks of `order` in turn; with `report`, logs each outcome.
    fn requeue_each(&mut self, node: u128, order: &Vec<u128>, report: bool) -> (r: Vec<FollowUp>)
        ensures
            (final(self).state(), follow_ups_view(r@)) == requeue_all(old(self).state(), node, order@, report),
    {
        let ghost st0 = self.state();
        let mut r: Vec<FollowUp> = Vec::new();
        let mut i: usize = 0;
        while i < order.len()
            invariant
                i <= order@.len(),
                (self.state(), follow_ups_view(r@)) == requeue_all(st0, node, order@.take(i as int), report),
            decreases order@.len() - i,
        {
            let t = order[i];
            proof {
                assert(order@.take(i + 1).drop_last() =~= order@.take(i as int));
                assert(order@.take(i + 1).last() == t);
            }
            let ghost fu0 = follow_ups_view(r@);
            let ok = self.requeue_one(t);
            if report {
                let sn = short_id(node);
                let st = short_id(t);
                let mut m = sn;
                push_str(&mut m, " task ");
                push_str(&mut m, st.as_str());
                if ok {
                    push_str(&mut m, " re-queued");
                    self.activity.push(m, ActivityLevel::Warning);
                } else {
                    push_str(&mut m, " max retries exceeded");
                    self.activity.push(m, ActivityLevel::Error);
                }
            }
            if ok {
                r.push(FollowUp::LoadCheckpoint(t));
                proof {
                    assert(follow_ups_view(r@) =~= fu0.push(FollowUpView::LoadCheckpoint(t)));
                }
            }
            i = i + 1;
        }
        proof {
            assert(order@.take(order@.len() as int) =~= order@);
        }
        r
    }

    /// An agent disconnected: it is logged under its hostname (or short id)
    /// and marked offline, every task assigned to or running on it is
    /// re-queued (or reported out of retries), and its info view, if open,
    /// shows `[disconnected]` and stops being live.
    pub fn agent_disconnected(&mut self, id: u128) -> (r: Vec<FollowUp>)
        ensures
            exists|order: Seq<u128>| #[trigger] orphan_order(old(self).state().tasks, id, order)
                && disconnect_done(old(self).state(), final(self).state(), id, order, follow_ups_view(r@)),
    {
        let ghost st0 = self.state();
        let hostname = match self.agents.get(id) {
            Some(a) => owned(a.hostname.as_str()),
            None => String::new(),
        };
        let display = if hostname.as_str().unicode_len() == 0 { short_id(id) } else { hostname };
        let mut m = short_id(id);
        push_str(&mut m, " ");
        push_str(&mut m, display.as_str());
        push_str(&mut m, " disconnected");
        self.activity.push(m, ActivityLevel::Warning);
        self.agents.mark_offline(id);
        let ghost st1 = self.state();
        let orphaned = self.tasks.tasks_assigned_to(id);
        let r = self.requeue_each(id, &orphaned, true);
        self.info_views.append_and_deactivate(id, owned("[disconnected]"));
        proof {
            assert(orphan_order(st0.tasks, id, orphaned@));
        }
        r
    }
}


/// An agent joined: logged with its hostname, registered online (an earlier
/// record of it replaced, its heartbeat count kept), and its info view, if
/// open, shows the join.
pub open spec fn connect_done(old: CoordinatorView, new: CoordinatorView, id: u128, hostname: Seq<char>, os: OsKind, arch: ArchKind, now_ms: u64) -> bool {
    let counter = if old.agents.contains_key(id) { old.agents[id].heartbeat_counter } else { 0 };
    let s1 = with_line(old, short_of(id) + " "@ + hostname + " connected"@, ActivityLevel::Success);
    new == (CoordinatorView {
        agents: old.agents.insert(id, connected_view(hostname, os, arch, now_ms, counter)),
        info: info_appended(old.info, id, "[connected] "@ + hostname),
        ..s1
    })
}

/// The word a result is reported with.
pub open spec fn outcome_word(success: bool) -> Seq<char> {
    if success { "completed"@ } else { "failed"@ }
}

/// The agent table after one task of an agent finished.
pub open spec fn one_task_done(agents: Map<u128, AgentView>, id: u128) -> Map<u128, AgentView> {
    if agents.contains_key(id) {
        agents.insert(id, AgentView {
            active_task_count: if agents[id].active_task_count > 0 { (agents[id].active_task_count - 1) as u32 } else { 0 },
            ..agents[id]
        })
    } else {
        agents
    }
}

/// A result arrived from an agent: logged with the host and duration, the
/// task completed (once), the agent's task count lowered, and its info view
/// told.
pub open spec fn result_done(old: CoordinatorView, new: CoordinatorView, id: u128, r: OutcomeView) -> bool {
    let s1 = with_line(
        old,
        short_of(id) + " task "@ + outcome_word(r.success) + " on "@ + host_or(old, id, "?"@) + " ("@
            + decimal_text(r.duration_ms as nat) + "ms)"@,
        if r.success { ActivityLevel::Success } else { ActivityLevel::Error },
    );
    new == (CoordinatorView {
        tasks: spec_complete(old.tasks, r.task_id, r),
        agents: one_task_done(old.agents, id),
        info: info_appended(old.info, id, "[task "@ + short_of(r.task_id) + "] "@ + outcome_word(r.success)),
        ..s1
    })
}

/// Results an agent kept while it was away, completed in order and logged
/// one by one.
pub open spec fn buffered_all(c: CoordinatorView, host: Seq<char>, rs: Seq<OutcomeView>) -> CoordinatorView
    decreases rs.len(),
{
    if rs.len() == 0 {
        c
    } else {
        let prev = buffered_all(c, host, rs.drop_last());
        let r = rs.last();
        with_line(
            CoordinatorView { tasks: spec_complete(prev.tasks, r.task_id, r), ..prev },
            short_of(r.task_id) + " buffered "@ + outcome_word(r.success) + " from "@ + host,
            ActivityLevel::Info,
        )
    }
}

proof fn lemma_buffered_keeps_agents(c: CoordinatorView, host: Seq<char>, rs: Seq<OutcomeView>)
    ensures
        buffered_all(c, host, rs).agents == c.agents,
    decreases rs.len(),
{
    if rs.len() > 0 {
        lemma_buffered_keeps_agents(c, host, rs.drop_last());
    }
}

/// The agent table after all tasks of an agent were accounted for.
pub open spec fn tasks_cleared(agents: Map<u128, AgentView>, id: u128) -> Map<u128, AgentView> {
    if agents.contains_key(id) {
        agents.insert(id, AgentView { active_task_count: 0, ..agents[id] })
    } else {
        agents
    }
}

/// The result a state sync records for a task the agent finished.
pub open spec fn synced_outcome(id: u128, t: u128) -> OutcomeView {
    OutcomeView { task_id: t, node_id: id, success: true, duration_ms: 0, error: None }
}

/// Tasks an agent reports finished, each completed as a success.
pub open spec fn complete_all(m: TaskManagerView, id: u128, ts: Seq<u128>) -> TaskManagerView
    decreases ts.len(),
{
    if ts.len() == 0 {
        m
    } else {
        let prev = complete_all(m, id, ts.drop_last());
        spec_complete(prev, ts.last(), synced_outcome(id, ts.last()))
    }
}

/// A state sync answered: tasks the agent does not know are re-queued, those
/// it finished are completed, and the counts are logged.
pub open spec fn sync_done(old: CoordinatorView, new: CoordinatorView, id: u128, running: nat, completed: Seq<u128>,
    unknown: Seq<u128>, fu: Seq<FollowUpView>) -> bool
{
    let (s1, f) = requeue_all(old, id, unknown, false);
    let s2 = CoordinatorView { tasks: complete_all(s1.tasks, id, completed), ..s1 };
    &&& fu == f
    &&& new == with_line(s2, "sync "@ + short_of(id) + ": "@ + decimal_text(running) + "run "@
            + decimal_text(completed.len()) + "done "@ + decimal_text(unknown.len()) + "orphan"@, ActivityLevel::Info)
}

impl Coordinator {
    /// An agent connected: see `connect_done`. When tasks are assigned to or
    /// running on it, it is sent them (`SyncState`), once each.
    pub fn agent_connected(&mut self, id: u128, hostname: String, os: OsKind, arch: ArchKind, now_ms: u64) -> (r: Option<FollowUp>)
        ensures
            connect_done(old(self).state(), final(self).state(), id, hostname@, os, arch, now_ms),
            match r {
                Some(f) => f matches FollowUp::SyncState { node, tasks } && node == id && tasks@.len() > 0
                    && orphan_order(old(self).state().tasks, id, tasks@),
                None => forall|t: u128| #[trigger] old(self).state().tasks.tasks.contains_key(t)
                    ==> !active_on(old(self).state().tasks.tasks[t], id),
            },
    {
        let ghost st0 = self.state();
        let mut m = short_id(id);
        push_str(&mut m, " ");
        push_str(&mut m, hostname.as_str());
        push_str(&mut m, " connected");
        self.activity.push(m, ActivityLevel::Success);
        let mut line = owned("[connected] ");
        push_str(&mut line, hostname.as_str());
        self.agents.connect(id, hostname, os, arch, now_ms);
        self.info_views.append(id, line);
        let assigned = self.tasks.tasks_assigned_to(id);
        if assigned.len() > 0 {
            Some(FollowUp::SyncState { node: id, tasks: assigned })
        } else {
            proof {
                assert forall|t: u128| #[trigger] st0.tasks.tasks.contains_key(t) implies !active_on(st0.tasks.tasks[t], id) by {
                    if active_on(st0.tasks.tasks[t], id) {
                        assert(assigned@.contains(t));
                    }
                }
            }
            None
        }
    }

    /// A task result arrived from an agent: see `result_done`.
    pub fn task_result(&mut self, id: u128, result: TaskOutcome)
        ensures
            result_done(old(self).state(), final(self).state(), id, result@),
    {
        let host = match self.agents.get(id) {
            Some(a) => owned(a.hostname.as_str()),
            None => owned("?"),
        };
        let word = if result.success { "completed" } else { "failed" };
        let mut m = short_id(id);
        push_str(&mut m, " task ");
        push_str(&mut m, word);
        push_str(&mut m, " on ");
        push_str(&mut m, host.as_str());
        push_str(&mut m, " (");
        let ms = decimal_string(result.duration_ms);
        push_str(&mut m, ms.as_str());
        push_str(&mut m, "ms)");
        let level = if result.success { ActivityLevel::Success } else { ActivityLevel::Error };
        self.activity.push(m, level);
        let tid = result.task_id;
        let mut line = owned("[task ");
        let ts = short_id(tid);
        push_str(&mut line, ts.as_str());
        push_str(&mut line, "] ");
        push_str(&mut line, word);
        self.tasks.complete(tid, result);
        self.agents.task_finished(id);
        self.info_views.append(id, line);
    }

    /// Progress of a task on an agent: the task is running with the given
    /// progress (the bits of an `f32` percentage); `pct_text` is that
    /// percentage as shown, without decimals.
    pub fn task_progress(&mut self, id: u128, task_id: u128, progress_bits: u32, pct_text: String)
        ensures
            final(self).state() == with_line(
                CoordinatorView { tasks: spec_update_progress(old(self).state().tasks, task_id, progress_bits, None), ..old(self).state() },
                short_of(id) + " task "@ + pct_text@ + "% on "@ + host_or(old(self).state(), id, "?"@),
                ActivityLevel::Info,
            ),
    {
        self.tasks.update_progress(task_id, progress_bits, None);
        let host = match self.agents.get(id) {
            Some(a) => owned(a.hostname.as_str()),
            None => owned("?"),
        };
        let mut m = short_id(id);
        push_str(&mut m, " task ");
        push_str(&mut m, pct_text.as_str());
        push_str(&mut m, "% on ");
        push_str(&mut m, host.as_str());
        self.activity.push(m, ActivityLevel::Info);
    }

    /// An agent reported an error: logged, and told to its info view.
    pub fn agent_error(&mut self, id: u128, message: String)
        ensures
            final(self).state() == (CoordinatorView {
                info: info_appended(old(self).state().info, id, "[error] "@ + message@),
                ..with_line(old(self).state(), short_of(id) + " error: "@ + message@, ActivityLevel::Error)
            }),
    {
        let mut m = short_id(id);
        push_str(&mut m, " error: ");
        push_str(&mut m, message.as_str());
        self.activity.push(m, ActivityLevel::Error);
        let mut line = owned("[error] ");
        push_str(&mut line, message.as_str());
        self.info_views.append(id, line);
    }

    /// Results an agent buffered while disconnected: each completed and
    /// logged in order, then the agent counted as idle.
    pub fn buffered_results(&mut self, id: u128, results: Vec<TaskOutcome>)
        ensures
            final(self).state() == (CoordinatorView {
                agents: tasks_cleared(old(self).state().agents, id),
                ..buffered_all(old(self).state(), host_or(old(self).state(), id, "?"@), results@.map_values(|r: TaskOutcome| r@))
            }),
    {
        let ghost st0 = self.state();
        let ghost rv = results@.map_values(|r: TaskOutcome| r@);
        let host = match self.agents.get(id) {
            Some(a) => owned(a.hostname.as_str()),
            None => owned("?"),
        };
        let ghost hv = host@;
        let n = results.len();
        let mut rest = results;
        let mut rev: Vec<TaskOutcome> = Vec::new();
        while rest.len() > 0
            invariant
                rest@.len() + rev@.len() == rv.len(),
                forall|k: int| 0 <= k < rest@.len() ==> (#[trigger] rest@[k])@ == rv[k],
                forall|k: int| 0 <= k < rev@.len() ==> (#[trigger] rev@[k])@ == rv[rv.len() - 1 - k],
            decreases rest@.len(),
        {
            let x = rest.pop().unwrap();
            rev.push(x);
        }
        let mut done: usize = 0;
        while rev.len() > 0
            invariant
                rev@.len() + done == rv.len(),
                rv.len() == n,
                host@ == hv,
                forall|k: int| 0 <= k < rev@.len() ==> (#[trigger] rev@[k])@ == rv[rv.len() - 1 - k],
                self.state() == buffered_all(st0, hv, rv.take(done as int)),
            decreases rev@.len(),
        {
            let r = rev.pop().unwrap();
            proof {
                assert(rv.take(done + 1).drop_last() =~= rv.take(done as int));
                assert(rv.take(done + 1).last() == r@);
            }
            let tid = r.task_id;
            let word = if r.success { "completed" } else { "failed" };
            self.tasks.complete(tid, r);
            let mut m = short_id(tid);
            push_str(&mut m, " buffered ");
            push_str(&mut m, word);
            push_str(&mut m, " from ");
            push_str(&mut m, host.as_str());
            self.activity.push(m, ActivityLevel::Info);
            done = done + 1;
        }
        proof {
            assert(rv.take(rv.len() as int) =~= rv);
            assert(hv == host_or(st0, id, "?"@));
            lemma_buffered_keeps_agents(st0, hv, rv);
        }
        self.agents.clear_tasks(id);
    }

    /// A checkpoint of a task was stored.
    pub fn checkpoint_saved(&mut self, task_id: u128, epoch: u32, step: u64)
        ensures
            final(self).state() == with_line(old(self).state(),
                short_of(task_id) + " checkpoint e"@ + decimal_text(epoch as nat) + "s"@ + decimal_text(step as nat), ActivityLevel::Info),
    {
        let mut m = short_id(task_id);
        push_str(&mut m, " checkpoint e");
        let e = decimal_string(epoch as u64);
        push_str(&mut m, e.as_str());
        push_str(&mut m, "s");
        let s = decimal_string(step);
        push_str(&mut m, s.as_str());
        self.activity.push(m, ActivityLevel::Info);
    }

    fn complete_each(&mut self, id: u128, ts: &Vec<u128>)
        ensures
            final(self).state() == (CoordinatorView { tasks: complete_all(old(self).state().tasks, id, ts@), ..old(self).state() }),
    {
        let ghost st0 = self.state();
        let mut i: usize = 0;
        while i < ts.len()
            invariant
                i <= ts@.len(),
                self.state() == (CoordinatorView { tasks: complete_all(st0.tasks, id, ts@.take(i as int)), ..st0 }),
            decreases ts@.len() - i,
        {
            let t = ts[i];
            proof {
                assert(ts@.take(i + 1).drop_last() =~= ts@.take(i as int));
                assert(ts@.take(i + 1).last() == t);
            }
            self.tasks.complete(t, TaskOutcome { task_id: t, node_id: id, success: true, duration_ms: 0, error: None });
            i = i + 1;
        }
        proof {
            assert(ts@.take(ts@.len() as int) =~= ts@);
        }
    }

    /// An agent answered a state sync with the tasks it runs, has finished
    /// and does not know: see `sync_done`.
    pub fn state_sync_response(&mut self, id: u128, running: usize, completed: Vec<u128>, unknown: Vec<u128>) -> (r: Vec<FollowUp>)
        ensures
            sync_done(old(self).state(), final(self).state(), id, running as nat, completed@, unknown@, follow_ups_view(r@)),
    {
        let r = self.requeue_each(id, &unknown, false);
        self.complete_each(id, &completed);
        let mut m = owned("sync ");
        let s = short_id(id);
        push_str(&mut m, s.as_str());
        push_str(&mut m, ": ");
        let a = decimal_string(running as u64);
        push_str(&mut m, a.as_str());
        push_str(&mut m, "run ");
        let b = decimal_string(completed.len() as u64);
        push_str(&mut m, b.as_str());
        push_str(&mut m, "done ");
        let c = decimal_string(unknown.len() as u64);
        push_str(&mut m, c.as_str());
        push_str(&mut m, "orphan");
        self.activity.push(m, ActivityLevel::Info);
        r
    }
}


// ---------------------------------------------------------------------------
// The periodic checks
// ---------------------------------------------------------------------------

/// The agent table after a liveness check at `now_ms`.
pub open spec fn liveness_checked(agents: Map<u128, AgentView>, now_ms: u64) -> Map<u128, AgentView> {
    agents.map_values(|a: AgentView| AgentView { status: checked_status(a, now_ms), ..a })
}

/// The client state after a liveness check at `now_ms`.
pub open spec fn liveness_view(c: CoordinatorView, now_ms: u64) -> CoordinatorView {
    CoordinatorView { agents: liveness_checked(c.agents, now_ms), ..c }
}

/// The tasks of several agents re-queued, agent after agent, each agent's
/// tasks in the order given for it.
pub open spec fn requeue_nodes(c: CoordinatorView, nodes: Seq<u128>, orders: Seq<Seq<u128>>) -> (CoordinatorView, Seq<FollowUpView>)
    decreases nodes.len(),
{
    if nodes.len() == 0 || orders.len() == 0 {
        (c, Seq::empty())
    } else {
        let prev = requeue_nodes(c, nodes.drop_last(), orders.drop_last());
        let (c2, f) = requeue_all(prev.0, nodes.last(), orders.last(), false);
        (c2, prev.1 + f)
    }
}

/// Each agent's order lists the tasks active on it when its turn comes.
pub open spec fn orders_valid(c: CoordinatorView, nodes: Seq<u128>, orders: Seq<Seq<u128>>) -> bool {
    &&& orders.len() == nodes.len()
    &&& forall|k: int| 0 <= k < nodes.len() ==> #[trigger] orphan_order(
            requeue_nodes(c, nodes.take(k), orders.take(k)).0.tasks, nodes[k], orders[k])
}

/// The liveness check of a tick: every agent's status follows its last
/// heartbeat, and the tasks of each agent that went offline are re-queued.
pub open spec fn liveness_done(old: CoordinatorView, new: CoordinatorView, now_ms: u64, nodes: Seq<u128>,
    orders: Seq<Seq<u128>>, fu: Seq<FollowUpView>) -> bool
{
    let s1 = liveness_view(old, now_ms);
    &&& nodes.no_duplicates()
    &&& forall|id: u128| nodes.contains(id) <==> newly_offline(old.agents, id, now_ms)
    &&& orders_valid(s1, nodes, orders)
    &&& (new, fu) == requeue_nodes(s1, nodes, orders)
}

/// Offline agents silent for five minutes are forgotten, with their info views.
pub open spec fn pruned(c: CoordinatorView, now_ms: u64) -> CoordinatorView {
    CoordinatorView {
        agents: c.agents.restrict(c.agents.dom().filter(|id: u128| !prunable(c.agents[id], now_ms))),
        info: c.info.restrict(c.info.dom().filter(|id: u128| !(c.agents.contains_key(id) && prunable(c.agents[id], now_ms)))),
        ..c
    }
}

/// Whether work stealing has something to do: no task waits ready, some
/// online agent is idle, and some agent has at least `OVERLOADED_TASKS`.
pub open spec fn steal_wanted(c: CoordinatorView) -> bool {
    &&& !exists|t: u128| #[trigger] c.tasks.tasks.contains_key(t) && ready(c.tasks, c.tasks.tasks[t])
    &&& exists|id: u128| #[trigger] c.agents.contains_key(id) && c.agents[id].status == NodeStatus::Online
            && c.agents[id].active_task_count == 0
    &&& exists|id: u128| #[trigger] c.agents.contains_key(id) && c.agents[id].active_task_count >= OVERLOADED_TASKS
}

/// `busy` carries the most tasks of all agents, at least `OVERLOADED_TASKS`.
pub open spec fn most_loaded(c: CoordinatorView, busy: u128) -> bool {
    &&& c.agents.contains_key(busy)
    &&& c.agents[busy].active_task_count >= OVERLOADED_TASKS
    &&& forall|id: u128| #[trigger] c.agents.contains_key(id) ==> c.agents[id].active_task_count <= c.agents[busy].active_task_count
}

/// `t` is a task active on `node` with the lowest priority among them.
pub open spec fn lowest_on(m: TaskManagerView, node: u128, t: u128) -> bool {
    &&& m.tasks.contains_key(t)
    &&& active_on(m.tasks[t], node)
    &&& forall|o: u128| #[trigger] m.tasks.contains_key(o) && active_on(m.tasks[o], node)
            ==> m.tasks[t].task.priority <= m.tasks[o].task.priority
}

/// Task `t` taken from `busy`: re-queued (its checkpoint asked for), the
/// agent told to stop it and counted one task lighter, and the theft logged.
pub open spec fn stolen(old: CoordinatorView, new: CoordinatorView, busy: u128, t: u128, fu: Seq<FollowUpView>) -> bool {
    let (m, ok) = requeue_limited(old.tasks, t);
    &&& fu == (if ok { seq![FollowUpView::LoadCheckpoint(t)] } else { Seq::empty() })
            .push(FollowUpView::CancelOn { node: busy, task: t })
    &&& new == with_line(
            CoordinatorView { tasks: m, agents: one_task_done(old.agents, busy), ..old },
            short_of(t) + " stolen from overloaded agent"@,
            ActivityLevel::Info,
        )
}

/// A counter that fires once every `period` ticks.
pub struct Cadence {
    count: u32,
    period: u32,
}

impl Cadence {
    pub closed spec fn spec_count(&self) -> u32 {
        self.count
    }

    pub closed spec fn spec_period(&self) -> u32 {
        self.period
    }

    #[verifier::type_invariant]
    closed spec fn inv(&self) -> bool {
        0 < self.period && self.count < self.period
    }

    /// A counter that fires on the `period`-th tick.
    pub fn new(period: u32) -> (r: Self)
        requires
            period > 0,
        ensures
            r.spec_count() == 0,
            r.spec_period() == period,
    {
        Cadence { count: 0, period }
    }

    /// Counts a tick; true, and the count back to zero, when it reaches the period.
    pub fn tick(&mut self) -> (fire: bool)
        ensures
            fire == (old(self).spec_count() + 1 == old(self).spec_period()),
            final(self).spec_count() == if fire { 0 } else { (old(self).spec_count() + 1) as u32 },
            final(self).spec_period() == old(self).spec_period(),
    {
        proof {
            use_type_invariant(&*self);
        }
        let c = self.count + 1;
        if c >= self.period {
            self.count = 0;
            true
        } else {
            self.count = c;
            false
        }
    }
}

impl Coordinator {
    /// The liveness check of a tick at `now_ms`: see `liveness_done`.
    pub fn check_liveness(&mut self, now_ms: u64) -> (r: Vec<FollowUp>)
        ensures
            exists|nodes: Seq<u128>, orders: Seq<Seq<u128>>| #[trigger] orders_valid(liveness_view(old(self).state(), now_ms), nodes, orders)
                && liveness_done(old(self).state(), final(self).state(), now_ms, nodes, orders, follow_ups_view(r@)),
    {
        let ghost st0 = self.state();
        let offline = self.agents.check_liveness(now_ms);
        let ghost s1 = self.state();
        proof {
            assert(s1.agents =~= liveness_checked(st0.agents, now_ms));
            assert(s1 == liveness_view(st0, now_ms));
        }
        let mut r: Vec<FollowUp> = Vec::new();
        let ghost mut orders: Seq<Seq<u128>> = Seq::empty();
        let mut i: usize = 0;
        while i < offline.len()
            invariant
                i <= offline@.len(),
                orders.len() == i,
                orders_valid(s1, offline@.take(i as int), orders),
                (self.state(), follow_ups_view(r@)) == requeue_nodes(s1, offline@.take(i as int), orders),
            decreases offline@.len() - i,
        {
            let node = offline[i];
            let ghost before = self.state();
            let ghost fu0 = follow_ups_view(r@);
            let orphaned = self.tasks.tasks_assigned_to(node);
            let f = self.requeue_each(node, &orphaned, false);
            let ghost nodes1 = offline@.take(i + 1);
            let ghost orders1 = orders.push(orphaned@);
            proof {
                assert(nodes1.drop_last() =~= offline@.take(i as int));
                assert(orders1.drop_last() =~= orders);
                assert(orphan_order(before.tasks, node, orphaned@));
                assert forall|k: int| 0 <= k < nodes1.len() implies #[trigger] orphan_order(
                    requeue_nodes(s1, nodes1.take(k), orders1.take(k)).0.tasks, nodes1[k], orders1[k]) by {
                    if k < i {
                        assert(nodes1.take(k) =~= offline@.take(i as int).take(k));
                        assert(orders1.take(k) =~= orders.take(k));
                        assert(orphan_order(requeue_nodes(s1, offline@.take(i as int).take(k), orders.take(k)).0.tasks,
                            offline@.take(i as int)[k], orders[k]));
                    } else {
                        assert(nodes1.take(k) =~= offline@.take(i as int));
                        assert(orders1.take(k) =~= orders);
                    }
                }
            }
            let mut f2 = f;
            r.append(&mut f2);
            proof {
                assert(follow_ups_view(r@) =~= fu0 + requeue_all(before, node, orphaned@, false).1);
                orders = orders1;
            }
            i = i + 1;
        }
        proof {
            assert(offline@.take(offline@.len() as int) =~= offline@);
            assert(liveness_done(st0, self.state(), now_ms, offline@, orders, follow_ups_view(r@)));
        }
        r
    }

    /// Forgets the offline agents silent for more than five minutes, and
    /// closes their info views.
    pub fn prune_offline_agents(&mut self, now_ms: u64)
        ensures
            final(self).state() == pruned(old(self).state(), now_ms),
    {
        let ghost st0 = self.state();
        let gone = self.agents.prune_offline(now_ms);
        let ghost s1 = self.state();
        let mut i: usize = 0;
        proof {
            assert(gone@.take(0).to_set() =~= Set::<u128>::empty());
            assert(st0.info.remove_keys(Set::<u128>::empty()) =~= st0.info);
        }
        while i < gone.len()
            invariant
                i <= gone@.len(),
                self.state() == (CoordinatorView {
                    info: st0.info.remove_keys(gone@.take(i as int).to_set()),
                    ..s1
                }),
            decreases gone@.len() - i,
        {
            let id = gone[i];
            self.info_views.remove(id);
            proof {
                assert(gone@.take(i + 1) =~= gone@.take(i as int).push(id));
                gone@.take(i as int).lemma_push_to_set_commute(id);
                assert(st0.info.remove_keys(gone@.take(i as int).to_set()).remove(id)
                    =~= st0.info.remove_keys(gone@.take(i + 1).to_set()));
            }
            i = i + 1;
        }
        proof {
            assert(gone@.take(gone@.len() as int) =~= gone@);
            let p = pruned(st0, now_ms);
            assert(self.state().agents =~= p.agents);
            assert forall|id: u128| gone@.to_set().contains(id) <==> (st0.agents.contains_key(id) && prunable(st0.agents[id], now_ms)) by {
                if gone@.contains(id) {
                    assert(gone@.to_set().contains(id));
                }
            }
            assert(self.state().info =~= p.info);
        }
    }

    /// Moves one task from the most loaded agent to the pool when no task
    /// waits, some online agent is idle and some agent carries at least
    /// `OVERLOADED_TASKS`; the task taken is one of lowest priority.
    pub fn steal_work(&mut self) -> (r: Vec<FollowUp>)
        ensures
            !steal_wanted(old(self).state()) ==> final(self).state() == old(self).state() && r@.len() == 0,
            steal_wanted(old(self).state()) ==> exists|busy: u128| #[trigger] most_loaded(old(self).state(), busy) && {
                ||| (forall|t: u128| #[trigger] old(self).state().tasks.tasks.contains_key(t)
                        ==> !active_on(old(self).state().tasks.tasks[t], busy))
                        && final(self).state() == old(self).state() && r@.len() == 0
                ||| exists|t: u128| #[trigger] lowest_on(old(self).state().tasks, busy, t)
                        && stolen(old(self).state(), final(self).state(), busy, t, follow_ups_view(r@))
            },
    {
        let ghost st0 = self.state();
        let pending = self.tasks.pending_tasks();
        if pending.len() > 0 {
            proof {
                let id = pending@[0].task_id;
                assert(st0.tasks.tasks.contains_key(id) && ready(st0.tasks, st0.tasks.tasks[id]));
            }
            return Vec::new();
        }
        proof {
            assert forall|t: u128| #[trigger] st0.tasks.tasks.contains_key(t) implies !ready(st0.tasks, st0.tasks.tasks[t]) by {
                if ready(st0.tasks, st0.tasks.tasks[t]) {
                    let k = choose|k: int| 0 <= k < pending@.len() && #[trigger] pending@[k].task_id == t;
                }
            }
        }
        if !self.agents.has_idle_online() {
            return Vec::new();
        }
        let busy = match self.agents.most_overloaded() {
            Some(b) => b,
            None => {
                return Vec::new();
            },
        };
        proof {
            assert(most_loaded(st0, busy));
        }
        let t = match self.tasks.lowest_priority_task_on(busy) {
            Some(t) => t,
            None => {
                return Vec::new();
            },
        };
        proof {
            assert(lowest_on(st0.tasks, busy, t));
        }
        let mut r: Vec<FollowUp> = Vec::new();
        if self.requeue_one(t) {
            r.push(FollowUp::LoadCheckpoint(t));
        }
        r.push(FollowUp::CancelOn { node: busy, task: t });
        self.agents.task_finished(busy);
        let mut m = short_id(t);
        push_str(&mut m, " stolen from overloaded agent");
        self.activity.push(m, ActivityLevel::Info);
        proof {
            let (m2, ok) = requeue_limited(st0.tasks, t);
            assert(follow_ups_view(r@) =~= (if ok { seq![FollowUpView::LoadCheckpoint(t)] } else { Seq::empty() })
                .push(FollowUpView::CancelOn { node: busy, task: t }));
            assert(stolen(st0, self.state(), busy, t, follow_ups_view(r@)));
        }
        r
    }
}


// ---------------------------------------------------------------------------
// Placing tasks
// ---------------------------------------------------------------------------

/// The table after a task is submitted.
pub open spec fn submitted(m: TaskManagerView, t: TaskRecordView) -> TaskManagerView {
    TaskManagerView { tasks: m.tasks.insert(t.task_id, fresh_entry(t)), ..m }
}

/// The agent table after a task was sent to an agent.
pub open spec fn one_task_more(agents: Map<u128, AgentView>, id: u128) -> Map<u128, AgentView> {
    if agents.contains_key(id) {
        agents.insert(id, AgentView { active_task_count: (agents[id].active_task_count + 1) as u32, ..agents[id] })
    } else {
        agents
    }
}

/// An agent's task count can take one more task.
pub open spec fn can_take_one_more(c: CoordinatorView, n: u128) -> bool {
    c.agents.contains_key(n) ==> c.agents[n].active_task_count < u32::MAX
}

/// A new task once the scheduler chose where it runs (`choice`, by the
/// algorithm named `algo`); `refusal` is why the local executor turned it
/// down, when it did. Training tasks expect one gradient shard from the
/// client and one from each online agent (a count that stops at `usize::MAX`).
pub open spec fn placed(old: CoordinatorView, new: CoordinatorView, is_leader: bool, t: TaskRecordView,
    choice: Option<u128>, algo: Seq<char>, refusal: Option<Seq<char>>, shards: Option<nat>) -> bool
{
    if !is_leader {
        &&& shards is None
        &&& new == with_line(old, "Standby mode: not the active leader"@, ActivityLevel::Warning)
    } else {
        &&& shards == (if t.task_type == TaskType::Train {
                Some(if online_ids(old.agents).len() < usize::MAX { 1 + online_ids(old.agents).len() } else { usize::MAX as nat })
            } else {
                None
            })
        &&& match choice {
            Some(n) => {
                let assigned = spec_assign(submitted(old.tasks, t), t.task_id, n);
                if n == old.client_id {
                    match refusal {
                        Some(why) => new == with_line(CoordinatorView { tasks: spec_cancel(assigned, t.task_id), ..old },
                            "Throttled: "@ + why, ActivityLevel::Warning),
                        None => new == with_line(CoordinatorView { tasks: assigned, ..old },
                            short_of(t.task_id) + " "@ + task_type_name(t.task_type) + " executing locally ["@ + algo + "]"@,
                            ActivityLevel::Info),
                    }
                } else {
                    new == with_line(CoordinatorView { tasks: assigned, agents: one_task_more(old.agents, n), ..old },
                        short_of(t.task_id) + " "@ + task_type_name(t.task_type) + " assigned to "@ + host_or(old, n, "?"@)
                            + " ["@ + algo + "]"@,
                        ActivityLevel::Info)
                }
            },
            None => new == with_line(old, "Scheduler could not select a node"@, ActivityLevel::Error),
        }
    }
}

/// A pending task once the scheduler chose where it runs again. A task the
/// local executor turns down goes back to pending, to be tried on a later
/// tick; with no choice the task stays pending.
pub open spec fn replaced(old: CoordinatorView, new: CoordinatorView, id: u128, tt: TaskType, choice: Option<u128>,
    refusal: bool) -> bool
{
    match choice {
        Some(n) => {
            let assigned = spec_assign(old.tasks, id, n);
            if n == old.client_id {
                if refusal {
                    new == (CoordinatorView { tasks: spec_revert_to_pending(assigned, id), ..old })
                } else {
                    new == with_line(CoordinatorView { tasks: assigned, ..old },
                        short_of(id) + " "@ + task_type_name(tt) + " reassigned locally"@, ActivityLevel::Info)
                }
            } else {
                new == with_line(CoordinatorView { tasks: assigned, agents: one_task_more(old.agents, n), ..old },
                    short_of(id) + " "@ + task_type_name(tt) + " reassigned to "@ + host_or(old, n, "?"@), ActivityLevel::Info)
            }
        },
        None => new == old,
    }
}

impl Coordinator {
    fn kind_text(t: TaskType) -> (r: &'static str)
        ensures
            r@ == task_type_name(t),
    {
        t.name()
    }

    /// Places a new task: see `placed`. Returns the number of gradient shards
    /// a training task expects per step.
    pub fn place_task(&mut self, is_leader: bool, task: TaskRecord, choice: Option<u128>, algo: &str,
        refusal: Option<String>) -> (shards: Option<usize>)
        requires
            choice matches Some(n) ==> can_take_one_more(old(self).state(), n),
        ensures
            placed(old(self).state(), final(self).state(), is_leader, task@, choice, algo@, opt_view(refusal),
                match shards { Some(k) => Some(k as nat), None => None }),
    {
        if !is_leader {
            self.activity.push(owned("Standby mode: not the active leader"), ActivityLevel::Warning);
            return None;
        }
        let ghost st0 = self.state();
        let online = self.agents.online_count();
        let shards = if task.task_type == TaskType::Train {
            Some(online.saturating_add(1))
        } else {
            None
        };
        let tid = task.task_id;
        let tt = task.task_type;
        match choice {
            Some(n) => {
                self.tasks.submit(task);
                self.tasks.assign(tid, n);
                let mut m = short_id(tid);
                push_str(&mut m, " ");
                push_str(&mut m, Self::kind_text(tt));
                if n == self.client_id {
                    match refusal {
                        Some(why) => {
                            self.tasks.cancel(tid);
                            let mut w = owned("Throttled: ");
                            push_str(&mut w, why.as_str());
                            self.activity.push(w, ActivityLevel::Warning);
                        },
                        None => {
                            push_str(&mut m, " executing locally [");
                            push_str(&mut m, algo);
                            push_str(&mut m, "]");
                            self.activity.push(m, ActivityLevel::Info);
                        },
                    }
                } else {
                    let host = match self.agents.get(n) {
                        Some(a) => owned(a.hostname.as_str()),
                        None => owned("?"),
                    };
                    self.agents.task_assigned(n);
                    push_str(&mut m, " assigned to ");
                    push_str(&mut m, host.as_str());
                    push_str(&mut m, " [");
                    push_str(&mut m, algo);
                    push_str(&mut m, "]");
                    self.activity.push(m, ActivityLevel::Info);
                }
            },
            None => {
                self.activity.push(owned("Scheduler could not select a node"), ActivityLevel::Error);
            },
        }
        shards
    }
}


impl Coordinator {
    /// Places a pending task again: see `replaced`. `refusal` tells whether
    /// the local executor turned the task down.
    pub fn replace_task(&mut self, task_id: u128, task_type: TaskType, choice: Option<u128>, refusal: bool)
        requires
            choice matches Some(n) ==> can_take_one_more(old(self).state(), n),
        ensures
            replaced(old(self).state(), final(self).state(), task_id, task_type, choice, refusal),
    {
        match choice {
            Some(n) => {
                self.tasks.assign(task_id, n);
                let mut m = short_id(task_id);
                push_str(&mut m, " ");
                push_str(&mut m, Self::kind_text(task_type));
                if n == self.client_id {
                    if refusal {
                        self.tasks.revert_to_pending(task_id);
                    } else {
                        push_str(&mut m, " reassigned locally");
                        self.activity.push(m, ActivityLevel::Info);
                    }
                } else {
                    let host = match self.agents.get(n) {
                        Some(a) => owned(a.hostname.as_str()),
                        None => owned("?"),
                    };
                    self.agents.task_assigned(n);
                    push_str(&mut m, " reassigned to ");
                    push_str(&mut m, host.as_str());
                    self.activity.push(m, ActivityLevel::Info);
                }
            },
            None => {},
        }
    }

    /// A task could not be sent to the agent it was given to: it goes back
    /// to pending and the agent counts one task less.
    pub fn send_failed(&mut self, task_id: u128, node_id: u128)
        ensures
            final(self).state() == with_line(
                CoordinatorView {
                    tasks: spec_revert_to_pending(old(self).state().tasks, task_id),
                    agents: one_task_done(old(self).state().agents, node_id),
                    ..old(self).state()
                },
                short_of(task_id) + " send failed, re-queued"@,
                ActivityLevel::Warning,
            ),
    {
        self.tasks.revert_to_pending(task_id);
        self.agents.task_finished(node_id);
        let mut m = short_id(task_id);
        push_str(&mut m, " send failed, re-queued");
        self.activity.push(m, ActivityLevel::Warning);
    }

    /// Progress of a task run by the client itself; `pct_text` is the
    /// percentage as shown, without decimals.
    pub fn local_progress(&mut self, task_id: u128, progress_bits: u32, pct_text: String)
        ensures
            final(self).state() == with_line(
                CoordinatorView { tasks: spec_update_progress(old(self).state().tasks, task_id, progress_bits, None), ..old(self).state() },
                "local task "@ + pct_text@ + "%"@,
                ActivityLevel::Info,
            ),
    {
        self.tasks.update_progress(task_id, progress_bits, None);
        let mut m = owned("local task ");
        push_str(&mut m, pct_text.as_str());
        push_str(&mut m, "%");
        self.activity.push(m, ActivityLevel::Info);
    }

    /// The result of a task run by the client itself: logged, the task
    /// completed (once), and the client's own info view told.
    pub fn local_result(&mut self, result: TaskOutcome)
        ensures
            ({
                let r = result@;
                let s1 = with_line(old(self).state(), "local task "@ + outcome_word(r.success) + " ("@
                    + decimal_text(r.duration_ms as nat) + "ms)"@,
                    if r.success { ActivityLevel::Success } else { ActivityLevel::Error });
                final(self).state() == (CoordinatorView {
                    tasks: spec_complete(old(self).state().tasks, r.task_id, r),
                    info: info_appended(old(self).state().info, old(self).state().client_id,
                        "[local task "@ + short_of(r.task_id) + "] "@ + outcome_word(r.success)),
                    ..s1
                })
            }),
    {
        let word = if result.success { "completed" } else { "failed" };
        let mut m = owned("local task ");
        push_str(&mut m, word);
        push_str(&mut m, " (");
        let ms = decimal_string(result.duration_ms);
        push_str(&mut m, ms.as_str());
        push_str(&mut m, "ms)");
        let level = if result.success { ActivityLevel::Success } else { ActivityLevel::Error };
        self.activity.push(m, level);
        let tid = result.task_id;
        let mut line = owned("[local task ");
        let ts = short_id(tid);
        push_str(&mut line, ts.as_str());
        push_str(&mut line, "] ");
        push_str(&mut line, word);
        self.tasks.complete(tid, result);
        let me = self.client_id;
        self.info_views.append(me, line);
    }
}


// ---------------------------------------------------------------------------
// Scans and deployments
// ---------------------------------------------------------------------------

/// What a bootstrap in the background reports; hosts are kept as text.
pub enum BootstrapEvent {
    Started { host: String },
    Progress { host: String, step: String },
    Success { host: String, method: String },
    Failed { host: String, error: String },
}

/// The activity line a bootstrap report is logged with.
pub open spec fn bootstrap_line(e: BootstrapEvent) -> (Seq<char>, ActivityLevel) {
    match e {
        BootstrapEvent::Started { host } => ("[seed] deploying to "@ + host@ + "..."@, ActivityLevel::Info),
        BootstrapEvent::Progress { host, step } => ("[seed] "@ + host@ + " \u{2014} "@ + step@, ActivityLevel::Info),
        BootstrapEvent::Success { host, method } => ("[seed] "@ + host@ + " \u{2014} deployed via "@ + method@
            + ", agent auto-discovering coordinator..."@, ActivityLevel::Success),
        BootstrapEvent::Failed { host, error } => ("Deploy failed: "@ + host@ + " \u{2014} "@ + error@, ActivityLevel::Error),
    }
}

/// The devices found by a scan, listed once per address.
pub open spec fn with_device(found: Seq<DiscoveredNode>, node: DiscoveredNode) -> Seq<DiscoveredNode> {
    if exists|k: int| 0 <= k < found.len() && (#[trigger] found[k]).ip@ == node.ip@ { found } else { found.push(node) }
}

impl Coordinator {
    /// A scan found a device: it is logged, and listed in `found` unless a
    /// device with its address is listed already.
    pub fn device_found(&mut self, found: &mut Vec<DiscoveredNode>, node: DiscoveredNode)
        ensures
            final(self).state() == with_line(old(self).state(),
                "found "@ + device_line(node.ip@, node.device_type, opt_view(node.os_hint), node.has_agent), ActivityLevel::Info),
            final(found)@ == with_device(old(found)@, node),
    {
        let line = format_device(&node);
        let mut m = owned("found ");
        push_str(&mut m, line.as_str());
        self.activity.push(m, ActivityLevel::Info);
        let ghost st1 = self.state();
        let mut i: usize = 0;
        while i < found.len()
            invariant
                self.state() == st1,
                st1 == with_line(old(self).state(),
                    "found "@ + device_line(node.ip@, node.device_type, opt_view(node.os_hint), node.has_agent), ActivityLevel::Info),
                i <= found@.len(),
                found@ == old(found)@,
                forall|k: int| 0 <= k < i ==> (#[trigger] found@[k]).ip@ != node.ip@,
            decreases found@.len() - i,
        {
            if str_eq(found[i].ip.as_str(), node.ip.as_str()) {
                return;
            }
            i = i + 1;
        }
        found.push(node);
    }

    /// A scan finished after finding `total` devices.
    pub fn scan_complete(&mut self, total: usize)
        ensures
            final(self).state() == with_line(old(self).state(),
                "Scan complete: "@ + decimal_text(total as nat) + " device(s) found"@, ActivityLevel::Success),
    {
        let mut m = owned("Scan complete: ");
        let n = decimal_string(total as u64);
        push_str(&mut m, n.as_str());
        push_str(&mut m, " device(s) found");
        self.activity.push(m, ActivityLevel::Success);
    }

    /// A bootstrap in the background reported: see `bootstrap_line`.
    pub fn bootstrap_report(&mut self, event: BootstrapEvent)
        ensures
            final(self).state() == with_line(old(self).state(), bootstrap_line(event).0, bootstrap_line(event).1),
    {
        match event {
            BootstrapEvent::Started { host } => {
                let mut m = owned("[seed] deploying to ");
                push_str(&mut m, host.as_str());
                push_str(&mut m, "...");
                self.activity.push(m, ActivityLevel::Info);
            },
            BootstrapEvent::Progress { host, step } => {
                let mut m = owned("[seed] ");
                push_str(&mut m, host.as_str());
                push_str(&mut m, " \u{2014} ");
                push_str(&mut m, step.as_str());
                self.activity.push(m, ActivityLevel::Info);
            },
            BootstrapEvent::Success { host, method } => {
                let mut m = owned("[seed] ");
                push_str(&mut m, host.as_str());
                push_str(&mut m, " \u{2014} deployed via ");
                push_str(&mut m, method.as_str());
                push_str(&mut m, ", agent auto-discovering coordinator...");
                self.activity.push(m, ActivityLevel::Success);
            },
            BootstrapEvent::Failed { host, error } => {
                let mut m = owned("Deploy failed: ");
                push_str(&mut m, host.as_str());
                push_str(&mut m, " \u{2014} ");
                push_str(&mut m, error.as_str());
                self.activity.push(m, ActivityLevel::Error);
            },
        }
    }
}


// ---------------------------------------------------------------------------
// The health counters
// ---------------------------------------------------------------------------

/// The tasks pending, assigned or running.
pub open spec fn active_ids(m: TaskManagerView) -> Set<u128> {
    m.tasks.dom().filter(|t: u128| is_active_status(m.tasks[t].status))
}

/// The pending tasks whose dependencies are all done.
pub open spec fn ready_ids(m: TaskManagerView) -> Set<u128> {
    m.tasks.dom().filter(|t: u128| ready(m, m.tasks[t]))
}

/// The health counters of the client's state: the agents online and known,
/// the active and the ready tasks, the uptime given; the completion totals
/// are carried over.
pub open spec fn spec_health(c: CoordinatorView, prev: HealthSnapshot, uptime_secs: u64) -> HealthSnapshot {
    HealthSnapshot {
        agents_online: online_ids(c.agents).len() as u64,
        agents_total: c.agents.dom().len() as u64,
        tasks_active: active_ids(c.tasks).len() as u64,
        tasks_pending: ready_ids(c.tasks).len() as u64,
        uptime_secs,
        ..prev
    }
}

/// A list of distinct ids, with the ids of a set exactly, is as long as the set.
pub(crate) proof fn lemma_ids_count(ids: Seq<u128>, s: Set<u128>)
    requires
        forall|a: int, b: int| 0 <= a < ids.len() && 0 <= b < ids.len() && a != b ==> ids[a] != ids[b],
        forall|t: u128| s.contains(t) <==> ids.contains(t),
    ensures
        s.finite(),
        s.len() == ids.len(),
{
    assert(ids.no_duplicates());
    assert(ids.to_set() =~= s);
    ids.unique_seq_to_set();
    vstd::seq_lib::seq_to_set_is_finite(ids);
}

impl Coordinator {
    /// The health counters now: see `spec_health`.
    pub fn health_update(&self, prev: HealthSnapshot, uptime_secs: u64) -> (r: HealthSnapshot)
        ensures
            r == spec_health(self.state(), prev, uptime_secs),
    {
        let online = self.agents.online_count();
        let total = self.agents.len();
        let active = self.tasks.active_tasks();
        let pending = self.tasks.pending_tasks();
        proof {
            let m = self.state().tasks;
            let aid = active@.map_values(|v: crate::task_manager::TaskView| v.task_id);
            assert forall|t: u128| active_ids(m).contains(t) <==> aid.contains(t) by {
                if active_ids(m).contains(t) {
                    let k = choose|k: int| 0 <= k < active@.len() && #[trigger] active@[k].task_id == t;
                    assert(aid[k] == t);
                }
                if aid.contains(t) {
                    let k = choose|k: int| 0 <= k < aid.len() && aid[k] == t;
                    assert(active@[k].task_id == t);
                }
            }
            lemma_ids_count(aid, active_ids(m));
            let pid = pending@.map_values(|v: TaskRecord| v.task_id);
            assert forall|t: u128| ready_ids(m).contains(t) <==> pid.contains(t) by {
                if ready_ids(m).contains(t) {
                    let k = choose|k: int| 0 <= k < pending@.len() && #[trigger] pending@[k].task_id == t;
                    assert(pid[k] == t);
                }
                if pid.contains(t) {
                    let k = choose|k: int| 0 <= k < pid.len() && pid[k] == t;
                    assert(pending@[k].task_id == t);
                }
            }
            lemma_ids_count(pid, ready_ids(m));
        }
        HealthSnapshot {
            agents_online: online as u64,
            agents_total: total as u64,
            tasks_active: active.len() as u64,
            tasks_pending: pending.len() as u64,
            uptime_secs,
            ..prev
        }
    }
}

// ---------------------------------------------------------------------------
// Laws of the event handling
// ---------------------------------------------------------------------------

/// A task that is assigned or running.
pub open spec fn busy_entry(e: crate::task_manager::EntryView) -> bool {
    e.status == TaskStatus::Assigned || e.status == TaskStatus::Running
}

/// Re-queueing keeps the set of known tasks and the agents, and every task
/// it changes ends neither assigned nor running.
proof fn lemma_requeue_all_monotone(c: CoordinatorView, node: u128, order: Seq<u128>, report: bool)
    ensures
        requeue_all(c, node, order, report).0.tasks.tasks.dom() == c.tasks.tasks.dom(),
        forall|t: u128| #[trigger] requeue_all(c, node, order, report).0.tasks.tasks.contains_key(t)
            ==> requeue_all(c, node, order, report).0.tasks.tasks[t] == c.tasks.tasks[t]
                || !busy_entry(requeue_all(c, node, order, report).0.tasks.tasks[t]),
        requeue_all(c, node, order, report).0.agents == c.agents,
    decreases order.len(),
{
    if order.len() > 0 {
        lemma_requeue_all_monotone(c, node, order.drop_last(), report);
        let prev = requeue_all(c, node, order.drop_last(), report);
        let t = order.last();
        let (m, ok) = requeue_limited(prev.0.tasks, t);
        assert(m.tasks.dom() =~= prev.0.tasks.tasks.dom());
    }
}

/// Re-queueing the tasks active on a node, none at its retry limit, leaves
/// each of them inactive and the others as they were.
proof fn lemma_requeue_all_clears(c: CoordinatorView, node: u128, order: Seq<u128>, report: bool)
    requires
        seq_no_dups(order),
        forall|k: int| 0 <= k < order.len() ==> c.tasks.tasks.contains_key(#[trigger] order[k])
            && active_on(c.tasks.tasks[order[k]], node) && c.tasks.tasks[order[k]].retry_count < u32::MAX,
    ensures
        forall|t: u128| #[trigger] c.tasks.tasks.contains_key(t) && !order.contains(t)
            ==> requeue_all(c, node, order, report).0.tasks.tasks[t] == c.tasks.tasks[t],
        forall|t: u128| order.contains(t) ==> !active_on(#[trigger] requeue_all(c, node, order, report).0.tasks.tasks[t], node),
    decreases order.len(),
{
    if order.len() > 0 {
        let d = order.drop_last();
        assert(seq_no_dups(d));
        assert forall|k: int| 0 <= k < d.len() implies c.tasks.tasks.contains_key(#[trigger] d[k])
            && active_on(c.tasks.tasks[d[k]], node) && c.tasks.tasks[d[k]].retry_count < u32::MAX by {
            assert(d[k] == order[k]);
        }
        lemma_requeue_all_clears(c, node, d, report);
        lemma_requeue_all_monotone(c, node, d, report);
        let prev = requeue_all(c, node, d, report);
        let t = order.last();
        assert(!d.contains(t)) by {
            if d.contains(t) {
                let k = choose|k: int| 0 <= k < d.len() && d[k] == t;
                assert(order[k] == order[order.len() - 1]);
            }
        }
        assert(c.tasks.tasks.contains_key(order[order.len() - 1]));
        assert(prev.0.tasks.tasks[t] == c.tasks.tasks[t]);
        let r = requeue_all(c, node, order, report).0;
        assert forall|u: u128| order.contains(u) implies !active_on(#[trigger] r.tasks.tasks[u], node) by {
            if u != t {
                let k = choose|k: int| 0 <= k < order.len() && order[k] == u;
                assert(d[k] == u);
                assert(d.contains(u));
            }
        }
        assert forall|u: u128| #[trigger] c.tasks.tasks.contains_key(u) && !order.contains(u)
            implies r.tasks.tasks[u] == c.tasks.tasks[u] by {
            assert(!d.contains(u)) by {
                if d.contains(u) {
                    let k = choose|k: int| 0 <= k < d.len() && d[k] == u;
                    assert(order[k] == u);
                }
            }
            assert(u != t) by {
                assert(order[order.len() - 1] == t);
            }
        }
    }
}

/// After an agent leaves, no task is still assigned to or running on it:
/// each went back to pending or failed for want of retries. The agent is
/// offline, and no task was forgotten. (A task re-queued `u32::MAX` times
/// already cannot be counted once more and is left as it is: such tasks are
/// left out.)
pub proof fn lemma_disconnect_leaves_no_task(old: CoordinatorView, new: CoordinatorView, id: u128, order: Seq<u128>,
    fu: Seq<FollowUpView>)
    requires
        orphan_order(old.tasks, id, order),
        disconnect_done(old, new, id, order, fu),
        forall|t: u128| #[trigger] old.tasks.tasks.contains_key(t) && active_on(old.tasks.tasks[t], id)
            ==> old.tasks.tasks[t].retry_count < u32::MAX,
    ensures
        forall|t: u128| #[trigger] new.tasks.tasks.contains_key(t) ==> !active_on(new.tasks.tasks[t], id),
        new.tasks.tasks.dom() == old.tasks.tasks.dom(),
        old.agents.contains_key(id) ==> new.agents.contains_key(id) && new.agents[id].status == NodeStatus::Offline,
{
    let s1 = with_line(
        CoordinatorView { agents: marked_offline(old.agents, id), ..old },
        short_of(id) + " "@ + display_name(old, id) + " disconnected"@,
        ActivityLevel::Warning,
    );
    assert forall|k: int| 0 <= k < order.len() implies s1.tasks.tasks.contains_key(#[trigger] order[k])
        && active_on(s1.tasks.tasks[order[k]], id) && s1.tasks.tasks[order[k]].retry_count < u32::MAX by {
        assert(order.contains(order[k]));
    }
    lemma_requeue_all_clears(s1, id, order, true);
    lemma_requeue_all_monotone(s1, id, order, true);
    let s2 = requeue_all(s1, id, order, true).0;
    assert forall|t: u128| #[trigger] new.tasks.tasks.contains_key(t) implies !active_on(new.tasks.tasks[t], id) by {
        if !order.contains(t) {
            assert(s2.tasks.tasks[t] == s1.tasks.tasks[t]);
        }
    }
}

/// After a liveness check, every agent's status follows its heartbeat, and
/// no task is still assigned to or running on an agent that went offline in
/// the check. (Tasks re-queued `u32::MAX` times already are left out, as in
/// `lemma_disconnect_leaves_no_task`.)
pub proof fn lemma_liveness_leaves_no_task(old: CoordinatorView, new: CoordinatorView, now_ms: u64, nodes: Seq<u128>,
    orders: Seq<Seq<u128>>, fu: Seq<FollowUpView>)
    requires
        liveness_done(old, new, now_ms, nodes, orders, fu),
        forall|t: u128| #[trigger] old.tasks.tasks.contains_key(t) ==> old.tasks.tasks[t].retry_count < u32::MAX,
    ensures
        forall|t: u128, id: u128| #[trigger] new.tasks.tasks.contains_key(t) && #[trigger] newly_offline(old.agents, id, now_ms)
            ==> !active_on(new.tasks.tasks[t], id),
        new.agents == liveness_checked(old.agents, now_ms),
        new.tasks.tasks.dom() == old.tasks.tasks.dom(),
{
    let s1 = liveness_view(old, now_ms);
    lemma_requeue_nodes(s1, nodes, orders);
    assert forall|t: u128, id: u128| #[trigger] new.tasks.tasks.contains_key(t) && #[trigger] newly_offline(old.agents, id, now_ms)
        implies !active_on(new.tasks.tasks[t], id) by {
        assert(nodes.contains(id));
        let k = choose|k: int| 0 <= k < nodes.len() && nodes[k] == id;
        assert(!active_on(requeue_nodes(s1, nodes, orders).0.tasks.tasks[t], nodes[k]));
    }
}

/// Re-queueing the tasks of several agents in turn: the known tasks and the
/// agents stay, every changed task ends neither assigned nor running, and
/// at the end no task is active on any of these agents.
proof fn lemma_requeue_nodes(c: CoordinatorView, nodes: Seq<u128>, orders: Seq<Seq<u128>>)
    requires
        orders_valid(c, nodes, orders),
        forall|t: u128| #[trigger] c.tasks.tasks.contains_key(t) ==> c.tasks.tasks[t].retry_count < u32::MAX,
    ensures
        requeue_nodes(c, nodes, orders).0.tasks.tasks.dom() == c.tasks.tasks.dom(),
        requeue_nodes(c, nodes, orders).0.agents == c.agents,
        forall|t: u128| #[trigger] requeue_nodes(c, nodes, orders).0.tasks.tasks.contains_key(t)
            ==> requeue_nodes(c, nodes, orders).0.tasks.tasks[t] == c.tasks.tasks[t]
                || !busy_entry(requeue_nodes(c, nodes, orders).0.tasks.tasks[t]),
        forall|t: u128, k: int| 0 <= k < nodes.len() && #[trigger] requeue_nodes(c, nodes, orders).0.tasks.tasks.contains_key(t)
            ==> !active_on(requeue_nodes(c, nodes, orders).0.tasks.tasks[t], #[trigger] nodes[k]),
    decreases nodes.len(),
{
    if nodes.len() > 0 {
        let n = nodes.len() - 1;
        let dn = nodes.drop_last();
        let dord = orders.drop_last();
        assert(orders_valid(c, dn, dord)) by {
            assert forall|k: int| 0 <= k < dn.len() implies #[trigger] orphan_order(
                requeue_nodes(c, dn.take(k), dord.take(k)).0.tasks, dn[k], dord[k]) by {
                assert(dn.take(k) =~= nodes.take(k));
                assert(dord.take(k) =~= orders.take(k));
                assert(orphan_order(requeue_nodes(c, nodes.take(k), orders.take(k)).0.tasks, nodes[k], orders[k]));
            }
        }
        lemma_requeue_nodes(c, dn, dord);
        let prev = requeue_nodes(c, dn, dord).0;
        let node = nodes.last();
        let order = orders.last();
        assert(orphan_order(prev.tasks, node, order)) by {
            assert(nodes.take(n) =~= dn);
            assert(orders.take(n) =~= dord);
            assert(orphan_order(requeue_nodes(c, nodes.take(n), orders.take(n)).0.tasks, nodes[n], orders[n]));
        }
        assert forall|k: int| 0 <= k < order.len() implies prev.tasks.tasks.contains_key(#[trigger] order[k])
            && active_on(prev.tasks.tasks[order[k]], node) && prev.tasks.tasks[order[k]].retry_count < u32::MAX by {
            assert(order.contains(order[k]));
        }
        lemma_requeue_all_clears(prev, node, order, false);
        lemma_requeue_all_monotone(prev, node, order, false);
        let r = requeue_nodes(c, nodes, orders).0;
        assert(r == requeue_all(prev, node, order, false).0);
        assert forall|t: u128, k: int| 0 <= k < nodes.len() && #[trigger] r.tasks.tasks.contains_key(t)
            implies !active_on(r.tasks.tasks[t], #[trigger] nodes[k]) by {
            if k < n {
                assert(dn[k] == nodes[k]);
                if active_on(r.tasks.tasks[t], nodes[k]) {
                    assert(r.tasks.tasks[t] == prev.tasks.tasks[t]);
                    assert(!active_on(prev.tasks.tasks[t], dn[k]));
                }
            } else {
                if !order.contains(t) {
                    assert(r.tasks.tasks[t] == prev.tasks.tasks[t]);
                }
            }
        }
    }
}

} // verus!
