//! The coordinator's table of agents: who is connected, how each is doing,
//! and the decisions taken over the whole table (liveness, work stealing,
//! pruning, lookups by id prefix).
use vstd::prelude::*;
use crate::text::{owned, views, seq_starts_with, lowercase_of, to_lowercase, str_starts_with};
use crate::types::{OsKind, ArchKind, NodeStatus};
use crate::ids::{uuid_text, uuid_to_string};

verus! {

/// What the coordinator keeps of a connected agent. Times are milliseconds
/// of a monotonic clock.
pub struct AgentRecord {
    pub id: u128,
    pub hostname: String,
    pub os: OsKind,
    pub arch: ArchKind,
    pub status: NodeStatus,
    pub active_task_count: u32,
    pub last_heartbeat_ms: u64,
    pub last_pong_ms: Option<u64>,
    /// Heartbeats since metrics were last persisted.
    pub heartbeat_counter: u32,
    pub cached_datasets: Vec<String>,
    pub cached_models: Vec<String>,
}

pub struct AgentView {
    pub hostname: Seq<char>,
    pub os: OsKind,
    pub arch: ArchKind,
    pub status: NodeStatus,
    pub active_task_count: u32,
    pub last_heartbeat_ms: u64,
    pub last_pong_ms: Option<u64>,
    pub heartbeat_counter: u32,
    pub cached_datasets: Seq<Seq<char>>,
    pub cached_models: Seq<Seq<char>>,
}

impl View for AgentRecord {
    type V = AgentView;

    open spec fn view(&self) -> AgentView {
        AgentView {
            hostname: self.hostname@,
            os: self.os,
            arch: self.arch,
            status: self.status,
            active_task_count: self.active_task_count,
            last_heartbeat_ms: self.last_heartbeat_ms,
            last_pong_ms: self.last_pong_ms,
            heartbeat_counter: self.heartbeat_counter,
            cached_datasets: views(self.cached_datasets@),
            cached_models: views(self.cached_models@),
        }
    }
}

/// Metrics are persisted every this many heartbeats of an agent.
pub const HEARTBEATS_PER_SAVE: u32 = 10;
/// An online agent silent for longer than this is degraded.
pub const DEGRADED_AFTER_MS: u64 = 6000;
/// An agent silent for longer than this is offline.
pub const OFFLINE_AFTER_MS: u64 = 10000;
/// An online agent that has not answered a ping for longer than this many seconds is degraded.
pub const PONG_TIMEOUT_SECS: u64 = 30;
/// Offline agents silent for longer than this many seconds are forgotten.
pub const PRUNE_AFTER_SECS: u64 = 300;
/// An agent with at least this many tasks is overloaded.
pub const OVERLOADED_TASKS: u32 = 3;

/// The agents by id.
pub struct AgentTable {
    agents: Vec<AgentRecord>,
}

spec fn ids_unique(s: Seq<AgentRecord>) -> bool {
    forall|i: int, j: int| 0 <= i < s.len() && 0 <= j < s.len() && (#[trigger] s[i]).id == (#[trigger] s[j]).id ==> i == j
}

spec fn has_id(s: Seq<AgentRecord>, id: u128) -> bool {
    exists|i: int| 0 <= i < s.len() && (#[trigger] s[i]).id == id
}

spec fn index_of(s: Seq<AgentRecord>, id: u128) -> int {
    choose|i: int| 0 <= i < s.len() && (#[trigger] s[i]).id == id
}

spec fn table_of(s: Seq<AgentRecord>) -> Map<u128, AgentView> {
    Map::new(|id: u128| has_id(s, id), |id: u128| s[index_of(s, id)]@)
}

proof fn lemma_index(s: Seq<AgentRecord>, i: int)
    requires
        ids_unique(s),
        0 <= i < s.len(),
    ensures
        table_of(s).contains_key(s[i].id),
        table_of(s)[s[i].id] == s[i]@,
        index_of(s, s[i].id) == i,
{
    assert(has_id(s, s[i].id));
    let j = index_of(s, s[i].id);
    assert(s[j].id == s[i].id);
}

proof fn lemma_update(s: Seq<AgentRecord>, i: int, e: AgentRecord)
    requires
        ids_unique(s),
        0 <= i < s.len(),
        e.id == s[i].id,
    ensures
        ids_unique(s.update(i, e)),
        table_of(s.update(i, e)) == table_of(s).insert(e.id, e@),
{
    let t = s.update(i, e);
    assert(ids_unique(t)) by {
        assert forall|a: int, b: int| 0 <= a < t.len() && 0 <= b < t.len() && (#[trigger] t[a]).id == (#[trigger] t[b]).id implies a == b by {
            assert(t[a].id == s[a].id);
            assert(t[b].id == s[b].id);
        }
    }
    assert forall|id: u128| #[trigger] has_id(t, id) == has_id(s, id) by {
        if has_id(s, id) {
            let j = choose|j: int| 0 <= j < s.len() && (#[trigger] s[j]).id == id;
            assert(t[j].id == id);
        }
        if has_id(t, id) {
            let j = choose|j: int| 0 <= j < t.len() && (#[trigger] t[j]).id == id;
            assert(s[j].id == id);
        }
    }
    assert forall|id: u128| #[trigger] table_of(t).contains_key(id) implies table_of(t)[id] == table_of(s).insert(e.id, e@)[id] by {
        let j = choose|j: int| 0 <= j < t.len() && (#[trigger] t[j]).id == id;
        lemma_index(t, j);
        if j != i {
            lemma_index(s, j);
        }
    }
    assert(table_of(t) =~= table_of(s).insert(e.id, e@));
}

proof fn lemma_push(s: Seq<AgentRecord>, e: AgentRecord)
    requires
        ids_unique(s),
        !has_id(s, e.id),
    ensures
        ids_unique(s.push(e)),
        table_of(s.push(e)) == table_of(s).insert(e.id, e@),
{
    let t = s.push(e);
    assert(ids_unique(t)) by {
        assert forall|a: int, b: int| 0 <= a < t.len() && 0 <= b < t.len() && (#[trigger] t[a]).id == (#[trigger] t[b]).id implies a == b by {
            if a < s.len() && b == s.len() {
                assert(s[a].id == e.id);
            }
            if b < s.len() && a == s.len() {
                assert(s[b].id == e.id);
            }
        }
    }
    assert forall|id: u128| #[trigger] has_id(t, id) == (has_id(s, id) || id == e.id) by {
        if has_id(s, id) {
            let j = choose|j: int| 0 <= j < s.len() && (#[trigger] s[j]).id == id;
            assert(t[j].id == id);
        }
        if id == e.id {
            assert(t[s.len() as int].id == id);
        }
        if has_id(t, id) && id != e.id {
            let j = choose|j: int| 0 <= j < t.len() && (#[trigger] t[j]).id == id;
            assert(s[j].id == id);
        }
    }
    assert forall|id: u128| #[trigger] table_of(t).contains_key(id) implies table_of(t)[id] == table_of(s).insert(e.id, e@)[id] by {
        let j = choose|j: int| 0 <= j < t.len() && (#[trigger] t[j]).id == id;
        lemma_index(t, j);
        if j < s.len() {
            lemma_index(s, j);
        }
    }
    assert(table_of(t) =~= table_of(s).insert(e.id, e@));
}

proof fn lemma_remove(s: Seq<AgentRecord>, i: int)
    requires
        ids_unique(s),
        0 <= i < s.len(),
    ensures
        ids_unique(s.remove(i)),
        table_of(s.remove(i)) == table_of(s).remove(s[i].id),
{
    let t = s.remove(i);
    let rid = s[i].id;
    assert(forall|a: int| 0 <= a < t.len() ==> #[trigger] t[a] == s[if a < i { a } else { a + 1 }]);
    assert(ids_unique(t)) by {
        assert forall|a: int, b: int| 0 <= a < t.len() && 0 <= b < t.len() && (#[trigger] t[a]).id == (#[trigger] t[b]).id implies a == b by {
            let sa = if a < i { a } else { a + 1 };
            let sb = if b < i { b } else { b + 1 };
            assert(s[sa].id == s[sb].id);
        }
    }
    assert forall|id: u128| #[trigger] has_id(t, id) == (has_id(s, id) && id != rid) by {
        if has_id(s, id) && id != rid {
            let j = choose|j: int| 0 <= j < s.len() && (#[trigger] s[j]).id == id;
            let a = if j < i { j } else { j - 1 };
            assert(j != i);
            assert(t[a].id == id);
        }
        if has_id(t, id) {
            let a = choose|a: int| 0 <= a < t.len() && (#[trigger] t[a]).id == id;
            let sa = if a < i { a } else { a + 1 };
            assert(s[sa].id == id);
            assert(sa != i);
        }
    }
    assert forall|id: u128| #[trigger] table_of(t).contains_key(id) implies table_of(t)[id] == table_of(s).remove(rid)[id] by {
        let a = choose|a: int| 0 <= a < t.len() && (#[trigger] t[a]).id == id;
        let sa = if a < i { a } else { a + 1 };
        lemma_index(t, a);
        lemma_index(s, sa);
    }
    assert(table_of(t) =~= table_of(s).remove(rid));
}

/// A freshly connected agent: online, idle, heard from now.
pub open spec fn connected_view(hostname: Seq<char>, os: OsKind, arch: ArchKind, now_ms: u64, counter: u32) -> AgentView {
    AgentView {
        hostname,
        os,
        arch,
        status: NodeStatus::Online,
        active_task_count: 0,
        last_heartbeat_ms: now_ms,
        last_pong_ms: Some(now_ms),
        heartbeat_counter: counter,
        cached_datasets: Seq::empty(),
        cached_models: Seq::empty(),
    }
}

/// The status of an agent after a liveness check at `now_ms`.
pub open spec fn checked_status(a: AgentView, now_ms: u64) -> NodeStatus {
    let elapsed = if now_ms >= a.last_heartbeat_ms { now_ms - a.last_heartbeat_ms } else { 0 };
    if elapsed > OFFLINE_AFTER_MS {
        NodeStatus::Offline
    } else if elapsed > DEGRADED_AFTER_MS && a.status == NodeStatus::Online {
        NodeStatus::Degraded
    } else {
        a.status
    }
}

/// Whether an online agent has gone without a pong for too long.
pub open spec fn pong_stale(a: AgentView, now_ms: u64) -> bool {
    a.status == NodeStatus::Online && (a.last_pong_ms matches Some(t)
        && (if now_ms >= t { now_ms - t } else { 0 }) / 1000 > PONG_TIMEOUT_SECS)
}

/// Whether an offline agent has been silent long enough to be forgotten.
pub open spec fn prunable(a: AgentView, now_ms: u64) -> bool {
    a.status == NodeStatus::Offline && (if now_ms >= a.last_heartbeat_ms { now_ms - a.last_heartbeat_ms } else { 0 }) / 1000 > PRUNE_AFTER_SECS
}

pub open spec fn short_of(id: u128) -> Seq<char> {
    uuid_text(id).take(8)
}

/// The first eight characters of the hyphenated text of an id.
pub fn short_id(id: u128) -> (r: String)
    ensures
        r@ == short_of(id),
{
    let full = uuid_to_string(id);
    let cs = crate::text::chars_of(full.as_str());
    let mut out = String::new();
    let mut i: usize = 0;
    while i < 8
        invariant
            cs@ == uuid_text(id),
            cs@.len() == 36,
            i <= 8,
            out@ == cs@.take(i as int),
        decreases 8 - i,
    {
        crate::text::push_char(&mut out, cs[i]);
        i = i + 1;
        assert(out@ =~= cs@.take(i as int));
    }
    out
}

impl AgentTable {
    pub closed spec fn view(&self) -> Map<u128, AgentView> {
        table_of(self.agents@)
    }

    #[verifier::type_invariant]
    closed spec fn inv(&self) -> bool {
        &&& ids_unique(self.agents@)
        &&& forall|i: int| 0 <= i < self.agents@.len() ==> (#[trigger] self.agents@[i]).heartbeat_counter < HEARTBEATS_PER_SAVE
    }

    pub fn new() -> (r: Self)
        ensures
            r.view() == Map::<u128, AgentView>::empty(),
    {
        let r = AgentTable { agents: Vec::new() };
        assert(table_of(r.agents@) =~= Map::<u128, AgentView>::empty());
        r
    }

    fn position(&self, id: u128) -> (r: Option<usize>)
        ensures
            match r {
                Some(i) => i < self.agents@.len() && self.agents@[i as int].id == id,
                None => !has_id(self.agents@, id),
            },
    {
        let mut i: usize = 0;
        while i < self.agents.len()
            invariant
                i <= self.agents@.len(),
                forall|j: int| 0 <= j < i ==> (#[trigger] self.agents@[j]).id != id,
            decreases self.agents@.len() - i,
        {
            if self.agents[i].id == id {
                return Some(i);
            }
            i = i + 1;
        }
        None
    }

    /// The record of an agent.
    pub fn get(&self, id: u128) -> (r: Option<&AgentRecord>)
        ensures
            match r {
                Some(a) => self.view().contains_key(id) && self.view()[id] == a@ && a.id == id,
                None => !self.view().contains_key(id),
            },
    {
        proof {
            use_type_invariant(self);
        }
        match self.position(id) {
            Some(i) => {
                proof {
                    lemma_index(self.agents@, i as int);
                }
                Some(&self.agents[i])
            },
            None => None,
        }
    }

    /// The number of known agents.
    pub fn len(&self) -> (r: usize)
        ensures
            r == self.view().dom().len(),
            self.view().dom().finite(),
    {
        proof {
            use_type_invariant(self);
            self.lemma_len();
        }
        self.agents.len()
    }

    proof fn lemma_len(&self)
        requires
            ids_unique(self.agents@),
        ensures
            self.view().dom().finite(),
            self.view().dom().len() == self.agents@.len(),
    {
        let ids = self.agents@.map_values(|a: AgentRecord| a.id);
        assert(ids.no_duplicates()) by {
            assert forall|a: int, b: int| 0 <= a < ids.len() && 0 <= b < ids.len() && a != b implies ids[a] != ids[b] by {
                assert(ids[a] == self.agents@[a].id);
                assert(ids[b] == self.agents@[b].id);
            }
        }
        assert forall|id: u128| #[trigger] self.view().dom().contains(id) <==> ids.to_set().contains(id) by {
            if self.view().dom().contains(id) {
                let j = choose|j: int| 0 <= j < self.agents@.len() && (#[trigger] self.agents@[j]).id == id;
                assert(ids[j] == id);
            }
            if ids.to_set().contains(id) {
                let j = choose|j: int| 0 <= j < ids.len() && ids[j] == id;
                assert(self.agents@[j].id == id);
            }
        }
        assert(self.view().dom() =~= ids.to_set());
        ids.unique_seq_to_set();
        vstd::seq_lib::seq_to_set_is_finite(ids);
    }

    /// Registers a connected agent, replacing any earlier record of it; the
    /// heartbeat counter of an earlier record is kept.
    pub fn connect(&mut self, id: u128, hostname: String, os: OsKind, arch: ArchKind, now_ms: u64)
        ensures
            final(self).view() == old(self).view().insert(id, connected_view(hostname@, os, arch, now_ms,
                if old(self).view().contains_key(id) { old(self).view()[id].heartbeat_counter } else { 0 })),
    {
        proof {
            use_type_invariant(&*self);
        }
        let pos = self.position(id);
        let counter = match pos {
            Some(i) => self.agents[i].heartbeat_counter,
            None => 0,
        };
        proof {
            if let Some(i) = pos {
                lemma_index(self.agents@, i as int);
            }
        }
        let rec = AgentRecord {
            id,
            hostname,
            os,
            arch,
            status: NodeStatus::Online,
            active_task_count: 0,
            last_heartbeat_ms: now_ms,
            last_pong_ms: Some(now_ms),
            heartbeat_counter: counter,
            cached_datasets: Vec::new(),
            cached_models: Vec::new(),
        };
        assert(views(rec.cached_datasets@) =~= Seq::<Seq<char>>::empty());
        assert(views(rec.cached_models@) =~= Seq::<Seq<char>>::empty());
        let mut v: Vec<AgentRecord> = Vec::new();
        std::mem::swap(&mut v, &mut self.agents);
        let ghost before = v@;
        match pos {
            Some(i) => {
                v.set(i, rec);
                proof {
                    lemma_update(before, i as int, rec);
                }
            },
            None => {
                v.push(rec);
                proof {
                    lemma_push(before, rec);
                }
            },
        }
        self.agents = v;
    }

    /// Applies a change to one agent's record, if the agent is known.
    fn update_at(&mut self, i: usize, rec: AgentRecord)
        requires
            i < old(self).agents@.len(),
            rec.id == old(self).agents@[i as int].id,
            rec.heartbeat_counter < HEARTBEATS_PER_SAVE,
        ensures
            final(self).view() == old(self).view().insert(rec.id, rec@),
            final(self).agents@ == old(self).agents@.update(i as int, rec),
    {
        proof {
            use_type_invariant(&*self);
        }
        let mut v: Vec<AgentRecord> = Vec::new();
        std::mem::swap(&mut v, &mut self.agents);
        let ghost before = v@;
        proof {
            lemma_update(before, i as int, rec);
        }
        v.set(i, rec);
        self.agents = v;
    }

    fn take_at(&mut self, i: usize) -> (r: AgentRecord)
        requires
            i < old(self).agents@.len(),
        ensures
            r == old(self).agents@[i as int],
            r@ == old(self).view()[r.id],
            old(self).view().contains_key(r.id),
            r.heartbeat_counter < HEARTBEATS_PER_SAVE,
            final(self).view() == old(self).view().remove(r.id),
            final(self).agents@ == old(self).agents@.remove(i as int),
    {
        proof {
            use_type_invariant(&*self);
            lemma_index(self.agents@, i as int);
        }
        let mut v: Vec<AgentRecord> = Vec::new();
        std::mem::swap(&mut v, &mut self.agents);
        let ghost before = v@;
        proof {
            lemma_remove(before, i as int);
            assert forall|k: int| 0 <= k < before.remove(i as int).len() implies (#[trigger] before.remove(i as int)[k]).heartbeat_counter < HEARTBEATS_PER_SAVE by {
                let sk = if k < i { k } else { k + 1 };
                assert(before.remove(i as int)[k] == before[sk]);
            }
        }
        let r = v.remove(i);
        self.agents = v;
        r
    }

    fn put_back(&mut self, i: usize, rec: AgentRecord)
        requires
            i <= old(self).agents@.len(),
            !old(self).view().contains_key(rec.id),
            rec.heartbeat_counter < HEARTBEATS_PER_SAVE,
        ensures
            final(self).view() == old(self).view().insert(rec.id, rec@),
    {
        proof {
            use_type_invariant(&*self);
        }
        let mut v: Vec<AgentRecord> = Vec::new();
        std::mem::swap(&mut v, &mut self.agents);
        let ghost before = v@;
        proof {
            assert(!has_id(before, rec.id));
            lemma_push(before, rec);
        }
        v.push(rec);
        self.agents = v;
    }

    /// Marks an agent offline.
    pub fn mark_offline(&mut self, id: u128)
        ensures
            final(self).view() == if old(self).view().contains_key(id) {
                old(self).view().insert(id, AgentView { status: NodeStatus::Offline, ..old(self).view()[id] })
            } else {
                old(self).view()
            },
    {
        proof {
            use_type_invariant(&*self);
        }
        if let Some(i) = self.position(id) {
            proof {
                lemma_index(self.agents@, i as int);
            }
            let mut rec = self.take_at(i);
            rec.status = NodeStatus::Offline;
            self.put_back(i, rec);
        }
    }

    /// Records a heartbeat: the agent is online and heard from now. Returns
    /// whether this heartbeat is one on which metrics are persisted (every
    /// `HEARTBEATS_PER_SAVE`-th).
    pub fn heartbeat(&mut self, id: u128, now_ms: u64) -> (persist: bool)
        ensures
            !old(self).view().contains_key(id) ==> !persist && final(self).view() == old(self).view(),
            old(self).view().contains_key(id) ==> {
                let a = old(self).view()[id];
                let c = a.heartbeat_counter + 1;
                &&& persist == (c >= HEARTBEATS_PER_SAVE)
                &&& final(self).view() == old(self).view().insert(id, AgentView {
                    status: NodeStatus::Online,
                    last_heartbeat_ms: now_ms,
                    heartbeat_counter: if c >= HEARTBEATS_PER_SAVE { 0 } else { c as u32 },
                    ..a
                })
            },
    {
        proof {
            use_type_invariant(&*self);
        }
        match self.position(id) {
            Some(i) => {
                proof {
                    lemma_index(self.agents@, i as int);
                }
                let mut rec = self.take_at(i);
                rec.status = NodeStatus::Online;
                rec.last_heartbeat_ms = now_ms;
                let c = rec.heartbeat_counter + 1;
                let persist = c >= HEARTBEATS_PER_SAVE;
                rec.heartbeat_counter = if persist { 0 } else { c };
                self.put_back(i, rec);
                persist
            },
            None => false,
        }
    }

    /// Records a pong from an agent.
    pub fn pong(&mut self, id: u128, now_ms: u64)
        ensures
            final(self).view() == if old(self).view().contains_key(id) {
                old(self).view().insert(id, AgentView { last_pong_ms: Some(now_ms), ..old(self).view()[id] })
            } else {
                old(self).view()
            },
    {
        proof {
            use_type_invariant(&*self);
        }
        if let Some(i) = self.position(id) {
            proof {
                lemma_index(self.agents@, i as int);
            }
            let mut rec = self.take_at(i);
            rec.last_pong_ms = Some(now_ms);
            self.put_back(i, rec);
        }
    }

    /// One task of an agent finished: its count drops by one, not below zero.
    pub fn task_finished(&mut self, id: u128)
        ensures
            final(self).view() == if old(self).view().contains_key(id) {
                old(self).view().insert(id, AgentView {
                    active_task_count: if old(self).view()[id].active_task_count > 0 {
                        (old(self).view()[id].active_task_count - 1) as u32
                    } else {
                        0
                    },
                    ..old(self).view()[id]
                })
            } else {
                old(self).view()
            },
    {
        proof {
            use_type_invariant(&*self);
        }
        if let Some(i) = self.position(id) {
            proof {
                lemma_index(self.agents@, i as int);
            }
            let mut rec = self.take_at(i);
            rec.active_task_count = rec.active_task_count.saturating_sub(1);
            self.put_back(i, rec);
        }
    }

    /// All tasks of an agent were accounted for at once.
    pub fn clear_tasks(&mut self, id: u128)
        ensures
            final(self).view() == if old(self).view().contains_key(id) {
                old(self).view().insert(id, AgentView { active_task_count: 0, ..old(self).view()[id] })
            } else {
                old(self).view()
            },
    {
        proof {
            use_type_invariant(&*self);
        }
        if let Some(i) = self.position(id) {
            proof {
                lemma_index(self.agents@, i as int);
            }
            let mut rec = self.take_at(i);
            rec.active_task_count = 0;
            self.put_back(i, rec);
        }
    }

    /// A task was sent to an agent. The count cannot pass `u32::MAX`, which
    /// `requires` leaves out.
    pub fn task_assigned(&mut self, id: u128)
        requires
            old(self).view().contains_key(id) ==> old(self).view()[id].active_task_count < u32::MAX,
        ensures
            final(self).view() == if old(self).view().contains_key(id) {
                old(self).view().insert(id, AgentView {
                    active_task_count: (old(self).view()[id].active_task_count + 1) as u32,
                    ..old(self).view()[id]
                })
            } else {
                old(self).view()
            },
    {
        proof {
            use_type_invariant(&*self);
        }
        if let Some(i) = self.position(id) {
            proof {
                lemma_index(self.agents@, i as int);
            }
            let mut rec = self.take_at(i);
            rec.active_task_count = rec.active_task_count + 1;
            self.put_back(i, rec);
        }
    }

    /// Records the datasets and models an agent reports in its cache.
    pub fn set_caches(&mut self, id: u128, datasets: Vec<String>, models: Vec<String>)
        ensures
            final(self).view() == if old(self).view().contains_key(id) {
                old(self).view().insert(id, AgentView {
                    cached_datasets: views(datasets@),
                    cached_models: views(models@),
                    ..old(self).view()[id]
                })
            } else {
                old(self).view()
            },
    {
        proof {
            use_type_invariant(&*self);
        }
        if let Some(i) = self.position(id) {
            proof {
                lemma_index(self.agents@, i as int);
            }
            let mut rec = self.take_at(i);
            rec.cached_datasets = datasets;
            rec.cached_models = models;
            self.put_back(i, rec);
        }
    }
}


proof fn lemma_same_ids(s: Seq<AgentRecord>, t: Seq<AgentRecord>)
    requires
        ids_unique(s),
        s.len() == t.len(),
        forall|i: int| 0 <= i < s.len() ==> (#[trigger] t[i]).id == s[i].id,
    ensures
        ids_unique(t),
        table_of(t).dom() == table_of(s).dom(),
        forall|i: int| 0 <= i < s.len() ==> table_of(t)[#[trigger] s[i].id] == t[i]@,
{
    assert(ids_unique(t)) by {
        assert forall|a: int, b: int| 0 <= a < t.len() && 0 <= b < t.len() && (#[trigger] t[a]).id == (#[trigger] t[b]).id implies a == b by {
            assert(s[a].id == s[b].id);
        }
    }
    assert forall|id: u128| #[trigger] table_of(t).dom().contains(id) == table_of(s).dom().contains(id) by {
        if has_id(s, id) {
            let j = choose|j: int| 0 <= j < s.len() && (#[trigger] s[j]).id == id;
            assert(t[j].id == id);
        }
        if has_id(t, id) {
            let j = choose|j: int| 0 <= j < t.len() && (#[trigger] t[j]).id == id;
            assert(s[j].id == id);
        }
    }
    assert(table_of(t).dom() =~= table_of(s).dom());
    assert forall|i: int| 0 <= i < s.len() implies table_of(t)[#[trigger] s[i].id] == t[i]@ by {
        lemma_index(t, i);
    }
}

/// The ids of the online agents.
pub open spec fn online_ids(table: Map<u128, AgentView>) -> Set<u128> {
    table.dom().filter(|id: u128| table[id].status == NodeStatus::Online)
}

/// The ids of the online agents among the first `i` records, in order.
spec fn online_ids_upto(s: Seq<AgentRecord>, i: int) -> Seq<u128>
    decreases i,
{
    if i <= 0 || i > s.len() {
        Seq::empty()
    } else {
        online_ids_upto(s, i - 1) + (if s[i - 1].status == NodeStatus::Online { seq![s[i - 1].id] } else { Seq::empty() })
    }
}

proof fn lemma_online_ids(s: Seq<AgentRecord>, i: int)
    requires
        ids_unique(s),
        0 <= i <= s.len(),
    ensures
        forall|id: u128| online_ids_upto(s, i).contains(id) <==> exists|j: int| 0 <= j < i && (#[trigger] s[j]).id == id
            && s[j].status == NodeStatus::Online,
        online_ids_upto(s, i).no_duplicates(),
        online_ids_upto(s, i).len() <= i,
    decreases i,
{
    if i > 0 {
        lemma_online_ids(s, i - 1);
        let p = online_ids_upto(s, i - 1);
        let t = online_ids_upto(s, i);
        assert forall|id: u128| t.contains(id) <==> exists|j: int| 0 <= j < i && (#[trigger] s[j]).id == id
            && s[j].status == NodeStatus::Online by {
            if t.contains(id) {
                let q = choose|q: int| 0 <= q < t.len() && t[q] == id;
                if q < p.len() {
                    assert(p[q] == id);
                    assert(p.contains(id));
                } else {
                    assert(s[i - 1].id == id);
                }
            }
            if exists|j: int| 0 <= j < i && (#[trigger] s[j]).id == id && s[j].status == NodeStatus::Online {
                let j = choose|j: int| 0 <= j < i && (#[trigger] s[j]).id == id && s[j].status == NodeStatus::Online;
                if j < i - 1 {
                    assert(p.contains(id));
                    let q = choose|q: int| 0 <= q < p.len() && p[q] == id;
                    assert(t[q] == id);
                } else {
                    assert(t[t.len() - 1] == id);
                }
            }
        }
        assert forall|a: int, b: int| 0 <= a < t.len() && 0 <= b < t.len() && a != b implies t[a] != t[b] by {
            if a < p.len() && b < p.len() {
                assert(t[a] == p[a] && t[b] == p[b]);
            } else if a < p.len() {
                assert(t[a] == p[a]);
                assert(p.contains(p[a]));
                let j = choose|j: int| 0 <= j < i - 1 && (#[trigger] s[j]).id == p[a] && s[j].status == NodeStatus::Online;
                assert(s[j].id == s[i - 1].id ==> j == i - 1);
            } else if b < p.len() {
                assert(t[b] == p[b]);
                assert(p.contains(p[b]));
                let j = choose|j: int| 0 <= j < i - 1 && (#[trigger] s[j]).id == p[b] && s[j].status == NodeStatus::Online;
                assert(s[j].id == s[i - 1].id ==> j == i - 1);
            }
        }
    }
}

/// The ids of the agents at positions from `from` on that the check removes.
spec fn prunable_ids(s: Seq<AgentRecord>, from: int, now_ms: u64) -> Set<u128> {
    Set::new(|id: u128| exists|j: int| from <= j < s.len() && (#[trigger] s[j]).id == id && prunable(s[j]@, now_ms))
}

/// The ids among the given records whose agent went offline in the check.
pub open spec fn newly_offline(old_table: Map<u128, AgentView>, id: u128, now_ms: u64) -> bool {
    old_table.contains_key(id) && old_table[id].status != NodeStatus::Offline
        && checked_status(old_table[id], now_ms) == NodeStatus::Offline
}

impl AgentTable {
    /// Moves every record out of the table, in order.
    fn take_all(&mut self) -> (r: Vec<AgentRecord>)
        ensures
            r@ == old(self).agents@,
            ids_unique(r@),
            forall|i: int| 0 <= i < r@.len() ==> (#[trigger] r@[i]).heartbeat_counter < HEARTBEATS_PER_SAVE,
            final(self).view() == Map::<u128, AgentView>::empty(),
            final(self).agents@.len() == 0,
    {
        proof {
            use_type_invariant(&*self);
        }
        let mut v: Vec<AgentRecord> = Vec::new();
        std::mem::swap(&mut v, &mut self.agents);
        assert(table_of(self.agents@) =~= Map::<u128, AgentView>::empty());
        v
    }

    /// Checks every agent's heartbeat at `now_ms`: one silent for more than
    /// 6 s while online is degraded, one silent for more than 10 s is
    /// offline. Returns the agents that went offline in this check.
    pub fn check_liveness(&mut self, now_ms: u64) -> (r: Vec<u128>)
        ensures
            final(self).view().dom() == old(self).view().dom(),
            forall|id: u128| #[trigger] old(self).view().contains_key(id) ==> final(self).view()[id]
                == (AgentView { status: checked_status(old(self).view()[id], now_ms), ..old(self).view()[id] }),
            forall|id: u128| r@.contains(id) <==> newly_offline(old(self).view(), id, now_ms),
            r@.no_duplicates(),
    {
        let all = self.take_all();
        let ghost s = all@;
        let mut rev: Vec<AgentRecord> = Vec::new();
        let mut src = all;
        while src.len() > 0
            invariant
                src@.len() + rev@.len() == s.len(),
                src@ == s.take(src@.len() as int),
                forall|k: int| 0 <= k < rev@.len() ==> #[trigger] rev@[k] == s[s.len() - 1 - k],
            decreases src@.len(),
        {
            let x = src.pop().unwrap();
            rev.push(x);
            assert(src@ =~= s.take(src@.len() as int));
        }
        let mut out: Vec<AgentRecord> = Vec::new();
        let mut gone: Vec<u128> = Vec::new();
        while rev.len() > 0
            invariant
                ids_unique(s),
                forall|i: int| 0 <= i < s.len() ==> (#[trigger] s[i]).heartbeat_counter < HEARTBEATS_PER_SAVE,
                rev@.len() + out@.len() == s.len(),
                forall|k: int| 0 <= k < rev@.len() ==> #[trigger] rev@[k] == s[s.len() - 1 - k],
                forall|k: int| 0 <= k < out@.len() ==> (#[trigger] out@[k])@
                    == (AgentView { status: checked_status(s[k]@, now_ms), ..s[k]@ }) && out@[k].id == s[k].id
                    && out@[k].heartbeat_counter == s[k].heartbeat_counter,
                forall|id: u128| gone@.contains(id) <==> exists|k: int| 0 <= k < out@.len() && #[trigger] s[k].id == id
                    && s[k].status != NodeStatus::Offline && checked_status(s[k]@, now_ms) == NodeStatus::Offline,
                gone@.no_duplicates(),
            decreases rev@.len(),
        {
            let mut x = rev.pop().unwrap();
            let k = out.len();
            let ghost xk = x;
            assert(xk == s[k as int]);
            let elapsed = if now_ms >= x.last_heartbeat_ms { now_ms - x.last_heartbeat_ms } else { 0 };
            let was_offline = x.status == NodeStatus::Offline;
            if elapsed > DEGRADED_AFTER_MS && x.status == NodeStatus::Online {
                x.status = NodeStatus::Degraded;
            }
            if elapsed > OFFLINE_AFTER_MS && x.status != NodeStatus::Offline {
                x.status = NodeStatus::Offline;
            }
            let ghost g0 = gone@;
            if !was_offline && x.status == NodeStatus::Offline {
                proof {
                    assert forall|q: int| 0 <= q < g0.len() implies g0[q] != xk.id by {
                        assert(g0.contains(g0[q]));
                        let kk = choose|kk: int| 0 <= kk < k && #[trigger] s[kk].id == g0[q]
                            && s[kk].status != NodeStatus::Offline && checked_status(s[kk]@, now_ms) == NodeStatus::Offline;
                        assert(kk != k);
                    }
                }
                gone.push(x.id);
            }
            assert(views(x.cached_datasets@) == xk@.cached_datasets);
            out.push(x);
            proof {
                assert forall|id: u128| gone@.contains(id) <==> exists|kk: int| 0 <= kk < out@.len() && #[trigger] s[kk].id == id
                    && s[kk].status != NodeStatus::Offline && checked_status(s[kk]@, now_ms) == NodeStatus::Offline by {
                    if gone@.contains(id) {
                        if g0.contains(id) {
                        } else {
                            assert(id == xk.id);
                            assert(s[k as int].id == id);
                        }
                    }
                    if exists|kk: int| 0 <= kk < out@.len() && #[trigger] s[kk].id == id
                        && s[kk].status != NodeStatus::Offline && checked_status(s[kk]@, now_ms) == NodeStatus::Offline {
                        let kk = choose|kk: int| 0 <= kk < out@.len() && #[trigger] s[kk].id == id
                            && s[kk].status != NodeStatus::Offline && checked_status(s[kk]@, now_ms) == NodeStatus::Offline;
                        if kk == k {
                            assert(gone@[gone@.len() - 1] == id);
                        } else {
                            assert(g0.contains(id));
                            let q = choose|q: int| 0 <= q < g0.len() && g0[q] == id;
                            assert(gone@[q] == id);
                        }
                    }
                }
            }
        }
        proof {
            lemma_same_ids(s, out@);
            assert forall|i: int| 0 <= i < out@.len() implies (#[trigger] out@[i]).heartbeat_counter < HEARTBEATS_PER_SAVE by {
                assert(out@[i].heartbeat_counter == s[i].heartbeat_counter);
            }
            assert forall|id: u128| #[trigger] table_of(s).contains_key(id) implies table_of(out@)[id]
                == AgentView { status: checked_status(table_of(s)[id], now_ms), ..table_of(s)[id] } by {
                let j = choose|j: int| 0 <= j < s.len() && (#[trigger] s[j]).id == id;
                lemma_index(s, j);
            }
            assert forall|id: u128| gone@.contains(id) <==> newly_offline(table_of(s), id, now_ms) by {
                if gone@.contains(id) {
                    let kk = choose|kk: int| 0 <= kk < out@.len() && #[trigger] s[kk].id == id
                        && s[kk].status != NodeStatus::Offline && checked_status(s[kk]@, now_ms) == NodeStatus::Offline;
                    lemma_index(s, kk);
                }
                if newly_offline(table_of(s), id, now_ms) {
                    let j = choose|j: int| 0 <= j < s.len() && (#[trigger] s[j]).id == id;
                    lemma_index(s, j);
                }
            }
        }
        self.agents = out;
        gone
    }

    /// Forgets the offline agents silent for more than five minutes.
    /// Returns how many were forgotten.
    pub fn prune_offline(&mut self, now_ms: u64) -> (r: Vec<u128>)
        ensures
            forall|id: u128| #[trigger] final(self).view().contains_key(id) <==> old(self).view().contains_key(id)
                && !prunable(old(self).view()[id], now_ms),
            forall|id: u128| #[trigger] final(self).view().contains_key(id) ==> final(self).view()[id] == old(self).view()[id],
            forall|id: u128| r@.contains(id) <==> old(self).view().contains_key(id) && prunable(old(self).view()[id], now_ms),
    {
        proof {
            use_type_invariant(&*self);
        }
        let ghost s0 = self.agents@;
        let ghost m0 = self.view();
        let mut removed: Vec<u128> = Vec::new();
        let mut i: usize = self.agents.len();
        assert(m0.remove_keys(prunable_ids(s0, s0.len() as int, now_ms)) =~= m0);
        while i > 0
            invariant
                ids_unique(s0),
                m0 == table_of(s0),
                i <= s0.len(),
                i <= self.agents@.len(),
                self.agents@.subrange(0, i as int) == s0.subrange(0, i as int),
                self.view() == m0.remove_keys(prunable_ids(s0, i as int, now_ms)),
                forall|id: u128| removed@.contains(id) <==> prunable_ids(s0, i as int, now_ms).contains(id),
            decreases i,
        {
            let ghost before = self.agents@;
            assert(before[i - 1] == s0.subrange(0, i as int)[i - 1]);
            let ghost x = s0[i - 1];
            let prune = {
                let a = &self.agents[i - 1];
                let el = if now_ms >= a.last_heartbeat_ms { now_ms - a.last_heartbeat_ms } else { 0 };
                a.status == NodeStatus::Offline && el / 1000 > PRUNE_AFTER_SECS
            };
            let ghost r0 = removed@;
            if prune {
                let rec = self.take_at(i - 1);
                removed.push(rec.id);
                proof {
                    assert(rec.id == x.id);
                    assert(prunable(x@, now_ms));
                    assert forall|id: u128| removed@.contains(id) <==> prunable_ids(s0, i - 1, now_ms).contains(id) by {
                        if removed@.contains(id) && id != x.id {
                            let q = choose|q: int| 0 <= q < removed@.len() && removed@[q] == id;
                            assert(r0[q] == id);
                            assert(r0.contains(id));
                            assert(prunable_ids(s0, i as int, now_ms).contains(id));
                            let j = choose|j: int| i <= j < s0.len() && (#[trigger] s0[j]).id == id && prunable(s0[j]@, now_ms);
                            assert(i - 1 <= j);
                        }
                        if id == x.id {
                            assert(removed@[removed@.len() - 1] == id);
                            assert(s0[i - 1].id == id);
                        }
                        if prunable_ids(s0, i - 1, now_ms).contains(id) && id != x.id {
                            let j = choose|j: int| i - 1 <= j < s0.len() && (#[trigger] s0[j]).id == id && prunable(s0[j]@, now_ms);
                            assert(j != i - 1);
                            assert(prunable_ids(s0, i as int, now_ms).contains(id));
                            assert(r0.contains(id));
                            let q = choose|q: int| 0 <= q < r0.len() && r0[q] == id;
                            assert(removed@[q] == id);
                        }
                    }
                    assert(self.agents@.subrange(0, i - 1) =~= s0.subrange(0, i - 1)) by {
                        assert forall|k: int| 0 <= k < i - 1 implies self.agents@[k] == s0[k] by {
                            assert(before[k] == s0.subrange(0, i as int)[k]);
                        }
                    }
                    assert(prunable_ids(s0, i - 1, now_ms) =~= prunable_ids(s0, i as int, now_ms).insert(x.id));
                    assert(m0.remove_keys(prunable_ids(s0, i as int, now_ms)).remove(x.id)
                        =~= m0.remove_keys(prunable_ids(s0, i - 1, now_ms)));
                }
            } else {
                proof {
                    assert(self.agents@.subrange(0, i - 1) =~= s0.subrange(0, i - 1)) by {
                        assert forall|k: int| 0 <= k < i - 1 implies self.agents@[k] == s0[k] by {
                            assert(before[k] == s0.subrange(0, i as int)[k]);
                        }
                    }
                    assert forall|id: u128| #[trigger] prunable_ids(s0, i - 1, now_ms).contains(id)
                        implies prunable_ids(s0, i as int, now_ms).contains(id) by {
                        let j = choose|j: int| i - 1 <= j < s0.len() && (#[trigger] s0[j]).id == id && prunable(s0[j]@, now_ms);
                        assert(j != i - 1);
                    }
                    assert(prunable_ids(s0, i - 1, now_ms) =~= prunable_ids(s0, i as int, now_ms));
                }
            }
            i = i - 1;
        }
        proof {
            assert forall|id: u128| prunable_ids(s0, 0, now_ms).contains(id) <==> m0.contains_key(id) && prunable(m0[id], now_ms) by {
                if prunable_ids(s0, 0, now_ms).contains(id) {
                    let j = choose|j: int| 0 <= j < s0.len() && (#[trigger] s0[j]).id == id && prunable(s0[j]@, now_ms);
                    lemma_index(s0, j);
                }
                if m0.contains_key(id) && prunable(m0[id], now_ms) {
                    let j = choose|j: int| 0 <= j < s0.len() && (#[trigger] s0[j]).id == id;
                    lemma_index(s0, j);
                }
            }
        }
        removed
    }

    /// The number of online agents.
    pub fn online_count(&self) -> (r: usize)
        ensures
            r == online_ids(self.view()).len(),
            online_ids(self.view()).finite(),
    {
        proof {
            use_type_invariant(self);
        }
        let mut n: usize = 0;
        let mut i: usize = 0;
        while i < self.agents.len()
            invariant
                ids_unique(self.agents@),
                i <= self.agents@.len(),
                n == online_ids_upto(self.agents@, i as int).len(),
            decreases self.agents@.len() - i,
        {
            proof {
                lemma_online_ids(self.agents@, i as int);
            }
            if self.agents[i].status == NodeStatus::Online {
                n = n + 1;
            }
            i = i + 1;
        }
        proof {
            let t = online_ids_upto(self.agents@, self.agents@.len() as int);
            lemma_online_ids(self.agents@, self.agents@.len() as int);
            assert forall|id: u128| #[trigger] online_ids(self.view()).contains(id) <==> t.to_set().contains(id) by {
                if online_ids(self.view()).contains(id) {
                    let j = choose|j: int| 0 <= j < self.agents@.len() && (#[trigger] self.agents@[j]).id == id;
                    lemma_index(self.agents@, j);
                }
                if t.to_set().contains(id) {
                    let j = choose|j: int| 0 <= j < self.agents@.len() && (#[trigger] self.agents@[j]).id == id
                        && self.agents@[j].status == NodeStatus::Online;
                    lemma_index(self.agents@, j);
                }
            }
            assert(online_ids(self.view()) =~= t.to_set());
            t.unique_seq_to_set();
            vstd::seq_lib::seq_to_set_is_finite(t);
        }
        n
    }

    /// The online agents with their hostnames, in table order.
    pub fn online_agents(&self) -> (r: Vec<(u128, String)>)
        ensures
            forall|k: int| 0 <= k < r@.len() ==> self.view().contains_key(#[trigger] r@[k].0)
                && self.view()[r@[k].0].status == NodeStatus::Online && r@[k].1@ == self.view()[r@[k].0].hostname,
            forall|id: u128| #[trigger] self.view().contains_key(id) && self.view()[id].status == NodeStatus::Online
                ==> exists|k: int| 0 <= k < r@.len() && #[trigger] r@[k].0 == id,
            forall|a: int, b: int| 0 <= a < r@.len() && 0 <= b < r@.len() && a != b ==> r@[a].0 != r@[b].0,
    {
        proof {
            use_type_invariant(self);
        }
        let mut out: Vec<(u128, String)> = Vec::new();
        let ghost mut pos: Seq<int> = Seq::empty();
        let mut i: usize = 0;
        while i < self.agents.len()
            invariant
                ids_unique(self.agents@),
                i <= self.agents@.len(),
                pos.len() == out@.len(),
                forall|k: int| 0 <= k < pos.len() ==> 0 <= #[trigger] pos[k] < i
                    && self.agents@[pos[k]].status == NodeStatus::Online
                    && out@[k].0 == self.agents@[pos[k]].id && out@[k].1@ == self.agents@[pos[k]].hostname@,
                forall|a: int, b: int| 0 <= a < b < pos.len() ==> pos[a] < pos[b],
                forall|j: int| 0 <= j < i && (#[trigger] self.agents@[j]).status == NodeStatus::Online ==> pos.contains(j),
            decreases self.agents@.len() - i,
        {
            let ghost p0 = pos;
            if self.agents[i].status == NodeStatus::Online {
                let h = owned(self.agents[i].hostname.as_str());
                out.push((self.agents[i].id, h));
                proof {
                    pos = pos.push(i as int);
                }
            }
            proof {
                assert forall|j: int| 0 <= j < i + 1 && (#[trigger] self.agents@[j]).status == NodeStatus::Online implies pos.contains(j) by {
                    if j < i {
                        let k = choose|k: int| 0 <= k < p0.len() && p0[k] == j;
                        assert(pos[k] == j);
                    } else {
                        assert(pos[pos.len() - 1] == j);
                    }
                }
            }
            i = i + 1;
        }
        proof {
            assert forall|k: int| 0 <= k < out@.len() implies self.view().contains_key(#[trigger] out@[k].0)
                && self.view()[out@[k].0].status == NodeStatus::Online && out@[k].1@ == self.view()[out@[k].0].hostname by {
                lemma_index(self.agents@, pos[k]);
            }
            assert forall|id: u128| #[trigger] self.view().contains_key(id) && self.view()[id].status == NodeStatus::Online
                implies exists|k: int| 0 <= k < out@.len() && #[trigger] out@[k].0 == id by {
                let j = choose|j: int| 0 <= j < self.agents@.len() && (#[trigger] self.agents@[j]).id == id;
                lemma_index(self.agents@, j);
                let k = choose|k: int| 0 <= k < pos.len() && pos[k] == j;
                assert(out@[k].0 == id);
            }
            assert forall|a: int, b: int| 0 <= a < out@.len() && 0 <= b < out@.len() && a != b implies out@[a].0 != out@[b].0 by {
                assert(pos[a] != pos[b]);
            }
        }
        out
    }
}


impl AgentTable {
    /// Degrades the online agents that have not answered a ping for more
    /// than 30 seconds.
    pub fn check_pongs(&mut self, now_ms: u64)
        ensures
            final(self).view().dom() == old(self).view().dom(),
            forall|id: u128| #[trigger] old(self).view().contains_key(id) ==> final(self).view()[id]
                == (if pong_stale(old(self).view()[id], now_ms) {
                    AgentView { status: NodeStatus::Degraded, ..old(self).view()[id] }
                } else {
                    old(self).view()[id]
                }),
    {
        let all = self.take_all();
        let ghost s = all@;
        let mut rev: Vec<AgentRecord> = Vec::new();
        let mut src = all;
        while src.len() > 0
            invariant
                src@.len() + rev@.len() == s.len(),
                src@ == s.take(src@.len() as int),
                forall|k: int| 0 <= k < rev@.len() ==> #[trigger] rev@[k] == s[s.len() - 1 - k],
            decreases src@.len(),
        {
            let x = src.pop().unwrap();
            rev.push(x);
            assert(src@ =~= s.take(src@.len() as int));
        }
        let mut out: Vec<AgentRecord> = Vec::new();
        while rev.len() > 0
            invariant
                ids_unique(s),
                forall|i: int| 0 <= i < s.len() ==> (#[trigger] s[i]).heartbeat_counter < HEARTBEATS_PER_SAVE,
                rev@.len() + out@.len() == s.len(),
                forall|k: int| 0 <= k < rev@.len() ==> #[trigger] rev@[k] == s[s.len() - 1 - k],
                forall|k: int| 0 <= k < out@.len() ==> (#[trigger] out@[k])@
                    == (if pong_stale(s[k]@, now_ms) { AgentView { status: NodeStatus::Degraded, ..s[k]@ } } else { s[k]@ })
                    && out@[k].id == s[k].id && out@[k].heartbeat_counter == s[k].heartbeat_counter,
            decreases rev@.len(),
        {
            let mut x = rev.pop().unwrap();
            let ghost xk = x;
            assert(xk == s[out@.len() as int]);
            if x.status == NodeStatus::Online {
                if let Some(t) = x.last_pong_ms {
                    let el = if now_ms >= t { now_ms - t } else { 0 };
                    if el / 1000 > PONG_TIMEOUT_SECS {
                        x.status = NodeStatus::Degraded;
                    }
                }
            }
            out.push(x);
        }
        proof {
            lemma_same_ids(s, out@);
            assert forall|i: int| 0 <= i < out@.len() implies (#[trigger] out@[i]).heartbeat_counter < HEARTBEATS_PER_SAVE by {
                assert(out@[i].heartbeat_counter == s[i].heartbeat_counter);
            }
            assert forall|id: u128| #[trigger] table_of(s).contains_key(id) implies table_of(out@)[id]
                == (if pong_stale(table_of(s)[id], now_ms) {
                    AgentView { status: NodeStatus::Degraded, ..table_of(s)[id] }
                } else {
                    table_of(s)[id]
                }) by {
                let j = choose|j: int| 0 <= j < s.len() && (#[trigger] s[j]).id == id;
                lemma_index(s, j);
            }
        }
        self.agents = out;
    }

    /// Whether some online agent has no task.
    pub fn has_idle_online(&self) -> (r: bool)
        ensures
            r == exists|id: u128| #[trigger] self.view().contains_key(id) && self.view()[id].status == NodeStatus::Online
                && self.view()[id].active_task_count == 0,
    {
        proof {
            use_type_invariant(self);
        }
        let mut i: usize = 0;
        while i < self.agents.len()
            invariant
                ids_unique(self.agents@),
                i <= self.agents@.len(),
                forall|j: int| 0 <= j < i ==> !((#[trigger] self.agents@[j]).status == NodeStatus::Online
                    && self.agents@[j].active_task_count == 0),
            decreases self.agents@.len() - i,
        {
            if self.agents[i].status == NodeStatus::Online && self.agents[i].active_task_count == 0 {
                proof {
                    lemma_index(self.agents@, i as int);
                }
                return true;
            }
            i = i + 1;
        }
        proof {
            if exists|id: u128| #[trigger] self.view().contains_key(id) && self.view()[id].status == NodeStatus::Online
                && self.view()[id].active_task_count == 0 {
                let id = choose|id: u128| #[trigger] self.view().contains_key(id) && self.view()[id].status == NodeStatus::Online
                    && self.view()[id].active_task_count == 0;
                let j = choose|j: int| 0 <= j < self.agents@.len() && (#[trigger] self.agents@[j]).id == id;
                lemma_index(self.agents@, j);
            }
        }
        false
    }

    /// The agent with the most tasks, if it has at least `OVERLOADED_TASKS`.
    pub fn most_overloaded(&self) -> (r: Option<u128>)
        ensures
            r is None <==> forall|id: u128| #[trigger] self.view().contains_key(id)
                ==> self.view()[id].active_task_count < OVERLOADED_TASKS,
            r matches Some(b) ==> self.view().contains_key(b) && self.view()[b].active_task_count >= OVERLOADED_TASKS
                && forall|id: u128| #[trigger] self.view().contains_key(id)
                    ==> self.view()[id].active_task_count <= self.view()[b].active_task_count,
    {
        proof {
            use_type_invariant(self);
        }
        let mut best: Option<usize> = None;
        let mut i: usize = 0;
        while i < self.agents.len()
            invariant
                ids_unique(self.agents@),
                i <= self.agents@.len(),
                match best {
                    Some(b) => b < i && self.agents@[b as int].active_task_count >= OVERLOADED_TASKS
                        && forall|j: int| 0 <= j < i ==> (#[trigger] self.agents@[j]).active_task_count
                            <= self.agents@[b as int].active_task_count,
                    None => forall|j: int| 0 <= j < i ==> (#[trigger] self.agents@[j]).active_task_count < OVERLOADED_TASKS,
                },
            decreases self.agents@.len() - i,
        {
            let c = self.agents[i].active_task_count;
            if c >= OVERLOADED_TASKS {
                match best {
                    Some(b) => {
                        if c >= self.agents[b].active_task_count {
                            best = Some(i);
                        }
                    },
                    None => {
                        best = Some(i);
                    },
                }
            }
            i = i + 1;
        }
        match best {
            Some(b) => {
                proof {
                    lemma_index(self.agents@, b as int);
                    assert forall|id: u128| #[trigger] self.view().contains_key(id)
                        implies self.view()[id].active_task_count <= self.view()[self.agents@[b as int].id].active_task_count by {
                        let j = choose|j: int| 0 <= j < self.agents@.len() && (#[trigger] self.agents@[j]).id == id;
                        lemma_index(self.agents@, j);
                    }
                }
                Some(self.agents[b].id)
            },
            None => {
                proof {
                    assert forall|id: u128| #[trigger] self.view().contains_key(id)
                        implies self.view()[id].active_task_count < OVERLOADED_TASKS by {
                        let j = choose|j: int| 0 <= j < self.agents@.len() && (#[trigger] self.agents@[j]).id == id;
                        lemma_index(self.agents@, j);
                    }
                }
                None
            },
        }
    }

    /// An agent whose id starts with the prefix as typed, if any does.
    pub fn find_first_by_prefix(&self, prefix: &str) -> (r: Option<u128>)
        ensures
            match r {
                Some(id) => self.view().contains_key(id) && seq_starts_with(uuid_text(id), prefix@),
                None => forall|id: u128| #[trigger] self.view().contains_key(id) ==> !seq_starts_with(uuid_text(id), prefix@),
            },
    {
        proof {
            use_type_invariant(self);
        }
        let mut i: usize = 0;
        while i < self.agents.len()
            invariant
                ids_unique(self.agents@),
                i <= self.agents@.len(),
                forall|j: int| 0 <= j < i ==> !seq_starts_with(uuid_text((#[trigger] self.agents@[j]).id), prefix@),
            decreases self.agents@.len() - i,
        {
            let text = uuid_to_string(self.agents[i].id);
            if str_starts_with(text.as_str(), prefix) {
                proof {
                    lemma_index(self.agents@, i as int);
                }
                return Some(self.agents[i].id);
            }
            i = i + 1;
        }
        proof {
            assert forall|id: u128| #[trigger] self.view().contains_key(id) implies !seq_starts_with(uuid_text(id), prefix@) by {
                let j = choose|j: int| 0 <= j < self.agents@.len() && (#[trigger] self.agents@[j]).id == id;
            }
        }
        None
    }

    /// The agent whose id starts with the (lower-cased) prefix, when exactly
    /// one does.
    pub fn find_by_prefix(&self, prefix: &str) -> (r: Option<u128>)
        ensures
            match r {
                Some(id) => self.view().contains_key(id) && seq_starts_with(uuid_text(id), lowercase_of(prefix@))
                    && forall|o: u128| #[trigger] self.view().contains_key(o) && seq_starts_with(uuid_text(o), lowercase_of(prefix@)) ==> o == id,
                None => !(exists|id: u128| #[trigger] self.view().contains_key(id) && seq_starts_with(uuid_text(id), lowercase_of(prefix@))
                    && forall|o: u128| #[trigger] self.view().contains_key(o) && seq_starts_with(uuid_text(o), lowercase_of(prefix@)) ==> o == id),
            },
    {
        proof {
            use_type_invariant(self);
        }
        let lower = to_lowercase(prefix);
        let mut found: Option<usize> = None;
        let mut count: usize = 0;
        let mut i: usize = 0;
        while i < self.agents.len()
            invariant
                ids_unique(self.agents@),
                lower@ == lowercase_of(prefix@),
                i <= self.agents@.len(),
                count <= i,
                count == 0 <==> found is None,
                found matches Some(f) ==> f < i && seq_starts_with(uuid_text(self.agents@[f as int].id), lower@),
                count == 0 ==> forall|j: int| 0 <= j < i ==> !seq_starts_with(uuid_text((#[trigger] self.agents@[j]).id), lower@),
                count == 1 ==> forall|j: int| 0 <= j < i && seq_starts_with(uuid_text((#[trigger] self.agents@[j]).id), lower@)
                    ==> j == found.unwrap(),
                count >= 2 ==> exists|a: int, b: int| 0 <= a < b < i && seq_starts_with(uuid_text((#[trigger] self.agents@[a]).id), lower@)
                    && seq_starts_with(uuid_text((#[trigger] self.agents@[b]).id), lower@),
            decreases self.agents@.len() - i,
        {
            let text = uuid_to_string(self.agents[i].id);
            if str_starts_with(text.as_str(), lower.as_str()) {
                if count >= 1 {
                    proof {
                        if count == 1 {
                            let f = found.unwrap() as int;
                            assert(seq_starts_with(uuid_text(self.agents@[f].id), lower@));
                            assert(0 <= f < i);
                        }
                    }
                    count = 2;
                } else {
                    count = 1;
                    found = Some(i);
                }
            }
            i = i + 1;
        }
        if count == 1 {
            let f = found.unwrap();
            proof {
                lemma_index(self.agents@, f as int);
                assert forall|o: u128| #[trigger] self.view().contains_key(o) && seq_starts_with(uuid_text(o), lowercase_of(prefix@))
                    implies o == self.agents@[f as int].id by {
                    let j = choose|j: int| 0 <= j < self.agents@.len() && (#[trigger] self.agents@[j]).id == o;
                    lemma_index(self.agents@, j);
                }
            }
            return Some(self.agents[f].id);
        }
        proof {
            if count >= 2 {
                let (a, b) = choose|a: int, b: int| 0 <= a < b < i && seq_starts_with(uuid_text((#[trigger] self.agents@[a]).id), lower@)
                    && seq_starts_with(uuid_text((#[trigger] self.agents@[b]).id), lower@);
                lemma_index(self.agents@, a);
                lemma_index(self.agents@, b);
                assert(self.agents@[a].id != self.agents@[b].id);
            } else {
                assert forall|id: u128| #[trigger] self.view().contains_key(id) implies !seq_starts_with(uuid_text(id), lowercase_of(prefix@)) by {
                    let j = choose|j: int| 0 <= j < self.agents@.len() && (#[trigger] self.agents@[j]).id == id;
                }
            }
        }
        None
    }
}


/// Without a heartbeat an agent's status only worsens: a liveness check
/// never brings an agent back online, never revives an offline one, and
/// checking twice at the same time changes nothing more.
pub proof fn lemma_liveness_only_worsens(a: AgentView, now_ms: u64)
    ensures
        checked_status(a, now_ms) == NodeStatus::Online ==> a.status == NodeStatus::Online,
        a.status == NodeStatus::Offline ==> checked_status(a, now_ms) == NodeStatus::Offline,
        checked_status(AgentView { status: checked_status(a, now_ms), ..a }, now_ms) == checked_status(a, now_ms),
{
}

/// A heartbeat brings a known agent back online, whatever its status was,
/// and a liveness check at the time of that heartbeat keeps it online.
pub proof fn lemma_heartbeat_revives(a: AgentView, now_ms: u64)
    ensures
        checked_status(AgentView { status: NodeStatus::Online, last_heartbeat_ms: now_ms, ..a }, now_ms) == NodeStatus::Online,
{
}

} // verus!
