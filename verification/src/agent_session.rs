//! An agent's side of its session with the coordinator: suspecting a
//! network partition when pings stop, which tasks it refuses, what it tells
//! the coordinator of its caches and of the tasks it was assigned, and when
//! it gives up an address and looks for the coordinator again.
use vstd::prelude::*;
use crate::text::{owned, push_str, str_eq, views};
use crate::types::BatteryInfo;
use crate::agent::should_throttle;
use crate::numparse::{decimal_string, decimal_text};

verus! {

/// Seconds without a ping after which the agent suspects a partition.
pub const PARTITION_AFTER_SECS: u64 = 30;

/// What a task names that the agent may keep cached.
pub enum CacheUse {
    Train { dataset: String },
    Finetune { dataset: String, base_model: String },
    Evaluate { model: String, dataset: String },
    Preprocess { input: String },
    Other,
}

/// The agent's view of its session.
pub struct AgentSession {
    /// When the coordinator last pinged, in milliseconds of a monotonic clock.
    last_ping_ms: u64,
    partition_suspected: bool,
    datasets: Vec<String>,
    models: Vec<String>,
}

/// No name occurs twice.
pub open spec fn distinct(s: Seq<Seq<char>>) -> bool {
    forall|i: int, j: int| 0 <= i < s.len() && 0 <= j < s.len() && i != j ==> s[i] != s[j]
}

/// A set after a name is added, unless the name is empty.
pub open spec fn noted(s: Set<Seq<char>>, name: Seq<char>) -> Set<Seq<char>> {
    if name.len() > 0 { s.insert(name) } else { s }
}

/// The datasets a task names.
pub open spec fn datasets_of(u: CacheUse) -> Seq<Seq<char>> {
    match u {
        CacheUse::Train { dataset } => seq![dataset@],
        CacheUse::Finetune { dataset, .. } => seq![dataset@],
        CacheUse::Evaluate { dataset, .. } => seq![dataset@],
        CacheUse::Preprocess { input } => seq![input@],
        CacheUse::Other => Seq::empty(),
    }
}

/// The models a task names.
pub open spec fn models_of(u: CacheUse) -> Seq<Seq<char>> {
    match u {
        CacheUse::Finetune { base_model, .. } => seq![base_model@],
        CacheUse::Evaluate { model, .. } => seq![model@],
        _ => Seq::empty(),
    }
}

pub open spec fn noted_all(s: Set<Seq<char>>, names: Seq<Seq<char>>) -> Set<Seq<char>>
    decreases names.len(),
{
    if names.len() == 0 { s } else { noted(noted_all(s, names.drop_last()), names.last()) }
}

/// Seconds since the last ping, or zero for a clock that went back.
pub open spec fn silent_secs(last_ms: u64, now_ms: u64) -> int {
    (if now_ms >= last_ms { now_ms - last_ms } else { 0 }) / 1000
}

fn add_name(v: &mut Vec<String>, name: &str)
    requires
        distinct(views(old(v)@)),
    ensures
        distinct(views(final(v)@)),
        views(final(v)@).to_set() == noted(views(old(v)@).to_set(), name@),
{
    if name.unicode_len() == 0 {
        return;
    }
    let mut i: usize = 0;
    while i < v.len()
        invariant
            i <= v@.len(),
            v@ == old(v)@,
            distinct(views(v@)),
            forall|k: int| 0 <= k < i ==> (#[trigger] v@[k])@ != name@,
        decreases v@.len() - i,
    {
        if str_eq(v[i].as_str(), name) {
            proof {
                assert(views(v@)[i as int] == name@);
                assert(views(v@).to_set().insert(name@) =~= views(v@).to_set());
            }
            return;
        }
        i = i + 1;
    }
    let ghost before = views(v@);
    v.push(owned(name));
    proof {
        assert(views(v@) =~= before.push(name@));
        before.lemma_push_to_set_commute(name@);
        assert forall|a: int, b: int| 0 <= a < views(v@).len() && 0 <= b < views(v@).len() && a != b
            implies views(v@)[a] != views(v@)[b] by {
            if a < before.len() && b < before.len() {
            } else if a < before.len() {
                assert(views(v@)[a] == v@[a]@);
            } else {
                assert(views(v@)[b] == v@[b]@);
            }
        }
    }
}

impl AgentSession {
    /// When the coordinator last pinged.
    pub closed spec fn spec_last_ping(&self) -> u64 {
        self.last_ping_ms
    }

    /// Whether a partition is suspected.
    pub closed spec fn spec_suspected(&self) -> bool {
        self.partition_suspected
    }

    /// Whether a partition is suspected.
    pub fn partition_suspected(&self) -> (r: bool)
        ensures
            r == self.spec_suspected(),
    {
        self.partition_suspected
    }

    /// The datasets used by the tasks accepted so far.
    pub closed spec fn spec_datasets(&self) -> Set<Seq<char>> {
        views(self.datasets@).to_set()
    }

    /// The models used by the tasks accepted so far.
    pub closed spec fn spec_models(&self) -> Set<Seq<char>> {
        views(self.models@).to_set()
    }

    #[verifier::type_invariant]
    closed spec fn inv(&self) -> bool {
        distinct(views(self.datasets@)) && distinct(views(self.models@))
    }

    /// A session opened at `now_ms`: no partition suspected, nothing cached.
    pub fn new(now_ms: u64) -> (r: Self)
        ensures
            r.spec_last_ping() == now_ms,
            !r.spec_suspected(),
            r.spec_datasets() == Set::<Seq<char>>::empty(),
            r.spec_models() == Set::<Seq<char>>::empty(),
    {
        let r = AgentSession { last_ping_ms: now_ms, partition_suspected: false, datasets: Vec::new(), models: Vec::new() };
        assert(views(r.datasets@).to_set() =~= Set::<Seq<char>>::empty());
        assert(views(r.models@).to_set() =~= Set::<Seq<char>>::empty());
        r
    }

    /// A ping arrived: it is recorded and any suspected partition is over.
    /// The pong carries the ping's sequence number.
    pub fn on_ping(&mut self, seq: u64, now_ms: u64) -> (pong: u64)
        ensures
            pong == seq,
            final(self).spec_last_ping() == now_ms,
            !final(self).spec_suspected(),
            final(self).spec_datasets() == old(self).spec_datasets(),
            final(self).spec_models() == old(self).spec_models(),
    {
        proof {
            use_type_invariant(&*self);
        }
        self.last_ping_ms = now_ms;
        self.partition_suspected = false;
        seq
    }

    /// The periodic check: a partition is suspected once no ping came for
    /// more than `PARTITION_AFTER_SECS`. True when it is newly suspected.
    pub fn check_partition(&mut self, now_ms: u64) -> (newly: bool)
        ensures
            newly == (!old(self).spec_suspected() && silent_secs(old(self).spec_last_ping(), now_ms) > PARTITION_AFTER_SECS),
            final(self).spec_suspected() == (old(self).spec_suspected() || newly),
            final(self).spec_last_ping() == old(self).spec_last_ping(),
            final(self).spec_datasets() == old(self).spec_datasets(),
            final(self).spec_models() == old(self).spec_models(),
    {
        proof {
            use_type_invariant(&*self);
        }
        let elapsed = if now_ms >= self.last_ping_ms { now_ms - self.last_ping_ms } else { 0 };
        if elapsed / 1000 > PARTITION_AFTER_SECS && !self.partition_suspected {
            self.partition_suspected = true;
            true
        } else {
            false
        }
    }

    /// Why a submitted task is refused, if it is: a suspected partition, or
    /// a battery below `battery_limit` while not charging (when a limit is set).
    pub fn screen_task(&self, battery: Option<BatteryInfo>, battery_limit: u8) -> (r: Option<String>)
        ensures
            self.spec_suspected() ==> (r matches Some(m) && m@ == "Partition suspected, rejecting task"@),
            !self.spec_suspected() ==> match battery {
                Some(b) => if battery_limit > 0 && !b.charging && b.level_pct < battery_limit {
                    (r matches Some(m) && m@ == "Battery too low: "@ + decimal_text(b.level_pct as nat) + "%"@)
                } else {
                    r is None
                },
                None => r is None,
            },
    {
        if self.partition_suspected {
            return Some(owned("Partition suspected, rejecting task"));
        }
        if battery_limit > 0 {
            if let Some(b) = battery {
                if should_throttle(&b, battery_limit) {
                    let mut m = owned("Battery too low: ");
                    let n = decimal_string(b.level_pct as u64);
                    push_str(&mut m, n.as_str());
                    push_str(&mut m, "%");
                    return Some(m);
                }
            }
        }
        None
    }

    /// Notes the datasets and models an accepted task uses; empty names are
    /// not noted.
    pub fn note_cache(&mut self, u: CacheUse)
        ensures
            final(self).spec_datasets() == noted_all(old(self).spec_datasets(), datasets_of(u)),
            final(self).spec_models() == noted_all(old(self).spec_models(), models_of(u)),
            final(self).spec_last_ping() == old(self).spec_last_ping(),
            final(self).spec_suspected() == old(self).spec_suspected(),
    {
        proof {
            use_type_invariant(&*self);
        }
        let ghost d0 = self.spec_datasets();
        let ghost m0 = self.spec_models();
        let mut ds: Vec<String> = Vec::new();
        let mut ms: Vec<String> = Vec::new();
        std::mem::swap(&mut ds, &mut self.datasets);
        std::mem::swap(&mut ms, &mut self.models);
        match u {
            CacheUse::Train { dataset } => {
                add_name(&mut ds, dataset.as_str());
            },
            CacheUse::Finetune { dataset, base_model } => {
                add_name(&mut ds, dataset.as_str());
                add_name(&mut ms, base_model.as_str());
            },
            CacheUse::Evaluate { model, dataset } => {
                add_name(&mut ms, model.as_str());
                add_name(&mut ds, dataset.as_str());
            },
            CacheUse::Preprocess { input } => {
                add_name(&mut ds, input.as_str());
            },
            CacheUse::Other => {},
        }
        proof {
            lemma_noted_one(d0, datasets_of(u));
            lemma_noted_one(m0, models_of(u));
        }
        self.datasets = ds;
        self.models = ms;
    }

    /// The cache report: the datasets and models noted, each once, when there
    /// is any.
    pub fn cache_report(&self) -> (r: Option<(Vec<String>, Vec<String>)>)
        ensures
            r is None <==> (self.spec_datasets().len() == 0 && self.spec_models().len() == 0),
            r matches Some((d, m)) ==> views(d@).to_set() == self.spec_datasets()
                && views(m@).to_set() == self.spec_models(),
            r matches Some((d, m)) ==> distinct(views(d@)) && distinct(views(m@)),
    {
        proof {
            use_type_invariant(self);
            lemma_distinct_len(views(self.datasets@));
            lemma_distinct_len(views(self.models@));
        }
        if self.datasets.len() == 0 && self.models.len() == 0 {
            return None;
        }
        Some((clone_names(&self.datasets), clone_names(&self.models)))
    }
}

proof fn lemma_noted_one(s: Set<Seq<char>>, names: Seq<Seq<char>>)
    requires
        names.len() <= 1,
    ensures
        noted_all(s, names) == if names.len() == 1 { noted(s, names[0]) } else { s },
{
    if names.len() == 1 {
        assert(names.drop_last() =~= Seq::<Seq<char>>::empty());
        assert(noted_all(s, names.drop_last()) == s);
    }
}

proof fn lemma_distinct_len(s: Seq<Seq<char>>)
    requires
        distinct(s),
    ensures
        s.to_set().len() == s.len(),
        s.to_set().finite(),
{
    assert(s.no_duplicates());
    s.unique_seq_to_set();
    vstd::seq_lib::seq_to_set_is_finite(s);
}

fn clone_names(v: &Vec<String>) -> (r: Vec<String>)
    ensures
        views(r@) == views(v@),
{
    let mut r: Vec<String> = Vec::new();
    let mut i: usize = 0;
    while i < v.len()
        invariant
            i <= v@.len(),
            views(r@) == views(v@).take(i as int),
        decreases v@.len() - i,
    {
        let ghost before = r@;
        r.push(owned(v[i].as_str()));
        proof {
            assert(views(r@) =~= views(before).push(v@[i as int]@));
            assert(views(v@).take(i + 1) =~= views(v@).take(i as int).push(views(v@)[i as int]));
        }
        i = i + 1;
    }
    assert(views(v@).take(v@.len() as int) =~= views(v@));
    r
}

/// The answer to a state sync: of the tasks the coordinator assigned, those
/// running here, and the others, unknown here; none is reported completed.
pub fn state_sync_answer(assigned: &Vec<u128>, running_here: &Vec<u128>) -> (r: (Vec<u128>, Vec<u128>, Vec<u128>))
    ensures
        r.0@ == assigned@.filter(|t: u128| running_here@.contains(t)),
        r.1@.len() == 0,
        r.2@ == assigned@.filter(|t: u128| !running_here@.contains(t)),
{
    let mut running: Vec<u128> = Vec::new();
    let mut unknown: Vec<u128> = Vec::new();
    let mut i: usize = 0;
    while i < assigned.len()
        invariant
            i <= assigned@.len(),
            running@ == assigned@.take(i as int).filter(|t: u128| running_here@.contains(t)),
            unknown@ == assigned@.take(i as int).filter(|t: u128| !running_here@.contains(t)),
        decreases assigned@.len() - i,
    {
        let t = assigned[i];
        proof {
            assert(assigned@.take(i + 1).drop_last() =~= assigned@.take(i as int));
            assert(assigned@.take(i + 1).last() == t);
            assert(assigned@.take(i + 1) =~= assigned@.take(i as int).push(t));
            assigned@.take(i as int).lemma_filter_push(t, |t: u128| running_here@.contains(t));
            assigned@.take(i as int).lemma_filter_push(t, |t: u128| !running_here@.contains(t));
        }
        if contains_task(running_here, t) {
            running.push(t);
        } else {
            unknown.push(t);
        }
        i = i + 1;
    }
    proof {
        assert(assigned@.take(assigned@.len() as int) =~= assigned@);
    }
    (running, Vec::new(), unknown)
}

fn contains_task(v: &Vec<u128>, t: u128) -> (r: bool)
    ensures
        r == v@.contains(t),
{
    let mut i: usize = 0;
    while i < v.len()
        invariant
            i <= v@.len(),
            forall|k: int| 0 <= k < i ==> v@[k] != t,
        decreases v@.len() - i,
    {
        if v[i] == t {
            assert(v@[i as int] == t);
            return true;
        }
        i = i + 1;
    }
    false
}

/// Connection attempts to a coordinator.
pub struct Reconnect {
    pub retry_count: u32,
}

impl Reconnect {
    pub fn new() -> (r: Self)
        ensures
            r.retry_count == 0,
    {
        Reconnect { retry_count: 0 }
    }

    /// A connection succeeded: the count starts over.
    pub fn connected(&mut self)
        ensures
            final(self).retry_count == 0,
    {
        self.retry_count = 0;
    }

    /// A connection failed. After `max_retries` failures in a row on an
    /// address that was given rather than discovered, the agent goes back
    /// to discovery (true) and the count starts over. (The count stops at
    /// `u32::MAX`.)
    pub fn failed(&mut self, max_retries: u32, address_given: bool) -> (rediscover: bool)
        ensures
            ({
                let c: u32 = if old(self).retry_count < u32::MAX { (old(self).retry_count + 1) as u32 } else { u32::MAX };
                &&& rediscover == (c >= max_retries && address_given)
                &&& final(self).retry_count == if rediscover { 0 } else { c }
            }),
    {
        self.retry_count = self.retry_count.saturating_add(1);
        if self.retry_count >= max_retries && address_given {
            self.retry_count = 0;
            true
        } else {
            false
        }
    }
}


/// A state sync answers every assigned task exactly once: as running when
/// it runs here, as unknown otherwise; together the two lists hold the
/// assigned tasks, each as often as it was assigned.
pub proof fn lemma_sync_answer_partitions(assigned: Seq<u128>, running_here: Seq<u128>)
    ensures
        assigned.filter(|t: u128| running_here.contains(t)).to_multiset().add(
            assigned.filter(|t: u128| !running_here.contains(t)).to_multiset()) == assigned.to_multiset(),
    decreases assigned.len(),
{
    let p = |t: u128| running_here.contains(t);
    let q = |t: u128| !running_here.contains(t);
    if assigned.len() == 0 {
        assert(assigned.filter(p) =~= Seq::<u128>::empty());
        assert(assigned.filter(q) =~= Seq::<u128>::empty());
        assigned.to_multiset_ensures();
        assigned.filter(p).to_multiset_ensures();
        assigned.filter(q).to_multiset_ensures();
        vstd::multiset::lemma_multiset_empty_len(assigned.to_multiset());
        vstd::multiset::lemma_multiset_empty_len(assigned.filter(p).to_multiset());
        vstd::multiset::lemma_multiset_empty_len(assigned.filter(q).to_multiset());
        assert(assigned.filter(p).to_multiset().add(assigned.filter(q).to_multiset()) =~= assigned.to_multiset());
    } else {
        let d = assigned.drop_last();
        let t = assigned.last();
        lemma_sync_answer_partitions(d, running_here);
        assert(assigned =~= d.push(t));
        d.lemma_filter_push(t, p);
        d.lemma_filter_push(t, q);
        d.to_multiset_ensures();
        d.filter(p).to_multiset_ensures();
        d.filter(q).to_multiset_ensures();
        assert(assigned.filter(p).to_multiset().add(assigned.filter(q).to_multiset())
            =~= d.filter(p).to_multiset().add(d.filter(q).to_multiset()).insert(t));
    }
}

} // verus!
