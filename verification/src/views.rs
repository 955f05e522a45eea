//! State of the client's views that outlives a frame: the node log of the
//! info view and the leader-lease status.
use vstd::prelude::*;

verus! {

/// The number of log lines the info view keeps.
pub const MAX_LOG_LINES: usize = 10_000;

/// Info view state — read-only dashboard for a node (info, tasks, logs).
pub struct InfoState {
    pub log_lines: Vec<String>,
    pub active: bool,
}

/// The last `n` lines of a log, or all of them when there are fewer.
pub open spec fn keep_last(s: Seq<Seq<char>>, n: nat) -> Seq<Seq<char>> {
    if s.len() > n { s.skip(s.len() - n) } else { s }
}

impl InfoState {
    pub fn new() -> (r: Self)
        ensures
            r.log_lines@.len() == 0,
            r.active,
    {
        InfoState { log_lines: Vec::new(), active: true }
    }

    /// Appends a line, dropping the oldest ones beyond `MAX_LOG_LINES`.
    pub fn append_log(&mut self, line: String)
        ensures
            crate::text::views(final(self).log_lines@)
                == keep_last(crate::text::views(old(self).log_lines@).push(line@), MAX_LOG_LINES as nat),
            final(self).active == old(self).active,
    {
        let ghost before = crate::text::views(self.log_lines@).push(line@);
        self.log_lines.push(line);
        assert(crate::text::views(self.log_lines@) =~= before);
        if self.log_lines.len() > MAX_LOG_LINES {
            let drain = self.log_lines.len() - MAX_LOG_LINES;
            let mut kept: Vec<String> = Vec::new();
            let mut old_lines: Vec<String> = Vec::new();
            std::mem::swap(&mut old_lines, &mut self.log_lines);
            let ghost src = old_lines@;
            let n = old_lines.len();
            let mut rev: Vec<String> = Vec::new();
            let mut i: usize = n;
            while i > drain
                invariant
                    drain <= i <= n,
                    n == src.len(),
                    old_lines@ == src.subrange(0, i as int),
                    rev@.len() == n - i,
                    forall|k: int| 0 <= k < rev@.len() ==> #[trigger] rev@[k] == src[n - 1 - k],
                decreases i,
            {
                let x = old_lines.pop().unwrap();
                rev.push(x);
                i = i - 1;
                assert(old_lines@ =~= src.subrange(0, i as int));
            }
            while rev.len() > 0
                invariant
                    rev@.len() + kept@.len() == n - drain,
                    n == src.len(),
                    drain <= n,
                    forall|k: int| 0 <= k < rev@.len() ==> #[trigger] rev@[k] == src[n - 1 - k],
                    forall|k: int| 0 <= k < kept@.len() ==> #[trigger] kept@[k] == src[drain + k],
                decreases rev@.len(),
            {
                let x = rev.pop().unwrap();
                kept.push(x);
            }
            self.log_lines = kept;
            proof {
                assert(crate::text::views(self.log_lines@) =~= before.skip(before.len() - MAX_LOG_LINES));
            }
        }
    }
}

/// This client's view of the leader lease kept in the shared database.
/// The leader flag after one attempt to acquire or renew the lease: the
/// attempt's answer when it got one (`Some`), unchanged when the attempt
/// failed before answering (`None`, as when the lease database cannot be
/// reached).
pub open spec fn after_attempt(flag: bool, outcome: Option<bool>) -> bool {
    match outcome {
        Some(b) => b,
        None => flag,
    }
}

/// The leader flag after a run of attempts, from `flag`.
pub open spec fn leader_after(flag: bool, outcomes: Seq<Option<bool>>) -> bool
    decreases outcomes.len(),
{
    if outcomes.len() == 0 {
        flag
    } else {
        after_attempt(leader_after(flag, outcomes.drop_last()), outcomes.last())
    }
}

/// The answer of the last attempt that got one.
pub open spec fn last_answer(outcomes: Seq<Option<bool>>) -> Option<bool>
    decreases outcomes.len(),
{
    if outcomes.len() == 0 {
        None
    } else if outcomes.last() is Some {
        outcomes.last()
    } else {
        last_answer(outcomes.drop_last())
    }
}

/// After any run of attempts from a new election (not the leader), the
/// client is the leader exactly when the last attempt that got an answer
/// answered yes; with no answer at all it is not the leader.
pub proof fn lemma_leader_is_last_answer(outcomes: Seq<Option<bool>>)
    ensures
        leader_after(false, outcomes) == match last_answer(outcomes) {
            Some(b) => b,
            None => false,
        },
{
    lemma_leader_after_from(false, outcomes);
}

proof fn lemma_leader_after_from(flag: bool, outcomes: Seq<Option<bool>>)
    ensures
        leader_after(flag, outcomes) == match last_answer(outcomes) {
            Some(b) => b,
            None => flag,
        },
    decreases outcomes.len(),
{
    if outcomes.len() > 0 {
        lemma_leader_after_from(flag, outcomes.drop_last());
    }
}

pub struct LeaderElection {
    db_path: String,
    my_id: String,
    is_leader: bool,
    lease_secs: u64,
}

impl LeaderElection {
    /// Not the leader yet, with a lease of 30 seconds.
    pub fn new(db_path: String, my_id: String) -> (r: Self)
        ensures
            r.spec_db_path() == db_path@,
            r.spec_my_id() == my_id@,
            !r.spec_is_leader(),
            r.spec_lease_secs() == 30,
    {
        LeaderElection { db_path, my_id, is_leader: false, lease_secs: 30 }
    }

    pub closed spec fn spec_is_leader(&self) -> bool {
        self.is_leader
    }

    /// The database holding the lease.
    pub closed spec fn spec_db_path(&self) -> Seq<char> {
        self.db_path@
    }

    /// The id this client holds the lease under.
    pub closed spec fn spec_my_id(&self) -> Seq<char> {
        self.my_id@
    }

    /// How long a lease lasts, in seconds.
    pub closed spec fn spec_lease_secs(&self) -> u64 {
        self.lease_secs
    }

    pub fn db_path(&self) -> (r: &str)
        ensures
            r@ == self.spec_db_path(),
    {
        self.db_path.as_str()
    }

    pub fn my_id(&self) -> (r: &str)
        ensures
            r@ == self.spec_my_id(),
    {
        self.my_id.as_str()
    }

    pub fn lease_secs(&self) -> (r: u64)
        ensures
            r == self.spec_lease_secs(),
    {
        self.lease_secs
    }

    pub fn is_leader(&self) -> (r: bool)
        ensures
            r == self.spec_is_leader(),
    {
        self.is_leader
    }

    /// Records the outcome of an attempt to acquire the lease.
    pub fn record_acquire(&mut self, acquired: bool)
        ensures
            final(self).spec_is_leader() == acquired,
            final(self).spec_is_leader() == after_attempt(old(self).spec_is_leader(), Some(acquired)),
            final(self).spec_my_id() == old(self).spec_my_id(),
            final(self).spec_db_path() == old(self).spec_db_path(),
            final(self).spec_lease_secs() == old(self).spec_lease_secs(),
    {
        self.is_leader = acquired;
    }

    /// Records the outcome of a lease renewal; true when the lease was held
    /// and is now lost.
    pub fn record_renew(&mut self, renewed: bool) -> (lost: bool)
        ensures
            lost == (!renewed && old(self).spec_is_leader()),
            final(self).spec_is_leader() == renewed,
            final(self).spec_is_leader() == after_attempt(old(self).spec_is_leader(), Some(renewed)),
            final(self).spec_my_id() == old(self).spec_my_id(),
            final(self).spec_db_path() == old(self).spec_db_path(),
            final(self).spec_lease_secs() == old(self).spec_lease_secs(),
    {
        let lost = !renewed && self.is_leader;
        self.is_leader = renewed;
        lost
    }
}

} // verus!
