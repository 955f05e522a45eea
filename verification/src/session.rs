//! What the coordinator decides on an agent's session stream: whether the
//! identity an agent opens with is admitted, and how many of its messages a
//! second are handled.
use vstd::prelude::*;
use crate::text::{str_eq, views};

verus! {

/// The answer to an agent's opening identity.
#[derive(Debug, Clone, Copy, PartialEq, Eq, Structural)]
pub enum Admission {
    /// Admitted; the id is bound to the hostname from now on.
    Accepted,
    /// The cluster has a token and the agent did not present it.
    BadToken,
    /// The id was seen before from another host.
    HostMismatch,
}

/// The hostname each agent id was first seen with.
pub struct IdentityRegistry {
    ids: Vec<u128>,
    hosts: Vec<String>,
}

/// The decision on an identity, given the hostnames already bound.
pub open spec fn spec_admit(reg: Map<u128, Seq<char>>, cluster_token: Seq<char>, id: u128, hostname: Seq<char>,
    token: Seq<char>) -> Admission
{
    if cluster_token.len() > 0 && token != cluster_token {
        Admission::BadToken
    } else if reg.contains_key(id) && reg[id] != hostname {
        Admission::HostMismatch
    } else {
        Admission::Accepted
    }
}

/// The bindings after an identity was decided on: a first accepted id is bound.
pub open spec fn bound_after(reg: Map<u128, Seq<char>>, cluster_token: Seq<char>, id: u128, hostname: Seq<char>,
    token: Seq<char>) -> Map<u128, Seq<char>>
{
    if spec_admit(reg, cluster_token, id, hostname, token) == Admission::Accepted && !reg.contains_key(id) {
        reg.insert(id, hostname)
    } else {
        reg
    }
}

spec fn bindings(ids: Seq<u128>, hosts: Seq<Seq<char>>) -> Map<u128, Seq<char>>
    decreases ids.len(),
{
    if ids.len() == 0 || hosts.len() == 0 {
        Map::empty()
    } else {
        bindings(ids.drop_last(), hosts.drop_last()).insert(ids.last(), hosts.last())
    }
}

spec fn unique(ids: Seq<u128>) -> bool {
    forall|i: int, j: int| 0 <= i < ids.len() && 0 <= j < ids.len() && ids[i] == ids[j] ==> i == j
}

proof fn lemma_bindings(ids: Seq<u128>, hosts: Seq<Seq<char>>)
    requires
        ids.len() == hosts.len(),
        unique(ids),
    ensures
        forall|id: u128| #[trigger] bindings(ids, hosts).contains_key(id) <==> ids.contains(id),
        forall|i: int| 0 <= i < ids.len() ==> bindings(ids, hosts)[#[trigger] ids[i]] == hosts[i],
    decreases ids.len(),
{
    if ids.len() > 0 {
        let di = ids.drop_last();
        let dh = hosts.drop_last();
        assert(unique(di)) by {
            assert forall|i: int, j: int| 0 <= i < di.len() && 0 <= j < di.len() && di[i] == di[j] implies i == j by {
                assert(ids[i] == di[i] && ids[j] == di[j]);
            }
        }
        lemma_bindings(di, dh);
        assert forall|id: u128| #[trigger] bindings(ids, hosts).contains_key(id) <==> ids.contains(id) by {
            assert(bindings(ids, hosts).contains_key(id) == (id == ids.last() || bindings(di, dh).contains_key(id)));
            if ids.contains(id) && id != ids.last() {
                let k = choose|k: int| 0 <= k < ids.len() && ids[k] == id;
                assert(di[k] == id);
            }
            if di.contains(id) {
                let k = choose|k: int| 0 <= k < di.len() && di[k] == id;
                assert(ids[k] == id);
            }
            if id == ids.last() {
                assert(ids[ids.len() - 1] == id);
            }
        }
        assert forall|i: int| 0 <= i < ids.len() implies bindings(ids, hosts)[#[trigger] ids[i]] == hosts[i] by {
            if i < ids.len() - 1 {
                assert(di[i] == ids[i]);
                assert(ids[i] != ids[ids.len() - 1]);
            }
        }
    }
}

impl IdentityRegistry {
    pub closed spec fn view(&self) -> Map<u128, Seq<char>> {
        bindings(self.ids@, views(self.hosts@))
    }

    #[verifier::type_invariant]
    closed spec fn inv(&self) -> bool {
        self.ids@.len() == self.hosts@.len() && unique(self.ids@)
    }

    pub fn new() -> (r: Self)
        ensures
            r.view() == Map::<u128, Seq<char>>::empty(),
    {
        IdentityRegistry { ids: Vec::new(), hosts: Vec::new() }
    }

    /// Decides on the identity an agent opens its session with: refused when
    /// the cluster has a token and the agent's differs, or when its id was
    /// first seen from another host; otherwise accepted, and the id bound to
    /// the hostname if it was new.
    pub fn decide(&mut self, cluster_token: &str, id: u128, hostname: &str, token: &str) -> (r: Admission)
        ensures
            r == spec_admit(old(self).view(), cluster_token@, id, hostname@, token@),
            final(self).view() == bound_after(old(self).view(), cluster_token@, id, hostname@, token@),
    {
        proof {
            use_type_invariant(&*self);
            lemma_bindings(self.ids@, views(self.hosts@));
        }
        if cluster_token.unicode_len() > 0 && !str_eq(token, cluster_token) {
            return Admission::BadToken;
        }
        match self.position(id) {
            Some(i) => {
                proof {
                    assert(views(self.hosts@)[i as int] == self.hosts@[i as int]@);
                    assert(self.ids@.contains(id));
                }
                if str_eq(self.hosts[i].as_str(), hostname) {
                    Admission::Accepted
                } else {
                    Admission::HostMismatch
                }
            },
            None => {
                proof {
                    assert(!self.ids@.contains(id));
                }
                let ghost old_ids = self.ids@;
                let ghost old_hosts = views(self.hosts@);
                let mut taken = IdentityRegistry::new();
                std::mem::swap(&mut taken, self);
                let IdentityRegistry { mut ids, mut hosts } = taken;
                ids.push(id);
                hosts.push(crate::text::owned(hostname));
                proof {
                    assert(unique(ids@)) by {
                        assert forall|a: int, b: int| 0 <= a < ids@.len() && 0 <= b < ids@.len() && ids@[a] == ids@[b] implies a == b by {
                            if a < old_ids.len() && b == old_ids.len() {
                                assert(old_ids.contains(id));
                            }
                            if b < old_ids.len() && a == old_ids.len() {
                                assert(old_ids.contains(id));
                            }
                        }
                    }
                    assert(ids@.drop_last() =~= old_ids);
                    assert(views(hosts@).drop_last() =~= old_hosts);
                }
                *self = IdentityRegistry { ids, hosts };
                Admission::Accepted
            },
        }
    }

    fn position(&self, id: u128) -> (r: Option<usize>)
        ensures
            match r {
                Some(i) => i < self.ids@.len() && i < self.hosts@.len() && self.ids@[i as int] == id,
                None => !self.ids@.contains(id),
            },
    {
        proof {
            use_type_invariant(self);
        }
        let mut i: usize = 0;
        while i < self.ids.len()
            invariant
                i <= self.ids@.len(),
                self.ids@.len() == self.hosts@.len(),
                forall|k: int| 0 <= k < i ==> self.ids@[k] != id,
            decreases self.ids@.len() - i,
        {
            if self.ids[i] == id {
                return Some(i);
            }
            i = i + 1;
        }
        None
    }
}

/// Messages handled per agent in one second.
pub const MAX_MSG_PER_SEC: u32 = 100;

/// Counts an agent's messages in windows of one second.
pub struct RateLimiter {
    pub count: u32,
    pub window_start_ms: u64,
}

/// The limiter after a message at `now_ms`: a new window starts once a
/// second has passed since the current one began.
pub open spec fn counted(count: u32, start: u64, now_ms: u64) -> (u32, u64) {
    let elapsed: int = if now_ms >= start { now_ms - start } else { 0 };
    if elapsed >= 1000 {
        (1, now_ms)
    } else {
        ((if count < u32::MAX { count + 1 } else { count as int }) as u32, start)
    }
}

impl RateLimiter {
    /// A limiter whose first window starts at `now_ms`.
    pub fn new(now_ms: u64) -> (r: Self)
        ensures
            r.count == 0,
            r.window_start_ms == now_ms,
    {
        RateLimiter { count: 0, window_start_ms: now_ms }
    }

    /// Counts a message received at `now_ms`; true when it is to be handled,
    /// that is when it is among the first `MAX_MSG_PER_SEC` of its window.
    /// (The count stops at `u32::MAX`.)
    pub fn allow(&mut self, now_ms: u64) -> (ok: bool)
        ensures
            (final(self).count, final(self).window_start_ms) == counted(old(self).count, old(self).window_start_ms, now_ms),
            ok == (final(self).count <= MAX_MSG_PER_SEC),
    {
        let elapsed = if now_ms >= self.window_start_ms { now_ms - self.window_start_ms } else { 0 };
        if elapsed >= 1000 {
            self.count = 0;
            self.window_start_ms = now_ms;
        }
        self.count = self.count.saturating_add(1);
        self.count <= MAX_MSG_PER_SEC
    }
}

/// An id, once bound, keeps its hostname: whatever identity comes next, the
/// binding stays, and the same id from another host is refused.
pub proof fn lemma_binding_is_kept(reg: Map<u128, Seq<char>>, cluster_token: Seq<char>, id: u128, hostname: Seq<char>,
    token: Seq<char>, other: u128)
    requires
        reg.contains_key(other),
    ensures
        bound_after(reg, cluster_token, id, hostname, token).contains_key(other),
        bound_after(reg, cluster_token, id, hostname, token)[other] == reg[other],
        id == other && hostname != reg[other] ==> spec_admit(reg, cluster_token, id, hostname, token) != Admission::Accepted,
{
}

/// Within one window at most `MAX_MSG_PER_SEC` messages are handled: the
/// messages of `times`, all in the window of a limiter at zero count, each
/// counted in turn, let through no more than that many.
pub proof fn lemma_window_bounded(start: u64, times: Seq<u64>)
    requires
        forall|k: int| 0 <= k < times.len() ==> start <= #[trigger] times[k] < start + 1000,
    ensures
        passed(0, start, times) <= MAX_MSG_PER_SEC,
{
    lemma_passed_in_window(0, start, times);
}

/// How many of the messages at `times` a limiter at (`count`, `start`) lets through.
pub open spec fn passed(count: u32, start: u64, times: Seq<u64>) -> nat
    decreases times.len(),
{
    if times.len() == 0 {
        0
    } else {
        let (c, s) = counted(count, start, times[0]);
        (if c <= MAX_MSG_PER_SEC { 1nat } else { 0nat }) + passed(c, s, times.drop_first())
    }
}

proof fn lemma_passed_in_window(count: u32, start: u64, times: Seq<u64>)
    requires
        forall|k: int| 0 <= k < times.len() ==> start <= #[trigger] times[k] < start + 1000,
    ensures
        passed(count, start, times) + count <= (if count <= MAX_MSG_PER_SEC { MAX_MSG_PER_SEC as int } else { count as int }),
    decreases times.len(),
{
    if times.len() > 0 {
        let (c, s) = counted(count, start, times[0]);
        assert(s == start);
        assert forall|k: int| 0 <= k < times.drop_first().len() implies start <= #[trigger] times.drop_first()[k] < start + 1000 by {
            assert(times.drop_first()[k] == times[k + 1]);
        }
        lemma_passed_in_window(c, s, times.drop_first());
    }
}

} // verus!
