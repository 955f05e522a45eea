//! The leader lease that lets one coordinating client act at a time: the
//! single stored row naming the leader and until when its lease runs, and
//! how an instance takes or renews it.
use vstd::prelude::*;
use crate::text::{owned, str_eq};

verus! {

/// The stored lease: who leads, since when and until when (seconds).
pub struct LeaseRow {
    pub leader_id: String,
    pub acquired_at: u64,
    pub lease_expires: u64,
}

/// A lease row with its text as characters.
pub type LeaseView = (Seq<char>, u64, u64);

pub open spec fn lease_view(row: Option<LeaseRow>) -> Option<LeaseView> {
    match row {
        Some(r) => Some((r.leader_id@, r.acquired_at, r.lease_expires)),
        None => None,
    }
}

/// Whether `me` may take the lease at `now`: there is none yet, it is
/// already ours, or it ran out before `now`.
pub open spec fn may_take(row: Option<LeaseView>, me: Seq<char>, now: u64) -> bool {
    match row {
        None => true,
        Some((leader, _, expires)) => leader == me || expires < now,
    }
}

/// Whether `me` holds the lease, and may renew it.
pub open spec fn holds(row: Option<LeaseView>, me: Seq<char>) -> bool {
    row matches Some((leader, _, _)) && leader == me
}

/// The lease after an attempt of `me` to take it at `now` for `lease_secs`.
pub open spec fn after_acquire(row: Option<LeaseView>, me: Seq<char>, now: u64, lease_secs: u64) -> Option<LeaseView> {
    if may_take(row, me, now) { Some((me, now, (now + lease_secs) as u64)) } else { row }
}

/// The lease after an attempt of `me` to renew it at `now` for `lease_secs`.
pub open spec fn after_renew(row: Option<LeaseView>, me: Seq<char>, now: u64, lease_secs: u64) -> Option<LeaseView> {
    if holds(row, me) { Some((me, now, (now + lease_secs) as u64)) } else { row }
}

/// Tries to take the lease: true when `me` now leads; the row is then ours
/// from `now` for `lease_secs`, else it is left as it was.
pub fn try_acquire(row: Option<LeaseRow>, me: &str, now: u64, lease_secs: u64) -> (r: (bool, Option<LeaseRow>))
    requires
        now + lease_secs <= u64::MAX,
    ensures
        r.0 == may_take(lease_view(row), me@, now),
        lease_view(r.1) == after_acquire(lease_view(row), me@, now, lease_secs),
{
    let take = match &row {
        None => true,
        Some(x) => str_eq(x.leader_id.as_str(), me) || x.lease_expires < now,
    };
    if take {
        (true, Some(LeaseRow { leader_id: owned(me), acquired_at: now, lease_expires: now + lease_secs }))
    } else {
        (false, row)
    }
}

/// Tries to renew the lease: true when `me` still leads; the row then runs
/// from `now` for `lease_secs`, else it is left as it was.
pub fn renew(row: Option<LeaseRow>, me: &str, now: u64, lease_secs: u64) -> (r: (bool, Option<LeaseRow>))
    requires
        now + lease_secs <= u64::MAX,
    ensures
        r.0 == holds(lease_view(row), me@),
        lease_view(r.1) == after_renew(lease_view(row), me@, now, lease_secs),
{
    let mine = match &row {
        Some(x) => str_eq(x.leader_id.as_str(), me),
        None => false,
    };
    if mine {
        (true, Some(LeaseRow { leader_id: owned(me), acquired_at: now, lease_expires: now + lease_secs }))
    } else {
        (false, row)
    }
}

/// One leader at a time: once `a` took the lease at `t1`, another instance
/// can neither take nor renew it until the lease runs out, while `a` keeps
/// renewing it.
pub proof fn lemma_single_leader(row: Option<LeaseView>, a: Seq<char>, b: Seq<char>, t1: u64, t2: u64, lease_secs: u64)
    requires
        a != b,
        may_take(row, a, t1),
        t1 + lease_secs <= u64::MAX,
        t2 <= t1 + lease_secs,
    ensures
        !may_take(after_acquire(row, a, t1, lease_secs), b, t2),
        !holds(after_acquire(row, a, t1, lease_secs), b),
        holds(after_acquire(row, a, t1, lease_secs), a),
        after_acquire(after_acquire(row, a, t1, lease_secs), b, t2, lease_secs) == after_acquire(row, a, t1, lease_secs),
{
}

} // verus!
