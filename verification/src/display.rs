//! The text of the client's panels: uptimes, status symbols and panel titles.
use vstd::prelude::*;
use crate::text::{owned, push_str};
use crate::numparse::{decimal_string, decimal_text};
use crate::types::{NodeStatus, TaskStatus};

verus! {

/// An uptime in its two largest units: days and hours from a day on, hours
/// and minutes from an hour on, else minutes and seconds; `sep` stands
/// between the two parts.
pub open spec fn uptime_in_units(secs: nat, sep: Seq<char>) -> Seq<char> {
    if secs >= 86400 {
        decimal_text(secs / 86400) + "d"@ + sep + decimal_text((secs % 86400) / 3600) + "h"@
    } else if secs >= 3600 {
        decimal_text(secs / 3600) + "h"@ + sep + decimal_text((secs % 3600) / 60) + "m"@
    } else {
        decimal_text(secs / 60) + "m"@ + sep + decimal_text(secs % 60) + "s"@
    }
}

fn uptime_with(secs: u64, sep: &str) -> (r: String)
    ensures
        r@ == uptime_in_units(secs as nat, sep@),
{
    let (a, ua, b, ub) = if secs >= 86400 {
        (secs / 86400, "d", (secs % 86400) / 3600, "h")
    } else if secs >= 3600 {
        (secs / 3600, "h", (secs % 3600) / 60, "m")
    } else {
        (secs / 60, "m", secs % 60, "s")
    };
    let mut r = decimal_string(a);
    push_str(&mut r, ua);
    push_str(&mut r, sep);
    let bs = decimal_string(b);
    push_str(&mut r, bs.as_str());
    push_str(&mut r, ub);
    r
}

/// The uptime column of the node table, such as `2d3h`.
pub fn format_uptime(secs: u64) -> (r: String)
    ensures
        r@ == uptime_in_units(secs as nat, Seq::empty()),
{
    proof {
        reveal_strlit("");
    }
    uptime_with(secs, "")
}

/// The uptime line of the info header, such as `2d 3h`.
pub fn uptime_text(secs: u64) -> (r: String)
    ensures
        r@ == uptime_in_units(secs as nat, " "@),
{
    uptime_with(secs, " ")
}

/// The symbol of a node's status in the node table.
pub open spec fn spec_status_symbol(s: NodeStatus) -> Seq<char> {
    match s {
        NodeStatus::Online => "\u{25cf}"@,
        NodeStatus::Degraded => "\u{25d0}"@,
        NodeStatus::Offline => "\u{25cb}"@,
    }
}

pub fn status_symbol(s: NodeStatus) -> (r: &'static str)
    ensures
        r@ == spec_status_symbol(s),
{
    match s {
        NodeStatus::Online => "\u{25cf}",
        NodeStatus::Degraded => "\u{25d0}",
        NodeStatus::Offline => "\u{25cb}",
    }
}

/// The symbol of a task's status in the task list.
pub open spec fn spec_task_symbol(s: TaskStatus) -> Seq<char> {
    match s {
        TaskStatus::Pending => "\u{25e6}"@,
        TaskStatus::Assigned => "\u{25c9}"@,
        TaskStatus::Running => "\u{25b6}"@,
        TaskStatus::Completed => "\u{2713}"@,
        TaskStatus::Failed => "\u{2717}"@,
        TaskStatus::Cancelled => "\u{2212}"@,
    }
}

pub fn task_symbol(s: TaskStatus) -> (r: &'static str)
    ensures
        r@ == spec_task_symbol(s),
{
    match s {
        TaskStatus::Pending => "\u{25e6}",
        TaskStatus::Assigned => "\u{25c9}",
        TaskStatus::Running => "\u{25b6}",
        TaskStatus::Completed => "\u{2713}",
        TaskStatus::Failed => "\u{2717}",
        TaskStatus::Cancelled => "\u{2212}",
    }
}

/// What the progress column shows for a task without progress.
pub open spec fn spec_no_progress_text(s: TaskStatus) -> Seq<char> {
    match s {
        TaskStatus::Completed => "done"@,
        TaskStatus::Failed => "err"@,
        _ => "--"@,
    }
}

pub fn no_progress_text(s: TaskStatus) -> (r: &'static str)
    ensures
        r@ == spec_no_progress_text(s),
{
    match s {
        TaskStatus::Completed => "done",
        TaskStatus::Failed => "err",
        _ => "--",
    }
}

/// The count in the task list's title: the active tasks when there are
/// any, else all of them.
pub open spec fn spec_task_list_count(active: nat, total: nat) -> Seq<char> {
    if active > 0 { " "@ + decimal_text(active) + " active "@ } else { " "@ + decimal_text(total) + " "@ }
}

pub fn task_list_count(active: usize, total: usize) -> (r: String)
    ensures
        r@ == spec_task_list_count(active as nat, total as nat),
{
    let mut r = owned(" ");
    if active > 0 {
        let a = decimal_string(active as u64);
        push_str(&mut r, a.as_str());
        push_str(&mut r, " active ");
    } else {
        let t = decimal_string(total as u64);
        push_str(&mut r, t.as_str());
        push_str(&mut r, " ");
    }
    r
}

} // verus!
