//! The coordinator's health endpoint: the cluster counters it serves, the
//! Prometheus text of them, and which request path is answered how.
use vstd::prelude::*;
use crate::text::{chars_of, owned, push_str, str_eq, str_starts_with, seq_starts_with, string_from_chars};
use crate::numparse::{decimal_string, decimal_text};
use crate::cross_compile::target_table;

verus! {

/// Snapshot of cluster health, updated by the client on each tick.
#[derive(Debug, Clone, Copy, PartialEq, Eq, Structural)]
pub struct HealthSnapshot {
    pub agents_online: u64,
    pub agents_total: u64,
    pub tasks_active: u64,
    pub tasks_pending: u64,
    pub tasks_completed_total: u64,
    pub tasks_failed_total: u64,
    pub uptime_secs: u64,
}

impl Default for HealthSnapshot {
    fn default() -> (r: Self)
        ensures
            r == (HealthSnapshot {
                agents_online: 0,
                agents_total: 0,
                tasks_active: 0,
                tasks_pending: 0,
                tasks_completed_total: 0,
                tasks_failed_total: 0,
                uptime_secs: 0,
            }),
    {
        HealthSnapshot {
            agents_online: 0,
            agents_total: 0,
            tasks_active: 0,
            tasks_pending: 0,
            tasks_completed_total: 0,
            tasks_failed_total: 0,
            uptime_secs: 0,
        }
    }
}

/// One metric in the Prometheus text format: its help line, its type line
/// and its sample.
pub open spec fn metric_block(name: Seq<char>, help: Seq<char>, kind: Seq<char>, value: u64) -> Seq<char> {
    "# HELP "@ + name + " "@ + help + "\n"@ + "# TYPE "@ + name + " "@ + kind + "\n"@ + name + " "@
        + decimal_text(value as nat) + "\n"@
}

pub open spec fn spec_metrics_text(s: HealthSnapshot) -> Seq<char> {
    metric_block("architect_agents_total"@, "Total number of known agents"@, "gauge"@, s.agents_total)
        + metric_block("architect_agents_online"@, "Number of online agents"@, "gauge"@, s.agents_online)
        + metric_block("architect_tasks_active"@, "Number of active tasks"@, "gauge"@, s.tasks_active)
        + metric_block("architect_tasks_pending"@, "Number of pending tasks"@, "gauge"@, s.tasks_pending)
        + metric_block("architect_tasks_completed_total"@, "Total completed tasks"@, "counter"@, s.tasks_completed_total)
        + metric_block("architect_tasks_failed_total"@, "Total failed tasks"@, "counter"@, s.tasks_failed_total)
}

fn push_metric(out: &mut String, name: &str, help: &str, kind: &str, value: u64)
    ensures
        final(out)@ == old(out)@ + metric_block(name@, help@, kind@, value),
{
    push_str(out, "# HELP ");
    push_str(out, name);
    push_str(out, " ");
    push_str(out, help);
    push_str(out, "\n");
    push_str(out, "# TYPE ");
    push_str(out, name);
    push_str(out, " ");
    push_str(out, kind);
    push_str(out, "\n");
    push_str(out, name);
    push_str(out, " ");
    let v = decimal_string(value);
    push_str(out, v.as_str());
    push_str(out, "\n");
}

/// The body served at `/metrics`, in the Prometheus text format.
pub fn metrics_text(s: &HealthSnapshot) -> (r: String)
    ensures
        r@ == spec_metrics_text(*s),
{
    let mut out = String::new();
    push_metric(&mut out, "architect_agents_total", "Total number of known agents", "gauge", s.agents_total);
    push_metric(&mut out, "architect_agents_online", "Number of online agents", "gauge", s.agents_online);
    push_metric(&mut out, "architect_tasks_active", "Number of active tasks", "gauge", s.tasks_active);
    push_metric(&mut out, "architect_tasks_pending", "Number of pending tasks", "gauge", s.tasks_pending);
    push_metric(&mut out, "architect_tasks_completed_total", "Total completed tasks", "counter", s.tasks_completed_total);
    push_metric(&mut out, "architect_tasks_failed_total", "Total failed tasks", "counter", s.tasks_failed_total);
    out
}

/// How a request to the health server is answered.
#[derive(Debug)]
pub enum HealthRoute {
    /// The JSON health summary.
    Health,
    /// The Prometheus metrics.
    Metrics,
    /// The agent binary for a known platform label.
    AgentBinary(String),
    /// A request for an agent binary of an unknown platform.
    UnknownTarget,
    /// Any other path.
    NotFound,
}

/// Whether a label is the label of a supported target.
pub open spec fn is_known_label(label: Seq<char>) -> bool {
    exists|i: int| 0 <= i < target_table().len() && target_table()[i].1 == label
}

fn known_label(label: &str) -> (r: bool)
    ensures
        r == is_known_label(label@),
{
    let labels: [&str; 11] = [
        "linux-x86_64",
        "linux-aarch64",
        "linux-armv7",
        "macos-x86_64",
        "macos-aarch64",
        "windows-x86_64",
        "windows-aarch64",
        "android-aarch64",
        "android-armv7",
        "android-x86_64",
        "ios-aarch64",
    ];
    let mut i: usize = 0;
    while i < 11
        invariant
            i <= 11,
            forall|k: int| 0 <= k < 11 ==> (#[trigger] labels@[k])@ == target_table()[k].1,
            forall|k: int| 0 <= k < i ==> target_table()[k].1 != label@,
        decreases 11 - i,
    {
        if str_eq(labels[i], label) {
            return true;
        }
        i = i + 1;
    }
    false
}

pub open spec fn agent_prefix() -> Seq<char> {
    "/agent/"@
}

/// Routes a request path: `/health`, `/metrics`, `/agent/<label>` for a
/// known label, anything else is not found.
pub fn route(path: &str) -> (r: HealthRoute)
    ensures
        path@ == "/health"@ ==> r is Health,
        path@ != "/health"@ && path@ == "/metrics"@ ==> r is Metrics,
        path@ != "/health"@ && path@ != "/metrics"@ && seq_starts_with(path@, agent_prefix()) ==> {
            let label = path@.skip(7);
            if is_known_label(label) {
                r matches HealthRoute::AgentBinary(l) && l@ == label
            } else {
                r is UnknownTarget
            }
        },
        path@ != "/health"@ && path@ != "/metrics"@ && !seq_starts_with(path@, agent_prefix()) ==> r is NotFound,
{
    if str_eq(path, "/health") {
        return HealthRoute::Health;
    }
    if str_eq(path, "/metrics") {
        return HealthRoute::Metrics;
    }
    if str_starts_with(path, "/agent/") {
        proof {
            reveal_strlit("/agent/");
        }
        let cs = chars_of(path);
        let mut rest: Vec<char> = Vec::new();
        let mut k: usize = 7;
        while k < cs.len()
            invariant
                7 <= k <= cs@.len(),
                rest@ == cs@.subrange(7, k as int),
            decreases cs@.len() - k,
        {
            rest.push(cs[k]);
            k = k + 1;
            assert(rest@ =~= cs@.subrange(7, k as int));
        }
        assert(rest@ =~= path@.skip(7));
        let label = string_from_chars(rest.as_slice());
        if known_label(label.as_str()) {
            return HealthRoute::AgentBinary(label);
        }
        return HealthRoute::UnknownTarget;
    }
    HealthRoute::NotFound
}

} // verus!
