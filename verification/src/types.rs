//! Node, platform and task vocabulary shared by every part of the cluster,
//! with the names under which they are shown and exchanged.
use vstd::prelude::*;
use crate::text::str_eq;

verus! {

/// Role of a node in the cluster.
#[derive(Debug, Clone, Copy, PartialEq, Eq, Hash, Structural)]
pub enum NodeRole {
    Client,
    Agent,
}

/// Operating system family of a node.
#[derive(Debug, Clone, Copy, PartialEq, Eq, Structural)]
pub enum OsKind {
    Linux,
    MacOS,
    Windows,
    Android,
    IOS,
    Unknown,
}

/// CPU architecture of a node.
#[derive(Debug, Clone, Copy, PartialEq, Eq, Structural)]
pub enum ArchKind {
    X86_64,
    X86,
    Aarch64,
    Armv7,
    Unknown,
}

/// Kind of device a node runs on.
#[derive(Debug, Clone, Copy, PartialEq, Eq, Structural)]
pub enum DeviceType {
    Desktop,
    Laptop,
    Phone,
    SmartTV,
    RaspberryPi,
    Unknown,
}

/// Liveness of a node as seen by the coordinator.
#[derive(Debug, Clone, Copy, PartialEq, Eq, Structural)]
pub enum NodeStatus {
    Online,
    Degraded,
    Offline,
}

/// Battery state reported by a node.
#[derive(Debug, Clone, Copy, PartialEq, Eq, Structural)]
pub struct BatteryInfo {
    pub level_pct: u8,
    pub charging: bool,
}

/// Kind of AI task, as shown to the user.
#[derive(Debug, Clone, Copy, PartialEq, Eq, Structural)]
pub enum TaskType {
    Train,
    Finetune,
    Inference,
    Preprocess,
    Evaluate,
    Rag,
    Embed,
    Compute,
    Plugin,
}

/// Lifecycle state of a task.
#[derive(Debug, Clone, Copy, PartialEq, Eq, Structural)]
pub enum TaskStatus {
    Pending,
    Assigned,
    Running,
    Completed,
    Failed,
    Cancelled,
}

// ---------------------------------------------------------------------------
// Display names
// ---------------------------------------------------------------------------

pub open spec fn role_name(r: NodeRole) -> Seq<char> {
    match r {
        NodeRole::Client => "Client"@,
        NodeRole::Agent => "Agent"@,
    }
}

pub open spec fn status_name(s: NodeStatus) -> Seq<char> {
    match s {
        NodeStatus::Online => "Online"@,
        NodeStatus::Degraded => "Degraded"@,
        NodeStatus::Offline => "Offline"@,
    }
}

pub open spec fn os_display_name(o: OsKind) -> Seq<char> {
    match o {
        OsKind::Linux => "Linux"@,
        OsKind::MacOS => "macOS"@,
        OsKind::Windows => "Windows"@,
        OsKind::Android => "Android"@,
        OsKind::IOS => "iOS"@,
        OsKind::Unknown => "Unknown"@,
    }
}

/// The variant name of an `OsKind`, as its `Debug` form writes it.
pub open spec fn os_variant_name(o: OsKind) -> Seq<char> {
    match o {
        OsKind::Linux => "Linux"@,
        OsKind::MacOS => "MacOS"@,
        OsKind::Windows => "Windows"@,
        OsKind::Android => "Android"@,
        OsKind::IOS => "IOS"@,
        OsKind::Unknown => "Unknown"@,
    }
}

pub open spec fn arch_display_name(a: ArchKind) -> Seq<char> {
    match a {
        ArchKind::X86_64 => "x86_64"@,
        ArchKind::X86 => "x86"@,
        ArchKind::Aarch64 => "aarch64"@,
        ArchKind::Armv7 => "armv7"@,
        ArchKind::Unknown => "unknown"@,
    }
}

/// The variant name of an `ArchKind`, as its `Debug` form writes it.
pub open spec fn arch_variant_name(a: ArchKind) -> Seq<char> {
    match a {
        ArchKind::X86_64 => "X86_64"@,
        ArchKind::X86 => "X86"@,
        ArchKind::Aarch64 => "Aarch64"@,
        ArchKind::Armv7 => "Armv7"@,
        ArchKind::Unknown => "Unknown"@,
    }
}

pub open spec fn device_name(d: DeviceType) -> Seq<char> {
    match d {
        DeviceType::Desktop => "Desktop"@,
        DeviceType::Laptop => "Laptop"@,
        DeviceType::Phone => "Phone"@,
        DeviceType::SmartTV => "SmartTV"@,
        DeviceType::RaspberryPi => "RaspberryPi"@,
        DeviceType::Unknown => "Unknown"@,
    }
}

pub open spec fn task_type_name(t: TaskType) -> Seq<char> {
    match t {
        TaskType::Train => "train"@,
        TaskType::Finetune => "finetune"@,
        TaskType::Inference => "infer"@,
        TaskType::Preprocess => "preprocess"@,
        TaskType::Evaluate => "eval"@,
        TaskType::Rag => "rag"@,
        TaskType::Embed => "embed"@,
        TaskType::Compute => "compute"@,
        TaskType::Plugin => "plugin"@,
    }
}

pub open spec fn task_status_name(s: TaskStatus) -> Seq<char> {
    match s {
        TaskStatus::Pending => "Pending"@,
        TaskStatus::Assigned => "Assigned"@,
        TaskStatus::Running => "Running"@,
        TaskStatus::Completed => "Completed"@,
        TaskStatus::Failed => "Failed"@,
        TaskStatus::Cancelled => "Cancelled"@,
    }
}

impl NodeRole {
    /// The name under which the role is displayed.
    pub fn name(&self) -> (r: &'static str)
        ensures
            r@ == role_name(*self),
    {
        match self {
            NodeRole::Client => "Client",
            NodeRole::Agent => "Agent",
        }
    }

    /// Reads a role sent over the wire: `"Client"` is a client, anything else an agent.
    pub fn from_wire(s: &str) -> (r: NodeRole)
        ensures
            r == (if s@ == "Client"@ { NodeRole::Client } else { NodeRole::Agent }),
    {
        if str_eq(s, "Client") {
            NodeRole::Client
        } else {
            NodeRole::Agent
        }
    }
}

impl NodeStatus {
    /// The name under which the status is displayed.
    pub fn name(&self) -> (r: &'static str)
        ensures
            r@ == status_name(*self),
    {
        match self {
            NodeStatus::Online => "Online",
            NodeStatus::Degraded => "Degraded",
            NodeStatus::Offline => "Offline",
        }
    }
}

impl OsKind {
    /// The name under which the OS is displayed.
    pub fn name(&self) -> (r: &'static str)
        ensures
            r@ == os_display_name(*self),
    {
        match self {
            OsKind::Linux => "Linux",
            OsKind::MacOS => "macOS",
            OsKind::Windows => "Windows",
            OsKind::Android => "Android",
            OsKind::IOS => "iOS",
            OsKind::Unknown => "Unknown",
        }
    }

    /// The variant name, the form in which the OS travels in node records.
    pub fn variant_name(&self) -> (r: &'static str)
        ensures
            r@ == os_variant_name(*self),
    {
        match self {
            OsKind::Linux => "Linux",
            OsKind::MacOS => "MacOS",
            OsKind::Windows => "Windows",
            OsKind::Android => "Android",
            OsKind::IOS => "IOS",
            OsKind::Unknown => "Unknown",
        }
    }

    /// Reads an OS from a node record; names other than the four known ones give `Unknown`.
    pub fn from_wire(s: &str) -> (r: OsKind)
        ensures
            r == (if s@ == "Linux"@ {
                OsKind::Linux
            } else if s@ == "MacOS"@ {
                OsKind::MacOS
            } else if s@ == "Windows"@ {
                OsKind::Windows
            } else if s@ == "Android"@ {
                OsKind::Android
            } else {
                OsKind::Unknown
            }),
    {
        if str_eq(s, "Linux") {
            OsKind::Linux
        } else if str_eq(s, "MacOS") {
            OsKind::MacOS
        } else if str_eq(s, "Windows") {
            OsKind::Windows
        } else if str_eq(s, "Android") {
            OsKind::Android
        } else {
            OsKind::Unknown
        }
    }
}

impl ArchKind {
    /// The name under which the architecture is displayed.
    pub fn name(&self) -> (r: &'static str)
        ensures
            r@ == arch_display_name(*self),
    {
        match self {
            ArchKind::X86_64 => "x86_64",
            ArchKind::X86 => "x86",
            ArchKind::Aarch64 => "aarch64",
            ArchKind::Armv7 => "armv7",
            ArchKind::Unknown => "unknown",
        }
    }

    /// The variant name, the form in which the architecture travels in node records.
    pub fn variant_name(&self) -> (r: &'static str)
        ensures
            r@ == arch_variant_name(*self),
    {
        match self {
            ArchKind::X86_64 => "X86_64",
            ArchKind::X86 => "X86",
            ArchKind::Aarch64 => "Aarch64",
            ArchKind::Armv7 => "Armv7",
            ArchKind::Unknown => "Unknown",
        }
    }

    /// Reads an architecture from a node record; unknown names give `Unknown`.
    pub fn from_wire(s: &str) -> (r: ArchKind)
        ensures
            r == (if s@ == "X86_64"@ {
                ArchKind::X86_64
            } else if s@ == "X86"@ {
                ArchKind::X86
            } else if s@ == "Aarch64"@ {
                ArchKind::Aarch64
            } else if s@ == "Armv7"@ {
                ArchKind::Armv7
            } else {
                ArchKind::Unknown
            }),
    {
        if str_eq(s, "X86_64") {
            ArchKind::X86_64
        } else if str_eq(s, "X86") {
            ArchKind::X86
        } else if str_eq(s, "Aarch64") {
            ArchKind::Aarch64
        } else if str_eq(s, "Armv7") {
            ArchKind::Armv7
        } else {
            ArchKind::Unknown
        }
    }
}

impl DeviceType {
    /// The name of the device type; its display and variant forms coincide.
    pub fn name(&self) -> (r: &'static str)
        ensures
            r@ == device_name(*self),
    {
        match self {
            DeviceType::Desktop => "Desktop",
            DeviceType::Laptop => "Laptop",
            DeviceType::Phone => "Phone",
            DeviceType::SmartTV => "SmartTV",
            DeviceType::RaspberryPi => "RaspberryPi",
            DeviceType::Unknown => "Unknown",
        }
    }

    /// Reads a device type from a node record; unknown names give `Unknown`.
    pub fn from_wire(s: &str) -> (r: DeviceType)
        ensures
            r == (if s@ == "Desktop"@ {
                DeviceType::Desktop
            } else if s@ == "Laptop"@ {
                DeviceType::Laptop
            } else if s@ == "Phone"@ {
                DeviceType::Phone
            } else if s@ == "SmartTV"@ {
                DeviceType::SmartTV
            } else if s@ == "RaspberryPi"@ {
                DeviceType::RaspberryPi
            } else {
                DeviceType::Unknown
            }),
    {
        if str_eq(s, "Desktop") {
            DeviceType::Desktop
        } else if str_eq(s, "Laptop") {
            DeviceType::Laptop
        } else if str_eq(s, "Phone") {
            DeviceType::Phone
        } else if str_eq(s, "SmartTV") {
            DeviceType::SmartTV
        } else if str_eq(s, "RaspberryPi") {
            DeviceType::RaspberryPi
        } else {
            DeviceType::Unknown
        }
    }
}

impl TaskType {
    /// The short name under which the task type is displayed and stored.
    pub fn name(&self) -> (r: &'static str)
        ensures
            r@ == task_type_name(*self),
    {
        match self {
            TaskType::Train => "train",
            TaskType::Finetune => "finetune",
            TaskType::Inference => "infer",
            TaskType::Preprocess => "preprocess",
            TaskType::Evaluate => "eval",
            TaskType::Rag => "rag",
            TaskType::Embed => "embed",
            TaskType::Compute => "compute",
            TaskType::Plugin => "plugin",
        }
    }

    /// Reads a stored task type; names other than the seven ML kinds give `Compute`.
    pub fn from_stored(s: &str) -> (r: TaskType)
        ensures
            r == (if s@ == "train"@ {
                TaskType::Train
            } else if s@ == "finetune"@ {
                TaskType::Finetune
            } else if s@ == "infer"@ {
                TaskType::Inference
            } else if s@ == "preprocess"@ {
                TaskType::Preprocess
            } else if s@ == "eval"@ {
                TaskType::Evaluate
            } else if s@ == "rag"@ {
                TaskType::Rag
            } else if s@ == "embed"@ {
                TaskType::Embed
            } else {
                TaskType::Compute
            }),
    {
        if str_eq(s, "train") {
            TaskType::Train
        } else if str_eq(s, "finetune") {
            TaskType::Finetune
        } else if str_eq(s, "infer") {
            TaskType::Inference
        } else if str_eq(s, "preprocess") {
            TaskType::Preprocess
        } else if str_eq(s, "eval") {
            TaskType::Evaluate
        } else if str_eq(s, "rag") {
            TaskType::Rag
        } else if str_eq(s, "embed") {
            TaskType::Embed
        } else {
            TaskType::Compute
        }
    }
}

impl TaskStatus {
    /// The name under which the status is displayed and stored.
    pub fn name(&self) -> (r: &'static str)
        ensures
            r@ == task_status_name(*self),
    {
        match self {
            TaskStatus::Pending => "Pending",
            TaskStatus::Assigned => "Assigned",
            TaskStatus::Running => "Running",
            TaskStatus::Completed => "Completed",
            TaskStatus::Failed => "Failed",
            TaskStatus::Cancelled => "Cancelled",
        }
    }

    /// Completed, failed and cancelled tasks are terminal.
    pub fn is_terminal(&self) -> (r: bool)
        ensures
            r == is_terminal_status(*self),
    {
        match self {
            TaskStatus::Completed | TaskStatus::Failed | TaskStatus::Cancelled => true,
            _ => false,
        }
    }
}

pub open spec fn is_terminal_status(s: TaskStatus) -> bool {
    s == TaskStatus::Completed || s == TaskStatus::Failed || s == TaskStatus::Cancelled
}

// ---------------------------------------------------------------------------
// Laws
// ---------------------------------------------------------------------------

/// An OS written in its variant form and read back is the same OS, for every
/// OS but iOS, which the wire format does not name and reads as `Unknown`.
pub proof fn lemma_os_wire_roundtrip(o: OsKind)
    requires
        o != OsKind::IOS,
    ensures
        (if os_variant_name(o) == "Linux"@ {
            OsKind::Linux
        } else if os_variant_name(o) == "MacOS"@ {
            OsKind::MacOS
        } else if os_variant_name(o) == "Windows"@ {
            OsKind::Windows
        } else if os_variant_name(o) == "Android"@ {
            OsKind::Android
        } else {
            OsKind::Unknown
        }) == o,
{
    reveal_strlit("Linux");
    reveal_strlit("MacOS");
    reveal_strlit("Windows");
    reveal_strlit("Android");
    reveal_strlit("Unknown");
    assert("MacOS"@ != "Linux"@) by { assert("MacOS"@.len() == 5); assert("Linux"@.len() == 5); assert("MacOS"@[0] != "Linux"@[0]); }
    assert("Windows"@ != "Linux"@) by { assert("Windows"@.len() == 7); assert("Linux"@.len() == 5); }
    assert("Windows"@ != "MacOS"@) by { assert("Windows"@.len() == 7); assert("MacOS"@.len() == 5); }
    assert("Android"@ != "Linux"@) by { assert("Android"@.len() == 7); assert("Linux"@.len() == 5); }
    assert("Android"@ != "MacOS"@) by { assert("Android"@.len() == 7); assert("MacOS"@.len() == 5); }
    assert("Android"@ != "Windows"@) by { assert("Android"@.len() == 7); assert("Windows"@.len() == 7); assert("Android"@[0] != "Windows"@[0]); }
    assert("Unknown"@ != "Linux"@) by { assert("Unknown"@.len() == 7); assert("Linux"@.len() == 5); }
    assert("Unknown"@ != "MacOS"@) by { assert("Unknown"@.len() == 7); assert("MacOS"@.len() == 5); }
    assert("Unknown"@ != "Windows"@) by { assert("Unknown"@.len() == 7); assert("Windows"@.len() == 7); assert("Unknown"@[0] != "Windows"@[0]); }
    assert("Unknown"@ != "Android"@) by { assert("Unknown"@.len() == 7); assert("Android"@.len() == 7); assert("Unknown"@[0] != "Android"@[0]); }
}

/// An architecture written in its variant form and read back is the same architecture.
pub proof fn lemma_arch_wire_roundtrip(a: ArchKind)
    ensures
        (if arch_variant_name(a) == "X86_64"@ {
            ArchKind::X86_64
        } else if arch_variant_name(a) == "X86"@ {
            ArchKind::X86
        } else if arch_variant_name(a) == "Aarch64"@ {
            ArchKind::Aarch64
        } else if arch_variant_name(a) == "Armv7"@ {
            ArchKind::Armv7
        } else {
            ArchKind::Unknown
        }) == a,
{
    reveal_strlit("X86_64");
    reveal_strlit("X86");
    reveal_strlit("Aarch64");
    reveal_strlit("Armv7");
    reveal_strlit("Unknown");
    assert("X86"@ != "X86_64"@) by { assert("X86"@.len() == 3); assert("X86_64"@.len() == 6); }
    assert("Aarch64"@ != "X86_64"@) by { assert("Aarch64"@.len() == 7); assert("X86_64"@.len() == 6); }
    assert("Aarch64"@ != "X86"@) by { assert("Aarch64"@.len() == 7); assert("X86"@.len() == 3); }
    assert("Armv7"@ != "X86_64"@) by { assert("Armv7"@.len() == 5); assert("X86_64"@.len() == 6); }
    assert("Armv7"@ != "X86"@) by { assert("Armv7"@.len() == 5); assert("X86"@.len() == 3); }
    assert("Armv7"@ != "Aarch64"@) by { assert("Armv7"@.len() == 5); assert("Aarch64"@.len() == 7); }
    assert("Unknown"@ != "X86_64"@) by { assert("Unknown"@.len() == 7); assert("X86_64"@.len() == 6); }
    assert("Unknown"@ != "X86"@) by { assert("Unknown"@.len() == 7); assert("X86"@.len() == 3); }
    assert("Unknown"@ != "Aarch64"@) by { assert("Unknown"@.len() == 7); assert("Aarch64"@.len() == 7); assert("Unknown"@[0] != "Aarch64"@[0]); }
    assert("Unknown"@ != "Armv7"@) by { assert("Unknown"@.len() == 7); assert("Armv7"@.len() == 5); }
}

/// A device type written by name and read back is the same device type.
pub proof fn lemma_device_wire_roundtrip(d: DeviceType)
    ensures
        (if device_name(d) == "Desktop"@ {
            DeviceType::Desktop
        } else if device_name(d) == "Laptop"@ {
            DeviceType::Laptop
        } else if device_name(d) == "Phone"@ {
            DeviceType::Phone
        } else if device_name(d) == "SmartTV"@ {
            DeviceType::SmartTV
        } else if device_name(d) == "RaspberryPi"@ {
            DeviceType::RaspberryPi
        } else {
            DeviceType::Unknown
        }) == d,
{
    reveal_strlit("Desktop");
    reveal_strlit("Laptop");
    reveal_strlit("Phone");
    reveal_strlit("SmartTV");
    reveal_strlit("RaspberryPi");
    reveal_strlit("Unknown");
    assert("Laptop"@ != "Desktop"@) by { assert("Laptop"@.len() == 6); assert("Desktop"@.len() == 7); }
    assert("Phone"@ != "Desktop"@) by { assert("Phone"@.len() == 5); assert("Desktop"@.len() == 7); }
    assert("Phone"@ != "Laptop"@) by { assert("Phone"@.len() == 5); assert("Laptop"@.len() == 6); }
    assert("SmartTV"@ != "Desktop"@) by { assert("SmartTV"@.len() == 7); assert("Desktop"@.len() == 7); assert("SmartTV"@[0] != "Desktop"@[0]); }
    assert("SmartTV"@ != "Laptop"@) by { assert("SmartTV"@.len() == 7); assert("Laptop"@.len() == 6); }
    assert("SmartTV"@ != "Phone"@) by { assert("SmartTV"@.len() == 7); assert("Phone"@.len() == 5); }
    assert("RaspberryPi"@ != "Desktop"@) by { assert("RaspberryPi"@.len() == 11); assert("Desktop"@.len() == 7); }
    assert("RaspberryPi"@ != "Laptop"@) by { assert("RaspberryPi"@.len() == 11); assert("Laptop"@.len() == 6); }
    assert("RaspberryPi"@ != "Phone"@) by { assert("RaspberryPi"@.len() == 11); assert("Phone"@.len() == 5); }
    assert("RaspberryPi"@ != "SmartTV"@) by { assert("RaspberryPi"@.len() == 11); assert("SmartTV"@.len() == 7); }
    assert("Unknown"@ != "Desktop"@) by { assert("Unknown"@.len() == 7); assert("Desktop"@.len() == 7); assert("Unknown"@[0] != "Desktop"@[0]); }
    assert("Unknown"@ != "Laptop"@) by { assert("Unknown"@.len() == 7); assert("Laptop"@.len() == 6); }
    assert("Unknown"@ != "Phone"@) by { assert("Unknown"@.len() == 7); assert("Phone"@.len() == 5); }
    assert("Unknown"@ != "SmartTV"@) by { assert("Unknown"@.len() == 7); assert("SmartTV"@.len() == 7); assert("Unknown"@[0] != "SmartTV"@[0]); }
    assert("Unknown"@ != "RaspberryPi"@) by { assert("Unknown"@.len() == 7); assert("RaspberryPi"@.len() == 11); }
}

/// A role written by name and read back is the same role.
pub proof fn lemma_role_wire_roundtrip(r: NodeRole)
    ensures
        (if role_name(r) == "Client"@ { NodeRole::Client } else { NodeRole::Agent }) == r,
{
    reveal_strlit("Client");
    reveal_strlit("Agent");
    assert("Agent"@ != "Client"@) by { assert("Agent"@.len() == 5); assert("Client"@.len() == 6); }
}

/// A task type stored by name and read back is the same type, for every type
/// but `Plugin`, which is read back as `Compute`.
pub proof fn lemma_task_type_store_roundtrip(t: TaskType)
    requires
        t != TaskType::Plugin,
    ensures
        (if task_type_name(t) == "train"@ {
            TaskType::Train
        } else if task_type_name(t) == "finetune"@ {
            TaskType::Finetune
        } else if task_type_name(t) == "infer"@ {
            TaskType::Inference
        } else if task_type_name(t) == "preprocess"@ {
            TaskType::Preprocess
        } else if task_type_name(t) == "eval"@ {
            TaskType::Evaluate
        } else if task_type_name(t) == "rag"@ {
            TaskType::Rag
        } else if task_type_name(t) == "embed"@ {
            TaskType::Embed
        } else {
            TaskType::Compute
        }) == t,
{
    reveal_strlit("train");
    reveal_strlit("finetune");
    reveal_strlit("infer");
    reveal_strlit("preprocess");
    reveal_strlit("eval");
    reveal_strlit("rag");
    reveal_strlit("embed");
    reveal_strlit("compute");
    assert("finetune"@ != "train"@) by { assert("finetune"@.len() == 8); assert("train"@.len() == 5); }
    assert("infer"@ != "train"@) by { assert("infer"@.len() == 5); assert("train"@.len() == 5); assert("infer"@[0] != "train"@[0]); }
    assert("infer"@ != "finetune"@) by { assert("infer"@.len() == 5); assert("finetune"@.len() == 8); }
    assert("preprocess"@ != "train"@) by { assert("preprocess"@.len() == 10); assert("train"@.len() == 5); }
    assert("preprocess"@ != "finetune"@) by { assert("preprocess"@.len() == 10); assert("finetune"@.len() == 8); }
    assert("preprocess"@ != "infer"@) by { assert("preprocess"@.len() == 10); assert("infer"@.len() == 5); }
    assert("eval"@ != "train"@) by { assert("eval"@.len() == 4); assert("train"@.len() == 5); }
    assert("eval"@ != "finetune"@) by { assert("eval"@.len() == 4); assert("finetune"@.len() == 8); }
    assert("eval"@ != "infer"@) by { assert("eval"@.len() == 4); assert("infer"@.len() == 5); }
    assert("eval"@ != "preprocess"@) by { assert("eval"@.len() == 4); assert("preprocess"@.len() == 10); }
    assert("rag"@ != "train"@) by { assert("rag"@.len() == 3); assert("train"@.len() == 5); }
    assert("rag"@ != "finetune"@) by { assert("rag"@.len() == 3); assert("finetune"@.len() == 8); }
    assert("rag"@ != "infer"@) by { assert("rag"@.len() == 3); assert("infer"@.len() == 5); }
    assert("rag"@ != "preprocess"@) by { assert("rag"@.len() == 3); assert("preprocess"@.len() == 10); }
    assert("rag"@ != "eval"@) by { assert("rag"@.len() == 3); assert("eval"@.len() == 4); }
    assert("embed"@ != "train"@) by { assert("embed"@.len() == 5); assert("train"@.len() == 5); assert("embed"@[0] != "train"@[0]); }
    assert("embed"@ != "finetune"@) by { assert("embed"@.len() == 5); assert("finetune"@.len() == 8); }
    assert("embed"@ != "infer"@) by { assert("embed"@.len() == 5); assert("infer"@.len() == 5); assert("embed"@[0] != "infer"@[0]); }
    assert("embed"@ != "preprocess"@) by { assert("embed"@.len() == 5); assert("preprocess"@.len() == 10); }
    assert("embed"@ != "eval"@) by { assert("embed"@.len() == 5); assert("eval"@.len() == 4); }
    assert("embed"@ != "rag"@) by { assert("embed"@.len() == 5); assert("rag"@.len() == 3); }
    assert("compute"@ != "train"@) by { assert("compute"@.len() == 7); assert("train"@.len() == 5); }
    assert("compute"@ != "finetune"@) by { assert("compute"@.len() == 7); assert("finetune"@.len() == 8); }
    assert("compute"@ != "infer"@) by { assert("compute"@.len() == 7); assert("infer"@.len() == 5); }
    assert("compute"@ != "preprocess"@) by { assert("compute"@.len() == 7); assert("preprocess"@.len() == 10); }
    assert("compute"@ != "eval"@) by { assert("compute"@.len() == 7); assert("eval"@.len() == 4); }
    assert("compute"@ != "rag"@) by { assert("compute"@.len() == 7); assert("rag"@.len() == 3); }
    assert("compute"@ != "embed"@) by { assert("compute"@.len() == 7); assert("embed"@.len() == 5); }
}

} // verus!
