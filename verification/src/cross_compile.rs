//! The agent binaries the cluster deploys: which Rust target each platform
//! needs, the release label of each target, and where the binary is downloaded.
use vstd::prelude::*;
use crate::text::{owned, push_str, str_eq, str_starts_with, seq_starts_with, ascii_lower_char};
use crate::types::{OsKind, ArchKind, os_display_name, arch_display_name};

verus! {

/// The supported targets: each Rust target triple with its release label.
pub open spec fn target_table() -> Seq<(Seq<char>, Seq<char>)> {
    seq![
        ("x86_64-unknown-linux-gnu"@, "linux-x86_64"@),
        ("aarch64-unknown-linux-gnu"@, "linux-aarch64"@),
        ("armv7-unknown-linux-gnueabihf"@, "linux-armv7"@),
        ("x86_64-apple-darwin"@, "macos-x86_64"@),
        ("aarch64-apple-darwin"@, "macos-aarch64"@),
        ("x86_64-pc-windows-gnu"@, "windows-x86_64"@),
        ("aarch64-pc-windows-gnullvm"@, "windows-aarch64"@),
        ("aarch64-linux-android"@, "android-aarch64"@),
        ("armv7-linux-androideabi"@, "android-armv7"@),
        ("x86_64-linux-android"@, "android-x86_64"@),
        ("aarch64-apple-ios"@, "ios-aarch64"@),
    ]
}

/// The label of the first table entry for `target`, looking from entry `i` on;
/// the target itself when no entry names it.
pub open spec fn label_from(target: Seq<char>, i: int) -> Seq<char>
    decreases target_table().len() - i,
{
    if i < 0 || i >= target_table().len() {
        target
    } else if target_table()[i].0 == target {
        target_table()[i].1
    } else {
        label_from(target, i + 1)
    }
}

pub open spec fn spec_label_for_target(target: Seq<char>) -> Seq<char> {
    label_from(target, 0)
}

/// The target triples and labels as exec values, in table order.
fn target_entries() -> (r: Vec<(&'static str, &'static str)>)
    ensures
        r@.len() == target_table().len(),
        forall|i: int| 0 <= i < r@.len() ==> (#[trigger] r@[i]).0@ == target_table()[i].0 && r@[i].1@ == target_table()[i].1,
{
    let mut v: Vec<(&'static str, &'static str)> = Vec::new();
    v.push(("x86_64-unknown-linux-gnu", "linux-x86_64"));
    v.push(("aarch64-unknown-linux-gnu", "linux-aarch64"));
    v.push(("armv7-unknown-linux-gnueabihf", "linux-armv7"));
    v.push(("x86_64-apple-darwin", "macos-x86_64"));
    v.push(("aarch64-apple-darwin", "macos-aarch64"));
    v.push(("x86_64-pc-windows-gnu", "windows-x86_64"));
    v.push(("aarch64-pc-windows-gnullvm", "windows-aarch64"));
    v.push(("aarch64-linux-android", "android-aarch64"));
    v.push(("armv7-linux-androideabi", "android-armv7"));
    v.push(("x86_64-linux-android", "android-x86_64"));
    v.push(("aarch64-apple-ios", "ios-aarch64"));
    v
}

/// Resolve the label (e.g. "linux-x86_64") for a target triple; an unknown
/// target is its own label.
pub fn label_for_target(target: &str) -> (r: String)
    ensures
        r@ == spec_label_for_target(target@),
{
    let entries = target_entries();
    let mut i: usize = 0;
    while i < entries.len()
        invariant
            entries@.len() == target_table().len(),
            forall|k: int| 0 <= k < entries@.len() ==> (#[trigger] entries@[k]).0@ == target_table()[k].0 && entries@[k].1@ == target_table()[k].1,
            i <= entries@.len(),
            label_from(target@, 0) == label_from(target@, i as int),
        decreases entries@.len() - i,
    {
        let (t, l) = entries[i];
        if str_eq(t, target) {
            return owned(l);
        }
        i = i + 1;
    }
    owned(target)
}

pub open spec fn agent_url(repo: Seq<char>, label: Seq<char>) -> Seq<char> {
    "https://github.com/"@ + repo + "/releases/latest/download/architect-agent-"@ + label
        + (if seq_starts_with(label, "windows"@) { ".exe"@ } else { Seq::<char>::empty() })
}

/// Construct the GitHub Release download URL for an agent binary.
pub fn github_agent_url(github_repo: &str, label: &str) -> (r: String)
    ensures
        r@ == agent_url(github_repo@, label@),
{
    let mut s = owned("https://github.com/");
    push_str(&mut s, github_repo);
    push_str(&mut s, "/releases/latest/download/architect-agent-");
    push_str(&mut s, label);
    if str_starts_with(label, "windows") {
        push_str(&mut s, ".exe");
    }
    s
}

pub open spec fn spec_target_for_platform(os: OsKind, arch: ArchKind) -> Option<Seq<char>> {
    match (os, arch) {
        (OsKind::Linux, ArchKind::X86_64) => Some("x86_64-unknown-linux-gnu"@),
        (OsKind::Linux, ArchKind::Aarch64) => Some("aarch64-unknown-linux-gnu"@),
        (OsKind::Linux, ArchKind::Armv7) => Some("armv7-unknown-linux-gnueabihf"@),
        (OsKind::MacOS, ArchKind::X86_64) => Some("x86_64-apple-darwin"@),
        (OsKind::MacOS, ArchKind::Aarch64) => Some("aarch64-apple-darwin"@),
        (OsKind::Windows, ArchKind::X86_64) => Some("x86_64-pc-windows-gnu"@),
        (OsKind::Windows, ArchKind::Aarch64) => Some("aarch64-pc-windows-gnullvm"@),
        (OsKind::Android, ArchKind::Aarch64) => Some("aarch64-linux-android"@),
        (OsKind::Android, ArchKind::Armv7) => Some("armv7-linux-androideabi"@),
        (OsKind::Android, ArchKind::X86_64) => Some("x86_64-linux-android"@),
        (OsKind::IOS, ArchKind::Aarch64) => Some("aarch64-apple-ios"@),
        _ => None,
    }
}

/// Map platform enums to a Rust target triple.
pub fn target_for_platform(os: OsKind, arch: ArchKind) -> (r: Option<&'static str>)
    ensures
        match r {
            Some(t) => spec_target_for_platform(os, arch) == Some(t@),
            None => spec_target_for_platform(os, arch) is None,
        },
{
    match (os, arch) {
        (OsKind::Linux, ArchKind::X86_64) => Some("x86_64-unknown-linux-gnu"),
        (OsKind::Linux, ArchKind::Aarch64) => Some("aarch64-unknown-linux-gnu"),
        (OsKind::Linux, ArchKind::Armv7) => Some("armv7-unknown-linux-gnueabihf"),
        (OsKind::MacOS, ArchKind::X86_64) => Some("x86_64-apple-darwin"),
        (OsKind::MacOS, ArchKind::Aarch64) => Some("aarch64-apple-darwin"),
        (OsKind::Windows, ArchKind::X86_64) => Some("x86_64-pc-windows-gnu"),
        (OsKind::Windows, ArchKind::Aarch64) => Some("aarch64-pc-windows-gnullvm"),
        (OsKind::Android, ArchKind::Aarch64) => Some("aarch64-linux-android"),
        (OsKind::Android, ArchKind::Armv7) => Some("armv7-linux-androideabi"),
        (OsKind::Android, ArchKind::X86_64) => Some("x86_64-linux-android"),
        (OsKind::IOS, ArchKind::Aarch64) => Some("aarch64-apple-ios"),
        _ => None,
    }
}

/// The triples of the table are pairwise different.
proof fn lemma_table_distinct()
    ensures
        forall|a: int, b: int| 0 <= a < target_table().len() && 0 <= b < target_table().len() && a != b
            ==> #[trigger] target_table()[a].0 != #[trigger] target_table()[b].0,
{
    reveal_strlit("x86_64-unknown-linux-gnu");
    reveal_strlit("aarch64-unknown-linux-gnu");
    reveal_strlit("armv7-unknown-linux-gnueabihf");
    reveal_strlit("x86_64-apple-darwin");
    reveal_strlit("aarch64-apple-darwin");
    reveal_strlit("x86_64-pc-windows-gnu");
    reveal_strlit("aarch64-pc-windows-gnullvm");
    reveal_strlit("aarch64-linux-android");
    reveal_strlit("armv7-linux-androideabi");
    reveal_strlit("x86_64-linux-android");
    reveal_strlit("aarch64-apple-ios");
    reveal_strlit("linux-x86_64");
    reveal_strlit("linux-aarch64");
    reveal_strlit("linux-armv7");
    reveal_strlit("macos-x86_64");
    reveal_strlit("macos-aarch64");
    reveal_strlit("windows-x86_64");
    reveal_strlit("windows-aarch64");
    reveal_strlit("android-aarch64");
    reveal_strlit("android-armv7");
    reveal_strlit("android-x86_64");
    reveal_strlit("ios-aarch64");
    assert(target_table()[0].0.len() == 24 && target_table()[0].0[0] == 'x');
    assert(target_table()[1].0.len() == 25 && target_table()[1].0[0] == 'a');
    assert(target_table()[2].0.len() == 29 && target_table()[2].0[0] == 'a');
    assert(target_table()[3].0.len() == 19 && target_table()[3].0[0] == 'x');
    assert(target_table()[4].0.len() == 20 && target_table()[4].0[0] == 'a');
    assert(target_table()[5].0.len() == 21 && target_table()[5].0[0] == 'x');
    assert(target_table()[6].0.len() == 26 && target_table()[6].0[0] == 'a');
    assert(target_table()[7].0.len() == 21 && target_table()[7].0[0] == 'a');
    assert(target_table()[8].0.len() == 23 && target_table()[8].0[0] == 'a');
    assert(target_table()[9].0.len() == 20 && target_table()[9].0[0] == 'x');
    assert(target_table()[10].0.len() == 17 && target_table()[10].0[0] == 'a');
}

/// The first entry for a triple that occurs at position `i` of the table,
/// looked up from position `k`, is entry `i`.
proof fn lemma_label_from(t: Seq<char>, k: int, i: int)
    requires
        0 <= k <= i < target_table().len(),
        target_table()[i].0 == t,
        forall|q: int| k <= q < i ==> #[trigger] target_table()[q].0 != t,
    ensures
        label_from(t, k) == target_table()[i].1,
    decreases i - k,
{
    if k < i {
        lemma_label_from(t, k + 1, i);
    }
}

/// A triple of the table has the label written beside it.
proof fn lemma_label_of_entry(i: int)
    requires
        0 <= i < target_table().len(),
    ensures
        spec_label_for_target(target_table()[i].0) == target_table()[i].1,
{
    lemma_table_distinct();
    lemma_label_from(target_table()[i].0, 0, i);
}

/// The lower-case form of a text, letter by ASCII letter.
pub open spec fn ascii_lowercase(s: Seq<char>) -> Seq<char> {
    s.map_values(|c: char| ascii_lower_char(c))
}

/// The label of a platform's target is the name of its OS in lower case, a
/// hyphen, then the name of its architecture.
pub proof fn lemma_label_names_platform(os: OsKind, arch: ArchKind)
    requires
        spec_target_for_platform(os, arch) is Some,
    ensures
        spec_label_for_target(spec_target_for_platform(os, arch).unwrap())
            == ascii_lowercase(os_display_name(os)) + "-"@ + arch_display_name(arch),
{
    reveal_strlit("-");
    reveal_strlit("Linux");
    reveal_strlit("macOS");
    reveal_strlit("Windows");
    reveal_strlit("Android");
    reveal_strlit("iOS");
    reveal_strlit("x86_64");
    reveal_strlit("aarch64");
    reveal_strlit("armv7");
    reveal_strlit("linux-x86_64");
    reveal_strlit("linux-aarch64");
    reveal_strlit("linux-armv7");
    reveal_strlit("macos-x86_64");
    reveal_strlit("macos-aarch64");
    reveal_strlit("windows-x86_64");
    reveal_strlit("windows-aarch64");
    reveal_strlit("android-aarch64");
    reveal_strlit("android-armv7");
    reveal_strlit("android-x86_64");
    reveal_strlit("ios-aarch64");
    let i: int = match (os, arch) {
        (OsKind::Linux, ArchKind::X86_64) => 0,
        (OsKind::Linux, ArchKind::Aarch64) => 1,
        (OsKind::Linux, ArchKind::Armv7) => 2,
        (OsKind::MacOS, ArchKind::X86_64) => 3,
        (OsKind::MacOS, ArchKind::Aarch64) => 4,
        (OsKind::Windows, ArchKind::X86_64) => 5,
        (OsKind::Windows, ArchKind::Aarch64) => 6,
        (OsKind::Android, ArchKind::Aarch64) => 7,
        (OsKind::Android, ArchKind::Armv7) => 8,
        (OsKind::Android, ArchKind::X86_64) => 9,
        _ => 10,
    };
    lemma_label_of_entry(i);
    assert(target_table()[i].0 == spec_target_for_platform(os, arch).unwrap());
    assert(target_table()[i].1 =~= ascii_lowercase(os_display_name(os)) + "-"@ + arch_display_name(arch));
}

/// A text that names no target of the table is its own label.
pub proof fn lemma_unknown_target_label(target: Seq<char>)
    requires
        forall|i: int| 0 <= i < target_table().len() ==> (#[trigger] target_table()[i]).0 != target,
    ensures
        spec_label_for_target(target) == target,
{
    lemma_label_from_absent(target, 0);
}

proof fn lemma_label_from_absent(target: Seq<char>, i: int)
    requires
        0 <= i,
        forall|k: int| 0 <= k < target_table().len() ==> (#[trigger] target_table()[k]).0 != target,
    ensures
        label_from(target, i) == target,
    decreases target_table().len() - i,
{
    if i < target_table().len() {
        lemma_label_from_absent(target, i + 1);
    }
}

/// Every platform with a target has a label in the table, and the binary
/// downloaded for it ends in `.exe` exactly when the platform is Windows.
pub proof fn lemma_platform_label(os: OsKind, arch: ArchKind)
    requires
        spec_target_for_platform(os, arch) is Some,
    ensures
        spec_label_for_target(spec_target_for_platform(os, arch).unwrap()) != spec_target_for_platform(os, arch).unwrap(),
        seq_starts_with(spec_label_for_target(spec_target_for_platform(os, arch).unwrap()), "windows"@) <==> os == OsKind::Windows,
{
    reveal_strlit("x86_64-unknown-linux-gnu");
    reveal_strlit("aarch64-unknown-linux-gnu");
    reveal_strlit("armv7-unknown-linux-gnueabihf");
    reveal_strlit("x86_64-apple-darwin");
    reveal_strlit("aarch64-apple-darwin");
    reveal_strlit("x86_64-pc-windows-gnu");
    reveal_strlit("aarch64-pc-windows-gnullvm");
    reveal_strlit("aarch64-linux-android");
    reveal_strlit("armv7-linux-androideabi");
    reveal_strlit("x86_64-linux-android");
    reveal_strlit("aarch64-apple-ios");
    reveal_strlit("linux-x86_64");
    reveal_strlit("linux-aarch64");
    reveal_strlit("linux-armv7");
    reveal_strlit("macos-x86_64");
    reveal_strlit("macos-aarch64");
    reveal_strlit("windows-x86_64");
    reveal_strlit("windows-aarch64");
    reveal_strlit("android-aarch64");
    reveal_strlit("android-armv7");
    reveal_strlit("android-x86_64");
    reveal_strlit("ios-aarch64");
    reveal_strlit("windows");
    assert(target_table()[0].0.len() == 24 && target_table()[0].0[0] == 'x');
    assert(target_table()[1].0.len() == 25 && target_table()[1].0[0] == 'a');
    assert(target_table()[2].0.len() == 29 && target_table()[2].0[0] == 'a');
    assert(target_table()[3].0.len() == 19 && target_table()[3].0[0] == 'x');
    assert(target_table()[4].0.len() == 20 && target_table()[4].0[0] == 'a');
    assert(target_table()[5].0.len() == 21 && target_table()[5].0[0] == 'x');
    assert(target_table()[6].0.len() == 26 && target_table()[6].0[0] == 'a');
    assert(target_table()[7].0.len() == 21 && target_table()[7].0[0] == 'a');
    assert(target_table()[8].0.len() == 23 && target_table()[8].0[0] == 'a');
    assert(target_table()[9].0.len() == 20 && target_table()[9].0[0] == 'x');
    assert(target_table()[10].0.len() == 17 && target_table()[10].0[0] == 'a');
    assert(target_table()[0].1.len() == 12 && target_table()[0].1[0] == 'l');
    assert(target_table()[1].1.len() == 13 && target_table()[1].1[0] == 'l');
    assert(target_table()[2].1.len() == 11 && target_table()[2].1[0] == 'l');
    assert(target_table()[3].1.len() == 12 && target_table()[3].1[0] == 'm');
    assert(target_table()[4].1.len() == 13 && target_table()[4].1[0] == 'm');
    assert(target_table()[5].1.len() == 14 && target_table()[5].1[0] == 'w');
    assert(target_table()[6].1.len() == 15 && target_table()[6].1[0] == 'w');
    assert(target_table()[7].1.len() == 15 && target_table()[7].1[0] == 'a');
    assert(target_table()[8].1.len() == 13 && target_table()[8].1[0] == 'a');
    assert(target_table()[9].1.len() == 14 && target_table()[9].1[0] == 'a');
    assert(target_table()[10].1.len() == 11 && target_table()[10].1[0] == 'i');
    let t = spec_target_for_platform(os, arch).unwrap();
    let i: int = choose|i: int| 0 <= i < target_table().len() && target_table()[i].0 == t;
    lemma_label_of_entry(i);
    let l = target_table()[i].1;
    assert(l.len() != t.len());
    if os == OsKind::Windows {
        assert(l.take(7) =~= "windows"@);
    } else {
        assert(l.take(7)[0] != "windows"@[0]);
    }
}


/// The directory agent binaries are built into: `builds` in the data directory.
pub fn builds_dir(env: &crate::config::PathEnv) -> (r: String)
    ensures
        r@ == crate::config::path_join(crate::config::spec_data_dir(*env), "builds"@, env.separator),
{
    let d = crate::config::data_dir(env);
    crate::config::join_path(d.as_str(), "builds", env.separator)
}

/// Where the agent binary for a platform label is served from.
pub fn agent_binary_path(env: &crate::config::PathEnv, label: &str) -> (r: String)
    ensures
        r@ == crate::config::path_join(
            crate::config::path_join(crate::config::path_join(crate::config::spec_data_dir(*env), "builds"@, env.separator),
                label@, env.separator),
            "architect-agent"@, env.separator),
{
    let b = builds_dir(env);
    let l = crate::config::join_path(b.as_str(), label, env.separator);
    crate::config::join_path(l.as_str(), "architect-agent", env.separator)
}

} // verus!
