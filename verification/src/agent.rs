//! What an agent reads of its own machine: battery state, platform, device
//! kind, GPU hints and its persistent node id.
use vstd::prelude::*;
use crate::text::{chars_of, owned, str_eq, str_starts_with, trim, trim_seq, seq_starts_with, occurs_at,
    first_occurrence, find_first, string_from_chars, views, opt_view};
use crate::types::{BatteryInfo, OsKind, ArchKind, DeviceType};
use crate::numparse::{parse_u8, parse_unsigned};
use crate::ids::{parse_uuid, uuid_parse};
use crate::command::{split_at_char, split_char};

verus! {

/// Whether the agent should throttle work due to low battery.
pub fn should_throttle(battery: &BatteryInfo, limit_pct: u8) -> (r: bool)
    ensures
        r == (!battery.charging && battery.level_pct < limit_pct),
{
    !battery.charging && battery.level_pct < limit_pct
}

/// Whether a power supply of `/sys/class/power_supply` is a battery.
pub fn is_battery_supply(name: &str) -> (r: bool)
    ensures
        r == seq_starts_with(name@, "BAT"@),
{
    str_starts_with(name, "BAT")
}

pub open spec fn spec_charging(status: Seq<char>) -> bool {
    trim_seq(status) == "Charging"@ || trim_seq(status) == "Full"@
}

/// The battery state read from the `capacity` and `status` files of a
/// power supply; none when the capacity is not a percentage number.
pub fn battery_from_sysfs(capacity: &str, status: &str) -> (r: Option<BatteryInfo>)
    ensures
        match parse_unsigned(trim_seq(capacity@), u8::MAX as int) {
            Some(v) => r == Some(BatteryInfo { level_pct: v as u8, charging: spec_charging(status@) }),
            None => r is None,
        },
{
    let level = match parse_u8(trim(capacity).as_str()) {
        Some(v) => v,
        None => return None,
    };
    let st_owned = trim(status);
    let st = st_owned.as_str();
    let charging = str_eq(st, "Charging") || str_eq(st, "Full");
    Some(BatteryInfo { level_pct: level, charging })
}

pub open spec fn spec_os_from_target(os: Seq<char>) -> OsKind {
    if os == "linux"@ {
        OsKind::Linux
    } else if os == "macos"@ {
        OsKind::MacOS
    } else if os == "windows"@ {
        OsKind::Windows
    } else if os == "android"@ {
        OsKind::Android
    } else if os == "ios"@ {
        OsKind::IOS
    } else {
        OsKind::Unknown
    }
}

/// The OS kind of the platform the agent was built for, from the target OS
/// name (`std::env::consts::OS`).
pub fn detect_os(target_os: &str) -> (r: OsKind)
    ensures
        r == spec_os_from_target(target_os@),
{
    if str_eq(target_os, "linux") {
        OsKind::Linux
    } else if str_eq(target_os, "macos") {
        OsKind::MacOS
    } else if str_eq(target_os, "windows") {
        OsKind::Windows
    } else if str_eq(target_os, "android") {
        OsKind::Android
    } else if str_eq(target_os, "ios") {
        OsKind::IOS
    } else {
        OsKind::Unknown
    }
}

pub open spec fn spec_arch_from_target(arch: Seq<char>) -> ArchKind {
    if arch == "x86_64"@ {
        ArchKind::X86_64
    } else if arch == "aarch64"@ {
        ArchKind::Aarch64
    } else if arch == "x86"@ {
        ArchKind::X86
    } else if arch == "arm"@ {
        ArchKind::Armv7
    } else {
        ArchKind::Unknown
    }
}

/// The architecture the agent was built for, from the target architecture
/// name (`std::env::consts::ARCH`).
pub fn detect_arch(target_arch: &str) -> (r: ArchKind)
    ensures
        r == spec_arch_from_target(target_arch@),
{
    if str_eq(target_arch, "x86_64") {
        ArchKind::X86_64
    } else if str_eq(target_arch, "aarch64") {
        ArchKind::Aarch64
    } else if str_eq(target_arch, "x86") {
        ArchKind::X86
    } else if str_eq(target_arch, "arm") {
        ArchKind::Armv7
    } else {
        ArchKind::Unknown
    }
}

/// The kind of device the agent runs on: Android means a phone; otherwise a
/// battery means a laptop and its absence a desktop.
pub fn detect_device_type(is_android: bool, has_battery: bool) -> (r: DeviceType)
    ensures
        r == (if is_android { DeviceType::Phone } else if has_battery { DeviceType::Laptop } else { DeviceType::Desktop }),
{
    if is_android {
        return DeviceType::Phone;
    }
    if has_battery {
        DeviceType::Laptop
    } else {
        DeviceType::Desktop
    }
}

/// The pattern that opens the string value of `key` in pretty-printed JSON.
pub open spec fn json_key_pattern(key: Seq<char>) -> Seq<char> {
    seq!['"'] + key + "\" : \""@
}

/// The string value of `key`: the text from the first occurrence of the key
/// pattern up to the next double quote.
pub open spec fn spec_json_value(json: Seq<char>, key: Seq<char>) -> Option<Seq<char>> {
    match first_occurrence(json, json_key_pattern(key)) {
        Some(i) => {
            let start = i + json_key_pattern(key).len();
            match first_occurrence(json.skip(start), seq!['"']) {
                Some(j) => Some(json.subrange(start, start + j)),
                None => None,
            }
        },
        None => None,
    }
}

/// Simple JSON value extractor for the output of `system_profiler -json`.
pub fn extract_json_value(json: &str, key: &str) -> (r: Option<String>)
    ensures
        crate::text::opt_view(r) == spec_json_value(json@, key@),
{
    let js = chars_of(json);
    let mut pat: Vec<char> = Vec::new();
    pat.push('"');
    let ks = chars_of(key);
    let mut i: usize = 0;
    while i < ks.len()
        invariant
            i <= ks@.len(),
            pat@ == seq!['"'] + ks@.take(i as int),
        decreases ks@.len() - i,
    {
        pat.push(ks[i]);
        i = i + 1;
        assert(pat@ =~= seq!['"'] + ks@.take(i as int));
    }
    pat.push('"');
    pat.push(' ');
    pat.push(':');
    pat.push(' ');
    pat.push('"');
    proof {
        reveal_strlit("\" : \"");
        assert(ks@.take(ks@.len() as int) =~= ks@);
        assert(pat@ =~= json_key_pattern(key@));
    }
    let at = match find_first(js.as_slice(), pat.as_slice()) {
        Some(a) => a,
        None => return None,
    };
    let jl = js.len();
    assert(occurs_at(js@, pat@, at as int));
    assert(at + pat@.len() <= jl);
    let start = at + pat.len();
    let mut rest: Vec<char> = Vec::new();
    let mut k: usize = start;
    while k < js.len()
        invariant
            start <= k <= js@.len(),
            rest@ == js@.subrange(start as int, k as int),
        decreases js@.len() - k,
    {
        rest.push(js[k]);
        k = k + 1;
        assert(rest@ =~= js@.subrange(start as int, k as int));
    }
    assert(rest@ =~= js@.skip(start as int));
    let mut quote: Vec<char> = Vec::new();
    quote.push('"');
    let end = match find_first(rest.as_slice(), quote.as_slice()) {
        Some(e) => e,
        None => return None,
    };
    let mut out: Vec<char> = Vec::new();
    let mut m: usize = 0;
    while m < end
        invariant
            end <= rest@.len(),
            m <= end,
            out@ == rest@.take(m as int),
        decreases end - m,
    {
        out.push(rest[m]);
        m = m + 1;
        assert(out@ =~= rest@.take(m as int));
    }
    assert(out@ =~= js@.subrange(start as int, start + end));
    Some(string_from_chars(out.as_slice()))
}

/// Whether a DRM device's vendor file names AMD (PCI vendor 0x1002).
pub fn is_amd_vendor(vendor: &str) -> (r: bool)
    ensures
        r == (trim_seq(vendor@) == "0x1002"@),
{
    str_eq(trim(vendor).as_str(), "0x1002")
}

/// `s` with every leading copy of `p` removed, as `trim_start_matches` does.
pub open spec fn strip_prefix_all(s: Seq<char>, p: Seq<char>) -> Seq<char>
    decreases s.len(),
{
    if p.len() > 0 && seq_starts_with(s, p) {
        strip_prefix_all(s.skip(p.len() as int), p)
    } else {
        s
    }
}

/// The first of the pieces from position `i` on that starts with `p`.
pub open spec fn first_starting_with(pieces: Seq<Seq<char>>, p: Seq<char>, i: int) -> Option<Seq<char>>
    decreases pieces.len() - i,
{
    if i < 0 || i >= pieces.len() {
        None
    } else if seq_starts_with(pieces[i], p) {
        Some(pieces[i])
    } else {
        first_starting_with(pieces, p, i + 1)
    }
}

pub open spec fn spec_nvidia_model(info: Seq<char>) -> Seq<char> {
    match first_starting_with(split_char(info, '\n'), "Model:"@, 0) {
        Some(l) => trim_seq(strip_prefix_all(l, "Model:"@)),
        None => "NVIDIA GPU"@,
    }
}

fn strip_model_prefixes(s: &str) -> (r: String)
    ensures
        r@ == strip_prefix_all(s@, "Model:"@),
{
    let cs = chars_of(s);
    let mut i: usize = 0;
    assert(cs@.skip(0) =~= cs@);
    while cs.len() >= 6 && i <= cs.len() - 6 && cs[i] == 'M' && cs[i + 1] == 'o' && cs[i + 2] == 'd' && cs[i + 3] == 'e'
        && cs[i + 4] == 'l' && cs[i + 5] == ':'
        invariant
            cs@ == s@,
            i <= cs@.len(),
            strip_prefix_all(s@, "Model:"@) == strip_prefix_all(cs@.skip(i as int), "Model:"@),
        decreases cs@.len() - i,
    {
        proof {
            reveal_strlit("Model:");
            assert(cs@.skip(i as int).subrange(0, 6) =~= "Model:"@);
            assert(cs@.skip(i as int).skip(6) =~= cs@.skip(i + 6));
        }
        i = i + 6;
    }
    proof {
        reveal_strlit("Model:");
        let t = cs@.skip(i as int);
        if seq_starts_with(t, "Model:"@) {
            assert(t.subrange(0, 6)[0] == 'M');
            assert(t.subrange(0, 6)[1] == 'o');
            assert(t.subrange(0, 6)[2] == 'd');
            assert(t.subrange(0, 6)[3] == 'e');
            assert(t.subrange(0, 6)[4] == 'l');
            assert(t.subrange(0, 6)[5] == ':');
            assert(false);
        }
    }
    let mut out: Vec<char> = Vec::new();
    let mut k: usize = i;
    while k < cs.len()
        invariant
            i <= k <= cs@.len(),
            out@ == cs@.subrange(i as int, k as int),
        decreases cs@.len() - k,
    {
        out.push(cs[k]);
        k = k + 1;
        assert(out@ =~= cs@.subrange(i as int, k as int));
    }
    assert(out@ =~= cs@.skip(i as int));
    string_from_chars(out.as_slice())
}

/// The GPU model named on the `Model:` line of an NVIDIA driver
/// information file, or `NVIDIA GPU` when there is none.
pub fn nvidia_model_name(info: &str) -> (r: String)
    ensures
        r@ == spec_nvidia_model(info@),
{
    let lines = split_at_char(info, '\n');
    let mut i: usize = 0;
    while i < lines.len()
        invariant
            views(lines@) == split_char(info@, '\n'),
            i <= lines@.len(),
            first_starting_with(split_char(info@, '\n'), "Model:"@, 0) == first_starting_with(split_char(info@, '\n'), "Model:"@, i as int),
        decreases lines@.len() - i,
    {
        assert(views(lines@)[i as int] == lines@[i as int]@);
        if str_starts_with(lines[i].as_str(), "Model:") {
            let stripped = strip_model_prefixes(lines[i].as_str());
            return trim(stripped.as_str());
        }
        i = i + 1;
    }
    owned("NVIDIA GPU")
}

/// The node id stored in the `node_id` file, if it holds a UUID.
pub fn stored_node_id(contents: &str) -> (r: Option<u128>)
    ensures
        r == uuid_parse(trim_seq(contents@)),
{
    parse_uuid(trim(contents).as_str())
}

/// A setting given on the command line or saved from an earlier start: the
/// command-line value when one is given (non-empty), else the saved text
/// trimmed, else none.
pub open spec fn spec_resolve_setting(cli: Option<Seq<char>>, saved: Option<Seq<char>>) -> Option<Seq<char>> {
    match cli {
        Some(c) if c.len() > 0 => Some(c),
        _ => match saved {
            Some(s) => Some(trim_seq(s)),
            None => None,
        },
    }
}

/// Resolves a setting as `spec_resolve_setting` says; `saved` is the text of
/// the saved file, or none when there is no such file.
pub fn resolve_setting(cli: Option<&str>, saved: Option<&str>) -> (r: Option<String>)
    ensures
        opt_view(r) == spec_resolve_setting(
            match cli { Some(c) => Some(c@), None => None },
            match saved { Some(s) => Some(s@), None => None },
        ),
{
    match cli {
        Some(c) if !c.is_empty() => Some(owned(c)),
        _ => match saved {
            Some(s) => Some(trim(s)),
            None => None,
        },
    }
}

/// The cluster token: the one given on the command line, else the saved one
/// trimmed, else the empty token.
pub fn resolve_token(cli: &str, saved: Option<&str>) -> (r: String)
    ensures
        r@ == match spec_resolve_setting(Some(cli@), match saved { Some(s) => Some(s@), None => None }) {
            Some(t) => t,
            None => Seq::<char>::empty(),
        },
{
    match resolve_setting(Some(cli), saved) {
        Some(t) => t,
        None => String::new(),
    }
}

} // verus!
