//! Finding machines on the LAN: the addresses of a subnet, the ports probed
//! on each host, what open ports and SSH banners say about a device, and the
//! nodes announced over mDNS.
use vstd::prelude::*;
use crate::text::{chars_of, owned, push_str, str_contains, to_lowercase, lowercase_of, seq_contains, opt_view, views};
use crate::types::DeviceType;
use crate::numparse::{parse_u32, parse_unsigned, all_digits, decimal_value, is_digit, digit_value, decimal_text, decimal_string};
use crate::command::{split_at_char, split_char};

verus! {

/// A node discovered via scanning or mDNS; the address is kept as its text.
pub struct DiscoveredNode {
    pub ip: String,
    pub hostname: Option<String>,
    pub open_ports: Vec<u16>,
    pub device_type: DeviceType,
    pub has_agent: bool,
    pub os_hint: Option<String>,
}

/// The short label of a device type in the scan listing.
pub open spec fn device_label(d: DeviceType) -> Seq<char> {
    match d {
        DeviceType::Desktop => "desktop"@,
        DeviceType::Laptop => "laptop"@,
        DeviceType::Phone => "phone"@,
        DeviceType::SmartTV => "tv"@,
        DeviceType::RaspberryPi => "raspi"@,
        DeviceType::Unknown => "unknown"@,
    }
}

/// One line of the scan listing: `<ip> <type> os=<hint or -> agent=<yes|no>`.
pub open spec fn device_line(ip: Seq<char>, d: DeviceType, os_hint: Option<Seq<char>>, has_agent: bool) -> Seq<char> {
    ip + " "@ + device_label(d) + " os="@ + (match os_hint { Some(h) => h, None => "-"@ })
        + " agent="@ + (if has_agent { "yes"@ } else { "no"@ })
}

/// Formats a discovered node for display.
pub fn format_device(node: &DiscoveredNode) -> (r: String)
    ensures
        r@ == device_line(node.ip@, node.device_type, opt_view(node.os_hint), node.has_agent),
{
    let dtype = match node.device_type {
        DeviceType::Desktop => "desktop",
        DeviceType::Laptop => "laptop",
        DeviceType::Phone => "phone",
        DeviceType::SmartTV => "tv",
        DeviceType::RaspberryPi => "raspi",
        DeviceType::Unknown => "unknown",
    };
    let mut r = owned(node.ip.as_str());
    push_str(&mut r, " ");
    push_str(&mut r, dtype);
    push_str(&mut r, " os=");
    match &node.os_hint {
        Some(h) => push_str(&mut r, h.as_str()),
        None => push_str(&mut r, "-"),
    }
    push_str(&mut r, " agent=");
    push_str(&mut r, if node.has_agent { "yes" } else { "no" });
    r
}

/// Result of fingerprinting a discovered node.
pub struct FingerprintResult {
    pub device_type: DeviceType,
    pub os_hint: Option<String>,
    pub hostname: Option<String>,
}

// ---------------------------------------------------------------------------
// Device type from ports and banners
// ---------------------------------------------------------------------------

pub open spec fn spec_infer_device_type(ports: Seq<u16>) -> DeviceType {
    if ports.contains(5555) {
        DeviceType::Phone
    } else if ports.contains(5985) {
        DeviceType::Desktop
    } else if ports.contains(22) {
        DeviceType::Desktop
    } else {
        DeviceType::Unknown
    }
}

fn ports_contain(ports: &[u16], p: u16) -> (r: bool)
    ensures
        r == ports@.contains(p),
{
    let mut i: usize = 0;
    while i < ports.len()
        invariant
            i <= ports@.len(),
            forall|k: int| 0 <= k < i ==> ports@[k] != p,
        decreases ports@.len() - i,
    {
        if ports[i] == p {
            assert(ports@[i as int] == p);
            return true;
        }
        i = i + 1;
    }
    false
}

/// Infer device type from open ports: ADB means a phone, WinRM or SSH a
/// desktop.
pub fn infer_device_type(ports: &[u16]) -> (r: DeviceType)
    ensures
        r == spec_infer_device_type(ports@),
{
    if ports_contain(ports, 5555) {
        DeviceType::Phone
    } else if ports_contain(ports, 5985) {
        DeviceType::Desktop
    } else if ports_contain(ports, 22) {
        DeviceType::Desktop
    } else {
        DeviceType::Unknown
    }
}

pub open spec fn spec_banner_hint(lower: Seq<char>) -> Option<Seq<char>> {
    if seq_contains(lower, "ubuntu"@) {
        Some("Ubuntu Linux"@)
    } else if seq_contains(lower, "debian"@) {
        Some("Debian Linux"@)
    } else if seq_contains(lower, "raspbian"@) || seq_contains(lower, "raspberry"@) {
        Some("Raspberry Pi OS"@)
    } else if seq_contains(lower, "openssh"@) {
        if seq_contains(lower, "linux"@) {
            Some("Linux"@)
        } else {
            Some("Unix/Linux"@)
        }
    } else if seq_contains(lower, "dropbear"@) {
        Some("Embedded Linux"@)
    } else {
        None
    }
}

/// The OS hint of an SSH banner, from the words in its lower-cased text.
pub fn parse_ssh_banner(banner: &str) -> (r: Option<String>)
    ensures
        opt_view(r) == spec_banner_hint(lowercase_of(banner@)),
{
    let lower = to_lowercase(banner);
    let l = lower.as_str();
    if str_contains(l, "ubuntu") {
        Some(owned("Ubuntu Linux"))
    } else if str_contains(l, "debian") {
        Some(owned("Debian Linux"))
    } else if str_contains(l, "raspbian") || str_contains(l, "raspberry") {
        Some(owned("Raspberry Pi OS"))
    } else if str_contains(l, "openssh") {
        if str_contains(l, "linux") {
            Some(owned("Linux"))
        } else {
            Some(owned("Unix/Linux"))
        }
    } else if str_contains(l, "dropbear") {
        Some(owned("Embedded Linux"))
    } else {
        None
    }
}

pub open spec fn spec_os_device_type(hint: Option<Seq<char>>) -> DeviceType {
    match hint {
        Some(os) => if seq_contains(os, "Raspberry"@) || seq_contains(os, "Embedded"@) {
            DeviceType::RaspberryPi
        } else if seq_contains(os, "Android"@) {
            DeviceType::Phone
        } else {
            DeviceType::Desktop
        },
        None => DeviceType::Desktop,
    }
}

/// Infer device type from OS hint.
pub fn infer_os_device_type(os_hint: Option<&str>) -> (r: DeviceType)
    ensures
        r == spec_os_device_type(match os_hint { Some(s) => Some(s@), None => None }),
{
    match os_hint {
        Some(os) => {
            if str_contains(os, "Raspberry") || str_contains(os, "Embedded") {
                DeviceType::RaspberryPi
            } else if str_contains(os, "Android") {
                DeviceType::Phone
            } else {
                DeviceType::Desktop
            }
        },
        None => DeviceType::Desktop,
    }
}

/// Probes discovered nodes to identify OS and device type.
pub struct DeviceFingerprinter;

impl DeviceFingerprinter {
    pub fn new() -> (r: Self) {
        DeviceFingerprinter
    }

    /// What an SSH banner tells of a node.
    pub fn from_ssh_banner(banner: &str) -> (r: FingerprintResult)
        ensures
            opt_view(r.os_hint) == spec_banner_hint(lowercase_of(banner@)),
            r.device_type == spec_os_device_type(spec_banner_hint(lowercase_of(banner@))),
            r.hostname is None,
    {
        let os_hint = parse_ssh_banner(banner);
        let device_type = match &os_hint {
            Some(h) => infer_os_device_type(Some(h.as_str())),
            None => infer_os_device_type(None),
        };
        FingerprintResult { device_type, os_hint, hostname: None }
    }

    /// The request sent to a node's agent port.
    pub fn health_request(ip: &str) -> (r: String)
        ensures
            r@ == "GET /health HTTP/1.0\r\nHost: "@ + ip@ + "\r\n\r\n"@,
    {
        let mut s = owned("GET /health HTTP/1.0\r\nHost: ");
        push_str(&mut s, ip);
        push_str(&mut s, "\r\n\r\n");
        s
    }

    /// What an HTTP answer tells of a node: an architect agent when the
    /// answer mentions architect, nothing otherwise.
    pub fn from_http_response(node: &DiscoveredNode, response: &str) -> (r: Option<FingerprintResult>)
        ensures
            r is Some <==> seq_contains(response@, "architect"@),
            r matches Some(f) ==> f.device_type == node.device_type && opt_view(f.os_hint) == Some("architect-agent"@)
                && f.hostname is None,
    {
        if str_contains(response, "architect") {
            Some(FingerprintResult { device_type: node.device_type, os_hint: Some(owned("architect-agent")), hostname: None })
        } else {
            None
        }
    }

    /// Whether a node's SSH banner is read: port 22 is open.
    pub fn probes_ssh(node: &DiscoveredNode) -> (r: bool)
        ensures
            r == node.open_ports@.contains(22),
    {
        ports_contain(node.open_ports.as_slice(), 22)
    }

    /// The port a node's agent is asked on: the first open port, if the node runs an agent.
    pub fn http_port(node: &DiscoveredNode) -> (r: Option<u16>)
        ensures
            r is Some <==> node.has_agent && node.open_ports@.len() > 0,
            r matches Some(p) ==> p == node.open_ports@[0],
    {
        if node.has_agent && node.open_ports.len() > 0 {
            Some(node.open_ports[0])
        } else {
            None
        }
    }
}

// ---------------------------------------------------------------------------
// Subnets
// ---------------------------------------------------------------------------

/// Ports probed on every host, besides the agent port.
pub open spec fn probe_ports() -> Seq<u16> {
    seq![22u16, 5555u16, 5985u16, 9876u16]
}

/// The ports of `s` other than `a`, in order.
pub open spec fn ports_except(s: Seq<u16>, a: u16) -> Seq<u16>
    decreases s.len(),
{
    if s.len() == 0 {
        Seq::empty()
    } else if s.last() != a {
        ports_except(s.drop_last(), a).push(s.last())
    } else {
        ports_except(s.drop_last(), a)
    }
}

/// One octet of dotted-decimal notation: one to three digits, no leading
/// zero, at most 255.
pub open spec fn octet_ok(d: Seq<char>) -> bool {
    1 <= d.len() <= 3 && all_digits(d) && (d.len() == 1 || d[0] != '0') && decimal_value(d) <= 255
}

/// An IPv4 address in dotted-decimal notation, as a 32-bit number.
pub open spec fn spec_parse_ipv4(s: Seq<char>) -> Option<u32> {
    let p = split_char(s, '.');
    if p.len() == 4 && octet_ok(p[0]) && octet_ok(p[1]) && octet_ok(p[2]) && octet_ok(p[3]) {
        Some((decimal_value(p[0]) * 0x100_0000 + decimal_value(p[1]) * 0x1_0000 + decimal_value(p[2]) * 0x100
            + decimal_value(p[3])) as u32)
    } else {
        None
    }
}

/// The base address and prefix length of `a.b.c.d/n`, with `n` at most 32.
pub open spec fn spec_subnet_parts(s: Seq<char>) -> Option<(u32, u32)> {
    let p = split_char(s, '/');
    if p.len() == 2 {
        match spec_parse_ipv4(p[0]) {
            Some(b) => match parse_unsigned(p[1], u32::MAX as int) {
                Some(n) => if n <= 32 { Some((b, n as u32)) } else { None },
                None => None,
            },
            None => None,
        }
    } else {
        None
    }
}

/// The host addresses of a subnet: every address but the network and
/// broadcast ones. A prefix of 0 gives none: the host count `1 << 32` does
/// not fit in 32 bits, and the shift, taken modulo 32, counts a single
/// address.
pub open spec fn spec_subnet_hosts(base: u32, prefix: u32) -> Seq<u32> {
    if prefix == 0 {
        Seq::empty()
    } else {
        spec_subnet_hosts_nonzero(base, prefix)
    }
}

/// The host addresses of a subnet whose prefix is at least 1.
pub open spec fn spec_subnet_hosts_nonzero(base: u32, prefix: u32) -> Seq<u32> {
    let num = 1u32 << ((32 - prefix) as u32);
    let count: int = if num >= 2 { num - 2 } else { 0 };
    Seq::new(count as nat, |k: int| (base & !((num - 1) as u32)) | ((k + 1) as u32))
}

fn parse_octet(s: &str) -> (r: Option<u32>)
    ensures
        match r {
            Some(v) => octet_ok(s@) && v == decimal_value(s@),
            None => !octet_ok(s@),
        },
{
    let cs = chars_of(s);
    if cs.len() < 1 || cs.len() > 3 {
        return None;
    }
    if cs.len() > 1 && cs[0] == '0' {
        return None;
    }
    let mut v: u32 = 0;
    let mut i: usize = 0;
    while i < cs.len()
        invariant
            cs@ == s@,
            1 <= cs@.len() <= 3,
            i <= cs@.len(),
            forall|k: int| 0 <= k < i ==> is_digit(#[trigger] cs@[k]),
            v == decimal_value(cs@.take(i as int)),
            v < (if i == 0 { 1int } else if i == 1 { 10int } else if i == 2 { 100int } else { 1000int }),
        decreases cs@.len() - i,
    {
        let c = cs[i];
        if !('0' <= c && c <= '9') {
            return None;
        }
        proof {
            assert(cs@.take(i + 1).drop_last() =~= cs@.take(i as int));
        }
        v = v * 10 + ((c as u32) - ('0' as u32));
        i = i + 1;
    }
    assert(cs@.take(cs@.len() as int) =~= cs@);
    if v > 255 {
        return None;
    }
    Some(v)
}

/// Parses an IPv4 address in dotted-decimal notation.
pub fn parse_ipv4(s: &str) -> (r: Option<u32>)
    ensures
        r == spec_parse_ipv4(s@),
{
    let parts = split_at_char(s, '.');
    assert(views(parts@).len() == parts@.len());
    if parts.len() != 4 {
        return None;
    }
    let a = match parse_octet(parts[0].as_str()) { Some(v) => v, None => return None };
    let b = match parse_octet(parts[1].as_str()) { Some(v) => v, None => return None };
    let c = match parse_octet(parts[2].as_str()) { Some(v) => v, None => return None };
    let d = match parse_octet(parts[3].as_str()) { Some(v) => v, None => return None };
    proof {
        assert(views(parts@)[0] == parts@[0]@);
        assert(views(parts@)[1] == parts@[1]@);
        assert(views(parts@)[2] == parts@[2]@);
        assert(views(parts@)[3] == parts@[3]@);
    }
    Some(a * 0x100_0000 + b * 0x1_0000 + c * 0x100 + d)
}

/// The base address and prefix length of a subnet written `a.b.c.d/n`.
pub fn subnet_parts(subnet: &str) -> (r: Option<(u32, u32)>)
    ensures
        r == spec_subnet_parts(subnet@),
        r matches Some((_, p)) ==> p <= 32,
{
    let parts = split_at_char(subnet, '/');
    assert(views(parts@).len() == parts@.len());
    if parts.len() != 2 {
        return None;
    }
    proof {
        assert(views(parts@)[0] == parts@[0]@);
        assert(views(parts@)[1] == parts@[1]@);
    }
    let base = match parse_ipv4(parts[0].as_str()) { Some(b) => b, None => return None };
    let prefix = match parse_u32(parts[1].as_str()) { Some(p) => p, None => return None };
    if prefix > 32 {
        return None;
    }
    Some((base, prefix))
}

/// Scans a subnet for devices with open ports.
pub struct NetworkScanner {
    pub subnet: String,
    pub agent_port: u16,
}

impl NetworkScanner {
    pub fn new(subnet: String, agent_port: u16) -> (r: Self)
        ensures
            r.subnet == subnet,
            r.agent_port == agent_port,
    {
        NetworkScanner { subnet, agent_port }
    }

    /// The host addresses of the subnet (e.g. "192.168.1.0/24"), without the
    /// network and broadcast addresses; none when the subnet does not parse,
    /// and none for a prefix of 0.
    pub fn parse_subnet(&self) -> (r: Vec<u32>)
        ensures
            r@ == match spec_subnet_parts(self.subnet@) {
                Some((b, p)) => spec_subnet_hosts(b, p),
                None => Seq::<u32>::empty(),
            },
    {
        let (base, prefix) = match subnet_parts(self.subnet.as_str()) {
            Some(bp) => bp,
            None => return Vec::new(),
        };
        assert(spec_subnet_parts(self.subnet@) == Some((base, prefix)));
        if prefix == 0 {
            return Vec::new();
        }
        assert(0 < prefix <= 32);
        let host_bits: u32 = 32 - prefix;
        assert(host_bits < 32);
        let num_hosts: u32 = 1u32 << host_bits;
        assert(num_hosts >= 1) by (bit_vector)
            requires host_bits < 32, num_hosts == 1u32 << host_bits;
        let upper: u32 = num_hosts.saturating_sub(1);
        let mask: u32 = !(num_hosts - 1);
        let net: u32 = base & mask;
        let mut out: Vec<u32> = Vec::new();
        let mut i: u32 = 1;
        let ghost count: int = if num_hosts >= 2 { num_hosts - 2 } else { 0 };
        while i < upper
            invariant
                1 <= i,
                upper == (if num_hosts >= 1 { num_hosts - 1 } else { 0 }),
                i <= upper || upper == 0,
                upper == 0 ==> i == 1,
                out@.len() == i - 1,
                forall|k: int| 0 <= k < out@.len() ==> #[trigger] out@[k] == (net | ((k + 1) as u32)),
            decreases upper - i,
        {
            out.push(net | i);
            i = i + 1;
        }
        proof {
            let hosts = spec_subnet_hosts_nonzero(base, prefix);
            assert(host_bits == (32 - prefix) as u32);
            if num_hosts >= 2 {
                assert(i == upper);
                assert(out@.len() == num_hosts - 2);
            } else {
                assert(out@.len() == 0);
            }
            assert(hosts.len() == out@.len());
            assert forall|k: int| 0 <= k < out@.len() implies out@[k] == hosts[k] by {}
            assert(out@ =~= hosts);
        }
        out
    }

    /// The ports probed on a host: the agent port first, then the well-known
    /// ports other than it.
    pub fn ports_to_check(&self) -> (r: Vec<u16>)
        ensures
            r@ == seq![self.agent_port] + ports_except(probe_ports(), self.agent_port),
    {
        let mut v: Vec<u16> = Vec::new();
        v.push(self.agent_port);
        let known: [u16; 4] = [22, 5555, 5985, 9876];
        let mut i: usize = 0;
        while i < 4
            invariant
                known@ == probe_ports(),
                i <= 4,
                v@ == seq![self.agent_port] + ports_except(probe_ports().take(i as int), self.agent_port),
            decreases 4 - i,
        {
            let p = known[i];
            proof {
                assert(probe_ports().take(i + 1).drop_last() =~= probe_ports().take(i as int));
            }
            if p != self.agent_port {
                v.push(p);
            }
            i = i + 1;
            assert(v@ =~= seq![self.agent_port] + ports_except(probe_ports().take(i as int), self.agent_port));
        }
        assert(probe_ports().take(4) =~= probe_ports());
        v
    }

    /// The node a host is, from the ports found open on it; none when no
    /// port is open.
    pub fn node_from_ports(&self, ip: String, open_ports: Vec<u16>) -> (r: Option<DiscoveredNode>)
        ensures
            r is Some <==> open_ports@.len() > 0,
            r matches Some(n) ==> n.ip == ip && n.hostname is None && n.open_ports@ == open_ports@
                && n.device_type == spec_infer_device_type(open_ports@)
                && n.has_agent == open_ports@.contains(self.agent_port) && n.os_hint is None,
    {
        if open_ports.len() == 0 {
            return None;
        }
        let has_agent = ports_contain(open_ports.as_slice(), self.agent_port);
        let device_type = infer_device_type(open_ports.as_slice());
        Some(DiscoveredNode { ip, hostname: None, open_ports, device_type, has_agent, os_hint: None })
    }
}

// ---------------------------------------------------------------------------
// Merging the sources
// ---------------------------------------------------------------------------

/// Orchestrates all discovery sources and merges results.
pub struct NodeDiscovery {
    pub subnet: String,
    pub agent_port: u16,
}

impl NodeDiscovery {
    pub fn new(subnet: String, agent_port: u16) -> (r: Self)
        ensures
            r.subnet == subnet,
            r.agent_port == agent_port,
    {
        NodeDiscovery { subnet, agent_port }
    }

    /// A scanned node enriched with what fingerprinting found: its device
    /// type and OS hint are replaced, its hostname kept unless one was found.
    pub fn enrich(node: DiscoveredNode, found: Option<FingerprintResult>) -> (r: DiscoveredNode)
        ensures
            r.ip == node.ip,
            r.open_ports == node.open_ports,
            r.has_agent == node.has_agent,
            match found {
                Some(f) => r.device_type == f.device_type && r.os_hint == f.os_hint
                    && r.hostname == (match f.hostname { Some(h) => Some(h), None => node.hostname }),
                None => r.device_type == node.device_type && r.os_hint == node.os_hint && r.hostname == node.hostname,
            },
    {
        match found {
            Some(f) => {
                let hostname = match f.hostname {
                    Some(h) => Some(h),
                    None => node.hostname,
                };
                DiscoveredNode {
                    ip: node.ip,
                    hostname,
                    open_ports: node.open_ports,
                    device_type: f.device_type,
                    has_agent: node.has_agent,
                    os_hint: f.os_hint,
                }
            },
            None => node,
        }
    }
}

/// The addresses already reported by a discovery run.
pub struct SeenAddresses {
    seen: Vec<String>,
}

impl SeenAddresses {
    pub closed spec fn view(&self) -> Set<Seq<char>> {
        views(self.seen@).to_set()
    }

    pub fn new() -> (r: Self)
        ensures
            r.view() == Set::<Seq<char>>::empty(),
    {
        let r = SeenAddresses { seen: Vec::new() };
        assert(views(r.seen@).to_set() =~= Set::<Seq<char>>::empty());
        r
    }

    /// Records an address; true when it was not seen before, so that each
    /// node is reported once.
    pub fn insert(&mut self, ip: &str) -> (r: bool)
        ensures
            r == !old(self).view().contains(ip@),
            final(self).view() == old(self).view().insert(ip@),
    {
        let mut i: usize = 0;
        while i < self.seen.len()
            invariant
                i <= self.seen@.len(),
                forall|k: int| 0 <= k < i ==> (#[trigger] self.seen@[k])@ != ip@,
            decreases self.seen@.len() - i,
        {
            if crate::text::str_eq(self.seen[i].as_str(), ip) {
                proof {
                    assert(views(self.seen@)[i as int] == ip@);
                    assert(views(self.seen@).to_set().insert(ip@) =~= views(self.seen@).to_set());
                }
                return false;
            }
            i = i + 1;
        }
        proof {
            assert forall|k: int| 0 <= k < views(self.seen@).len() implies views(self.seen@)[k] != ip@ by {
                assert(views(self.seen@)[k] == self.seen@[k]@);
            }
        }
        let ghost before = views(self.seen@);
        self.seen.push(owned(ip));
        proof {
            assert(views(self.seen@) =~= before.push(ip@));
            assert forall|a: Seq<char>| #[trigger] before.push(ip@).to_set().contains(a) <==> before.to_set().insert(ip@).contains(a) by {
                if before.push(ip@).to_set().contains(a) {
                    let k = choose|k: int| 0 <= k < before.push(ip@).len() && before.push(ip@)[k] == a;
                    if k < before.len() {
                        assert(before[k] == a);
                        assert(before.contains(a));
                    }
                }
                if before.contains(a) {
                    let k = choose|k: int| 0 <= k < before.len() && before[k] == a;
                    assert(before.push(ip@)[k] == a);
                }
                if a == ip@ {
                    assert(before.push(ip@)[before.len() as int] == a);
                }
            }
            assert(before.push(ip@).to_set() =~= before.to_set().insert(ip@));
        }
        true
    }
}

// ---------------------------------------------------------------------------
// mDNS
// ---------------------------------------------------------------------------

/// mDNS service type for architect agents.
pub open spec fn service_type() -> Seq<char> {
    "_architect._tcp.local."@
}

/// Discovers architect agents via mDNS on the local network.
pub struct MdnsDiscovery;

/// `s` without its trailing dots.
pub open spec fn trim_dots_end(s: Seq<char>) -> Seq<char>
    decreases s.len(),
{
    if s.len() > 0 && s.last() == '.' {
        trim_dots_end(s.drop_last())
    } else {
        s
    }
}

impl MdnsDiscovery {
    pub fn new(agent_port: u16) -> (r: Self) {
        MdnsDiscovery
    }

    /// The mDNS service type agents are announced under.
    pub fn service_type() -> (r: &'static str)
        ensures
            r@ == service_type(),
    {
        "_architect._tcp.local."
    }

    /// The instance name a node registers under.
    pub fn service_name(hostname: &str) -> (r: String)
        ensures
            r@ == "architect-"@ + hostname@,
    {
        let mut s = owned("architect-");
        push_str(&mut s, hostname);
        s
    }

    /// The node an mDNS resolution announces: an agent on the announced
    /// port, with the hostname stripped of its trailing dots.
    pub fn resolved_node(addr: String, hostname: &str, port: u16) -> (r: DiscoveredNode)
        ensures
            r.ip == addr,
            opt_view(r.hostname) == Some(trim_dots_end(hostname@)),
            r.open_ports@ == seq![port],
            r.device_type == DeviceType::Unknown,
            r.has_agent,
            r.os_hint is None,
    {
        let cs = chars_of(hostname);
        let mut n: usize = cs.len();
        assert(cs@.take(n as int) =~= cs@);
        while n > 0 && cs[n - 1] == '.'
            invariant
                cs@ == hostname@,
                n <= cs@.len(),
                trim_dots_end(cs@.take(n as int)) == trim_dots_end(hostname@),
            decreases n,
        {
            assert(cs@.take(n as int).drop_last() =~= cs@.take(n - 1));
            n = n - 1;
        }
        proof {
            assert(cs@.take(cs@.len() as int) =~= cs@);
        }
        let mut h = String::new();
        let mut k: usize = 0;
        while k < n
            invariant
                n <= cs@.len(),
                k <= n,
                h@ == cs@.take(k as int),
            decreases n - k,
        {
            crate::text::push_char(&mut h, cs[k]);
            k = k + 1;
            assert(h@ =~= cs@.take(k as int));
        }
        let mut ports: Vec<u16> = Vec::new();
        ports.push(port);
        DiscoveredNode { ip: addr, hostname: Some(h), open_ports: ports, device_type: DeviceType::Unknown, has_agent: true, os_hint: None }
    }
}

} // verus!
