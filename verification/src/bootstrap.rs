//! Installing the agent on discovered machines: which method to try on which
//! device, the platform label of the binary to fetch, and the exact commands
//! sent over SSH, ADB and WinRM.
use vstd::prelude::*;
use crate::text::{chars_of, owned, push_char, push_str, str_eq, str_contains, trim, seq_contains, trim_seq, views};
use crate::types::DeviceType;
use crate::numparse::{decimal_string, decimal_text};
use crate::command::{join, join_strings};
use crate::cross_compile::{github_agent_url, agent_url};

verus! {

// ---------------------------------------------------------------------------
// Platform labels
// ---------------------------------------------------------------------------

pub open spec fn uname_os_part(os: Seq<char>) -> Option<Seq<char>> {
    if os == "Linux"@ {
        Some("linux"@)
    } else if os == "Darwin"@ {
        Some("macos"@)
    } else {
        None
    }
}

pub open spec fn arch_part(arch: Seq<char>) -> Option<Seq<char>> {
    if arch == "x86_64"@ {
        Some("x86_64"@)
    } else if arch == "aarch64"@ || arch == "arm64"@ {
        Some("aarch64"@)
    } else if arch == "armv7l"@ {
        Some("armv7"@)
    } else {
        None
    }
}

pub open spec fn spec_uname_to_label(os: Seq<char>, arch: Seq<char>) -> Option<Seq<char>> {
    match (uname_os_part(os), arch_part(arch)) {
        (Some(o), Some(a)) => Some(o + "-"@ + a),
        _ => None,
    }
}

/// Map an architecture string to the normalized arch part used in labels.
pub fn normalize_arch(arch: &str) -> (r: Option<&'static str>)
    ensures
        match r {
            Some(p) => arch_part(arch@) == Some(p@),
            None => arch_part(arch@) is None,
        },
{
    if str_eq(arch, "x86_64") {
        Some("x86_64")
    } else if str_eq(arch, "aarch64") || str_eq(arch, "arm64") {
        Some("aarch64")
    } else if str_eq(arch, "armv7l") {
        Some("armv7")
    } else {
        None
    }
}

/// Map uname output to a platform label matching GitHub Release asset names.
pub fn uname_to_label(os: &str, arch: &str) -> (r: Option<String>)
    ensures
        match r {
            Some(l) => spec_uname_to_label(os@, arch@) == Some(l@),
            None => spec_uname_to_label(os@, arch@) is None,
        },
{
    let os_part = if str_eq(os, "Linux") {
        "linux"
    } else if str_eq(os, "Darwin") {
        "macos"
    } else {
        return None;
    };
    let a = match normalize_arch(arch) {
        Some(a) => a,
        None => return None,
    };
    let mut s = owned(os_part);
    push_str(&mut s, "-");
    push_str(&mut s, a);
    Some(s)
}

/// The label of an Android binary for a device architecture.
pub fn android_label(arch: &str) -> (r: Option<String>)
    ensures
        match r {
            Some(l) => arch_part(arch@) matches Some(p) && l@ == "android-"@ + p,
            None => arch_part(arch@) is None,
        },
{
    match normalize_arch(arch) {
        Some(p) => {
            let mut s = owned("android-");
            push_str(&mut s, p);
            Some(s)
        },
        None => None,
    }
}

pub open spec fn windows_arch_part(raw: Seq<char>) -> Option<Seq<char>> {
    if trim_seq(raw) == "AMD64"@ {
        Some("x86_64"@)
    } else if trim_seq(raw) == "ARM64"@ {
        Some("aarch64"@)
    } else {
        None
    }
}

/// The label of a Windows binary for what `$env:PROCESSOR_ARCHITECTURE` printed.
pub fn windows_label(raw: &str) -> (r: Option<String>)
    ensures
        match r {
            Some(l) => windows_arch_part(raw@) matches Some(p) && l@ == "windows-"@ + p,
            None => windows_arch_part(raw@) is None,
        },
{
    let t_owned = trim(raw);
    let t = t_owned.as_str();
    let p = if str_eq(t, "AMD64") {
        "x86_64"
    } else if str_eq(t, "ARM64") {
        "aarch64"
    } else {
        return None;
    };
    let mut s = owned("windows-");
    push_str(&mut s, p);
    Some(s)
}

// ---------------------------------------------------------------------------
// Orchestration
// ---------------------------------------------------------------------------

/// Method used for bootstrapping.
#[derive(Debug, Clone, Copy, PartialEq, Eq, Structural)]
pub enum BootstrapMethod {
    Ssh,
    Adb,
    WinRm,
    Manual,
}

/// Target for bootstrap; the host is kept as its address text.
pub struct BootstrapTarget {
    pub host: String,
    pub device_type: DeviceType,
    pub ssh_user: Option<String>,
    pub ssh_pass: Option<String>,
    pub winrm_credentials: Option<(String, String)>,
}

/// Result of a bootstrap attempt.
pub struct BootstrapResult {
    pub host: String,
    pub success: bool,
    pub method: BootstrapMethod,
    pub error: Option<String>,
}

/// Orchestrates agent deployment across discovered nodes.
/// Tries appropriate methods based on device type: SSH -> ADB -> WinRM.
pub struct BootstrapOrchestrator {
    pub github_repo: Option<String>,
    pub cluster_token: Option<String>,
    pub coordinator_addr: Option<String>,
}

/// The methods to try on a device, in order.
pub open spec fn spec_plan(device: DeviceType, has_ssh_user: bool, has_winrm: bool) -> Seq<BootstrapMethod> {
    match device {
        DeviceType::Phone => seq![BootstrapMethod::Adb],
        DeviceType::Desktop | DeviceType::Laptop | DeviceType::RaspberryPi =>
            (if has_ssh_user { seq![BootstrapMethod::Ssh] } else { Seq::empty() })
            + (if has_winrm { seq![BootstrapMethod::WinRm] } else { Seq::empty() }),
        _ => Seq::empty(),
    }
}

/// Every computer (desktop, laptop or Raspberry Pi) gets the same plan: SSH
/// first when an SSH user is given, then WinRM when credentials are given,
/// and nothing else. A phone is tried over ADB alone; any other device gets
/// no method.
pub proof fn lemma_plan_by_device(device: DeviceType, has_ssh_user: bool, has_winrm: bool)
    ensures
        (device == DeviceType::Desktop || device == DeviceType::Laptop || device == DeviceType::RaspberryPi) ==> {
            let p = spec_plan(device, has_ssh_user, has_winrm);
            &&& p == spec_plan(DeviceType::Desktop, has_ssh_user, has_winrm)
            &&& has_ssh_user ==> p.len() >= 1 && p[0] == BootstrapMethod::Ssh
            &&& has_winrm ==> p.len() >= 1 && p.last() == BootstrapMethod::WinRm
            &&& p.len() == (if has_ssh_user { 1int } else { 0int }) + (if has_winrm { 1int } else { 0int })
            &&& forall|i: int| 0 <= i < p.len() ==> #[trigger] p[i] == BootstrapMethod::Ssh || p[i] == BootstrapMethod::WinRm
        },
        device == DeviceType::Phone ==> spec_plan(device, has_ssh_user, has_winrm) == seq![BootstrapMethod::Adb],
        !(device == DeviceType::Desktop || device == DeviceType::Laptop || device == DeviceType::RaspberryPi
            || device == DeviceType::Phone) ==> spec_plan(device, has_ssh_user, has_winrm).len() == 0,
{
}

pub open spec fn spec_agent_args(addr: Option<Seq<char>>, token: Option<Seq<char>>) -> Seq<char> {
    join(
        (match addr { Some(a) => seq!["--coordinator "@ + a], None => Seq::empty() })
        + (match token { Some(t) => seq!["--token "@ + t], None => Seq::empty() }),
        " "@,
    )
}

/// The error reported when no method succeeded.
pub open spec fn spec_failure_detail(errors: Seq<Seq<char>>) -> Seq<char> {
    if errors.len() == 0 {
        "no bootstrap method available"@
    } else {
        join(errors, "; "@)
    }
}

impl BootstrapOrchestrator {
    pub fn new() -> (r: Self)
        ensures
            r.github_repo is None,
            r.cluster_token is None,
            r.coordinator_addr is None,
    {
        BootstrapOrchestrator { github_repo: None, cluster_token: None, coordinator_addr: None }
    }

    pub fn set_github_repo(&mut self, repo: String)
        ensures
            final(self).github_repo == Some(repo),
            final(self).cluster_token == old(self).cluster_token,
            final(self).coordinator_addr == old(self).coordinator_addr,
    {
        self.github_repo = Some(repo);
    }

    pub fn set_cluster_token(&mut self, token: String)
        ensures
            final(self).cluster_token == Some(token),
            final(self).github_repo == old(self).github_repo,
            final(self).coordinator_addr == old(self).coordinator_addr,
    {
        self.cluster_token = Some(token);
    }

    pub fn set_coordinator_addr(&mut self, addr: String)
        ensures
            final(self).coordinator_addr == Some(addr),
            final(self).github_repo == old(self).github_repo,
            final(self).cluster_token == old(self).cluster_token,
    {
        self.coordinator_addr = Some(addr);
    }

    /// The command-line arguments the deployed agent is started with.
    pub fn agent_args(&self) -> (r: String)
        ensures
            r@ == spec_agent_args(crate::text::opt_view(self.coordinator_addr), crate::text::opt_view(self.cluster_token)),
    {
        let mut parts: Vec<String> = Vec::new();
        if let Some(addr) = &self.coordinator_addr {
            let mut s = owned("--coordinator ");
            push_str(&mut s, addr.as_str());
            parts.push(s);
        }
        if let Some(token) = &self.cluster_token {
            let mut s = owned("--token ");
            push_str(&mut s, token.as_str());
            parts.push(s);
        }
        let r = join_strings(parts.as_slice(), " ");
        proof {
            let a = match crate::text::opt_view(self.coordinator_addr) {
                Some(a) => seq!["--coordinator "@ + a],
                None => Seq::<Seq<char>>::empty(),
            };
            let t = match crate::text::opt_view(self.cluster_token) {
                Some(t) => seq!["--token "@ + t],
                None => Seq::<Seq<char>>::empty(),
            };
            assert(views(parts@) =~= a + t);
        }
        r
    }

    /// The methods to try on a target, in order; none when no release
    /// repository is configured.
    pub fn plan(&self, target: &BootstrapTarget) -> (r: Vec<BootstrapMethod>)
        ensures
            self.github_repo is None ==> r@ == Seq::<BootstrapMethod>::empty(),
            self.github_repo is Some ==> r@ == spec_plan(target.device_type, target.ssh_user is Some, target.winrm_credentials is Some),
    {
        let mut r: Vec<BootstrapMethod> = Vec::new();
        if self.github_repo.is_none() {
            return r;
        }
        match target.device_type {
            DeviceType::Phone => {
                r.push(BootstrapMethod::Adb);
            },
            DeviceType::Desktop | DeviceType::Laptop | DeviceType::RaspberryPi => {
                if target.ssh_user.is_some() {
                    r.push(BootstrapMethod::Ssh);
                }
                if target.winrm_credentials.is_some() {
                    r.push(BootstrapMethod::WinRm);
                }
            },
            _ => {},
        }
        assert(r@ =~= spec_plan(target.device_type, target.ssh_user is Some, target.winrm_credentials is Some));
        r
    }

    /// The URL of the binary for a platform label, from the configured repository.
    pub fn download_url(&self, label: &str) -> (r: Option<String>)
        ensures
            match r {
                Some(u) => self.github_repo matches Some(repo) && u@ == agent_url(repo@, label@),
                None => self.github_repo is None,
            },
    {
        match &self.github_repo {
            Some(repo) => Some(github_agent_url(repo.as_str(), label)),
            None => None,
        }
    }
}

/// The error text of a failed bootstrap, from the errors of the methods tried.
pub fn failure_detail(errors: &Vec<String>) -> (r: String)
    ensures
        r@ == spec_failure_detail(views(errors@)),
{
    if errors.len() == 0 {
        owned("no bootstrap method available")
    } else {
        join_strings(errors.as_slice(), "; ")
    }
}

/// The result of a bootstrap on which no method succeeded.
pub fn failed_result(host: String, errors: &Vec<String>) -> (r: BootstrapResult)
    ensures
        r.host == host,
        !r.success,
        r.method == BootstrapMethod::Manual,
        r.error matches Some(e) && e@ == spec_failure_detail(views(errors@)),
{
    BootstrapResult { host, success: false, method: BootstrapMethod::Manual, error: Some(failure_detail(errors)) }
}

/// The result of a bootstrap attempted without a release repository.
pub fn unconfigured_result(host: String) -> (r: BootstrapResult)
    ensures
        r.host == host,
        !r.success,
        r.method == BootstrapMethod::Manual,
        r.error matches Some(e) && e@ == "github_repo not configured"@,
{
    BootstrapResult { host, success: false, method: BootstrapMethod::Manual, error: Some(owned("github_repo not configured")) }
}

/// Whether what `file` printed about a download shows it is not a binary
/// (an HTML error page, plain text, or an empty file).
pub fn binary_looks_invalid(file_info: &str) -> (r: bool)
    ensures
        r == (seq_contains(file_info@, "HTML"@) || seq_contains(file_info@, "ASCII text"@) || seq_contains(file_info@, "empty"@)),
{
    str_contains(file_info, "HTML") || str_contains(file_info, "ASCII text") || str_contains(file_info, "empty")
}

// ---------------------------------------------------------------------------
// Shell and PowerShell text
// ---------------------------------------------------------------------------

pub open spec fn is_shell_metachar(c: char) -> bool {
    c == '\'' || c == ';' || c == '|' || c == '`' || c == '$' || c == '&' || c == '>' || c == '<'
}

/// Whether a path holds a character a shell would interpret.
pub fn has_shell_metachar(path: &str) -> (r: bool)
    ensures
        r == exists|i: int| 0 <= i < path@.len() && is_shell_metachar(#[trigger] path@[i]),
{
    let cs = chars_of(path);
    let mut i: usize = 0;
    while i < cs.len()
        invariant
            cs@ == path@,
            i <= cs@.len(),
            forall|k: int| 0 <= k < i ==> !is_shell_metachar(#[trigger] cs@[k]),
        decreases cs@.len() - i,
    {
        let c = cs[i];
        if c == '\'' || c == ';' || c == '|' || c == '`' || c == '$' || c == '&' || c == '>' || c == '<' {
            assert(is_shell_metachar(path@[i as int]));
            return true;
        }
        i = i + 1;
    }
    false
}

/// A text inside PowerShell single quotes: each quote doubled.
pub open spec fn ps_escape(s: Seq<char>) -> Seq<char>
    decreases s.len(),
{
    if s.len() == 0 {
        Seq::empty()
    } else {
        (if s[0] == '\'' { seq!['\'', '\''] } else { seq![s[0]] }) + ps_escape(s.skip(1))
    }
}

/// Reads back a single-quoted PowerShell text: each doubled quote is one quote.
pub open spec fn ps_unescape(s: Seq<char>) -> Seq<char>
    decreases s.len(),
{
    if s.len() == 0 {
        Seq::empty()
    } else if s.len() >= 2 && s[0] == '\'' && s[1] == '\'' {
        seq!['\''] + ps_unescape(s.skip(2))
    } else {
        seq![s[0]] + ps_unescape(s.skip(1))
    }
}

proof fn lemma_ps_escape_concat(a: Seq<char>, b: Seq<char>)
    ensures
        ps_escape(a + b) == ps_escape(a) + ps_escape(b),
    decreases a.len(),
{
    if a.len() == 0 {
        assert(a + b =~= b);
    } else {
        assert((a + b).skip(1) =~= a.skip(1) + b);
        lemma_ps_escape_concat(a.skip(1), b);
    }
}

/// Escaping a text for PowerShell single quotes loses nothing: reading the
/// escaped text back gives the unescaped text again.
pub proof fn lemma_ps_escape_roundtrip(s: Seq<char>)
    ensures
        ps_unescape(ps_escape(s)) == s,
    decreases s.len(),
{
    if s.len() > 0 {
        lemma_ps_escape_roundtrip(s.skip(1));
        let e = ps_escape(s);
        if s[0] == '\'' {
            assert(e.skip(2) =~= ps_escape(s.skip(1)));
        } else {
            assert(e.skip(1) =~= ps_escape(s.skip(1)));
        }
        assert(s =~= seq![s[0]] + s.skip(1));
    }
}

/// Doubles every single quote, as `str::replace('\'', "''")` does.
pub fn escape_single_quotes(s: &str) -> (r: String)
    ensures
        r@ == ps_escape(s@),
{
    let cs = chars_of(s);
    let mut r = String::new();
    let mut i: usize = 0;
    while i < cs.len()
        invariant
            cs@ == s@,
            i <= cs@.len(),
            r@ == ps_escape(cs@.take(i as int)),
        decreases cs@.len() - i,
    {
        let c = cs[i];
        proof {
            lemma_ps_escape_concat(cs@.take(i as int), seq![c]);
            assert(cs@.take(i as int) + seq![c] =~= cs@.take(i + 1));
            assert(seq![c].skip(1) =~= Seq::<char>::empty());
            assert(ps_escape(seq![c]) =~= (if c == '\'' { seq!['\'', '\''] } else { seq![c] })) by {
                reveal_with_fuel(ps_escape, 2);
            }
        }
        if c == '\'' {
            push_char(&mut r, '\'');
            push_char(&mut r, '\'');
        } else {
            push_char(&mut r, c);
        }
        i = i + 1;
        assert(r@ =~= ps_escape(cs@.take(i as int)));
    }
    assert(cs@.take(cs@.len() as int) =~= cs@);
    r
}

/// The SSH bootstrapper: connection settings and the commands it runs.
pub struct SshBootstrapper {
    pub timeout_secs: u64,
}

impl SshBootstrapper {
    pub fn new(timeout_secs: u64) -> (r: Self)
        ensures
            r.timeout_secs == timeout_secs,
    {
        SshBootstrapper { timeout_secs }
    }

    /// The destination the SSH session is opened to.
    pub fn destination(user: &str, host: &str) -> (r: String)
        ensures
            r@ == "ssh://"@ + user@ + "@"@ + host@,
    {
        let mut s = owned("ssh://");
        push_str(&mut s, user);
        push_str(&mut s, "@");
        push_str(&mut s, host);
        s
    }

    /// The shell command that starts the agent in the background.
    pub fn start_command(agent_path: &str, agent_args: &str) -> (r: String)
        ensures
            r@ == "nohup "@ + agent_path@ + " "@ + agent_args@ + " > \"$(mktemp -d)/architect-agent.log\" 2>&1 &"@,
    {
        let mut s = owned("nohup ");
        push_str(&mut s, agent_path);
        push_str(&mut s, " ");
        push_str(&mut s, agent_args);
        push_str(&mut s, " > \"$(mktemp -d)/architect-agent.log\" 2>&1 &");
        s
    }
}


// ---------------------------------------------------------------------------
// Uploading a binary over an SSH shell
// ---------------------------------------------------------------------------

/// The character of a 6-bit value in the standard Base64 alphabet:
/// `A`-`Z`, `a`-`z`, `0`-`9`, `+`, `/`.
pub open spec fn b64_char(v: int) -> char {
    if v < 26 {
        (65 + v) as char
    } else if v < 52 {
        (97 + (v - 26)) as char
    } else if v < 62 {
        (48 + (v - 52)) as char
    } else if v == 62 {
        '+'
    } else {
        '/'
    }
}

/// The standard padded Base64 text (RFC 4648) of some bytes: each group of
/// three bytes gives four characters of six bits each, most significant
/// first; a last group of one or two bytes is filled with zero bits and
/// padded with `=` to four characters.
pub open spec fn base64_of(data: Seq<u8>) -> Seq<char>
    decreases data.len(),
{
    if data.len() == 0 {
        Seq::empty()
    } else if data.len() == 1 {
        let a = data[0] as int;
        seq![b64_char(a / 4), b64_char((a % 4) * 16), '=', '=']
    } else if data.len() == 2 {
        let a = data[0] as int;
        let b = data[1] as int;
        seq![b64_char(a / 4), b64_char((a % 4) * 16 + b / 16), b64_char((b % 16) * 4), '=']
    } else {
        let a = data[0] as int;
        let b = data[1] as int;
        let c = data[2] as int;
        seq![b64_char(a / 4), b64_char((a % 4) * 16 + b / 16), b64_char((b % 16) * 4 + c / 64), b64_char(c % 64)]
            + base64_of(data.skip(3))
    }
}

/// A character of the standard Base64 alphabet, or the padding `=`.
pub open spec fn is_base64_char(c: char) -> bool {
    ('A' <= c && c <= 'Z') || ('a' <= c && c <= 'z') || ('0' <= c && c <= '9') || c == '+' || c == '/' || c == '='
}

proof fn lemma_b64_char(v: int)
    requires
        0 <= v < 64,
    ensures
        is_base64_char(b64_char(v)),
{
}

/// Base64 gives four characters for each started group of three bytes, all
/// from the Base64 alphabet.
pub proof fn lemma_base64_shape(data: Seq<u8>)
    ensures
        base64_of(data).len() == 4 * ((data.len() + 2) / 3),
        forall|i: int| 0 <= i < base64_of(data).len() ==> is_base64_char(#[trigger] base64_of(data)[i]),
    decreases data.len(),
{
    if data.len() == 0 {
    } else if data.len() <= 2 {
        let a = data[0] as int;
        lemma_b64_char(a / 4);
        if data.len() == 1 {
            lemma_b64_char((a % 4) * 16);
        } else {
            let b = data[1] as int;
            lemma_b64_char((a % 4) * 16 + b / 16);
            lemma_b64_char((b % 16) * 4);
        }
    } else {
        let a = data[0] as int;
        let b = data[1] as int;
        let c = data[2] as int;
        lemma_b64_char(a / 4);
        lemma_b64_char((a % 4) * 16 + b / 16);
        lemma_b64_char((b % 16) * 4 + c / 64);
        lemma_b64_char(c % 64);
        lemma_base64_shape(data.skip(3));
        let head = seq![b64_char(a / 4), b64_char((a % 4) * 16 + b / 16), b64_char((b % 16) * 4 + c / 64), b64_char(c % 64)];
        let tail = base64_of(data.skip(3));
        assert(base64_of(data) == head + tail);
        assert forall|i: int| 0 <= i < base64_of(data).len() implies is_base64_char(#[trigger] base64_of(data)[i]) by {
            if i >= 4 {
                assert(base64_of(data)[i] == tail[i - 4]);
            }
        }
    }
}

/// Encodes bytes in Base64.
///
/// Calls `data_encoding::BASE64.encode`, which the crate documents as the
/// padded RFC 4648 encoding with the standard alphabet, stated above as
/// `base64_of`. The crate may panic for inputs longer than
/// `usize::MAX / 512`, which `requires` leaves out.
#[verifier::external_body]
fn base64_encode(data: &[u8]) -> (r: String)
    requires
        data@.len() <= usize::MAX / 512,
    ensures
        r@ == base64_of(data@),
{
    data_encoding::BASE64.encode(data)
}

/// How many Base64 characters each upload command carries.
pub const UPLOAD_CHUNK: usize = 65536;

/// Why an upload cannot be made.
#[derive(Debug, Clone, Copy, PartialEq, Eq, Structural)]
pub enum UploadError {
    /// The remote path holds a shell metacharacter.
    InvalidRemotePath,
}

/// The number of upload chunks of a text of `n` characters.
pub open spec fn chunk_count(n: nat) -> nat {
    ((n + 65535) / 65536) as nat
}

/// The `k`-th upload chunk of a text.
pub open spec fn chunk_of(text: Seq<char>, k: int) -> Seq<char> {
    text.subrange(k * UPLOAD_CHUNK, if (k + 1) * UPLOAD_CHUNK < text.len() { (k + 1) * UPLOAD_CHUNK } else { text.len() as int })
}

pub open spec fn create_command(path: Seq<char>) -> Seq<char> {
    ": > "@ + path + ".b64"@
}

pub open spec fn append_command(path: Seq<char>, chunk: Seq<char>) -> Seq<char> {
    "printf '%s' '"@ + chunk + "' >> "@ + path + ".b64"@
}

pub open spec fn decode_command(path: Seq<char>) -> Seq<char> {
    "base64 -d "@ + path + ".b64 > "@ + path + " && rm "@ + path + ".b64 && chmod +x "@ + path
}

/// The characters `v[a..b]` as a string.
fn string_of_range(v: &Vec<char>, a: usize, b: usize) -> (s: String)
    requires
        a <= b <= v@.len(),
    ensures
        s@ == v@.subrange(a as int, b as int),
{
    let mut s = String::new();
    let mut i: usize = a;
    while i < b
        invariant
            a <= i <= b <= v@.len(),
            s@ == v@.subrange(a as int, i as int),
        decreases b - i,
    {
        push_char(&mut s, v[i]);
        i = i + 1;
        assert(s@ =~= v@.subrange(a as int, i as int));
    }
    s
}


/// The first `k` upload chunks of a text, one after the other.
pub open spec fn chunks_concat(text: Seq<char>, k: nat) -> Seq<char>
    decreases k,
{
    if k == 0 {
        Seq::empty()
    } else {
        chunks_concat(text, (k - 1) as nat) + chunk_of(text, k - 1)
    }
}

proof fn lemma_chunks_prefix(text: Seq<char>, k: nat)
    requires
        k * 65536 <= text.len() + 65535,
    ensures
        chunks_concat(text, k) == text.take(if k * 65536 < text.len() { (k * 65536) as int } else { text.len() as int }),
    decreases k,
{
    if k > 0 {
        assert((k - 1) * 65536 <= text.len()) by (nonlinear_arith)
            requires k * 65536 <= text.len() + 65535, k > 0;
        lemma_chunks_prefix(text, (k - 1) as nat);
        assert(k * 65536 == (k - 1) * 65536 + 65536) by (nonlinear_arith);
        assert(chunks_concat(text, k) =~= text.take(if k * 65536 < text.len() { (k * 65536) as int } else { text.len() as int }));
    }
}

/// The upload chunks, put back together in order, are the whole text.
pub proof fn lemma_chunks_cover(text: Seq<char>)
    ensures
        chunks_concat(text, chunk_count(text.len())) == text,
{
    let k = chunk_count(text.len());
    assert(k * 65536 <= text.len() + 65535 && k * 65536 >= text.len()) by (nonlinear_arith)
        requires k == (text.len() + 65535) / 65536;
    lemma_chunks_prefix(text, k);
    assert(text.take(text.len() as int) =~= text);
}

impl SshBootstrapper {
    /// The shell commands that upload a binary to `remote_path` through an
    /// SSH shell: create `<path>.b64`, append the Base64 text of the binary
    /// in chunks of `UPLOAD_CHUNK` characters, then decode it, remove the
    /// text and make the file executable. A remote path with a shell
    /// metacharacter is refused.
    pub fn upload_commands(remote_path: &str, data: &[u8]) -> (r: Result<Vec<String>, UploadError>)
        requires
            data@.len() <= usize::MAX / 512,
        ensures
            match r {
                Err(e) => e == UploadError::InvalidRemotePath
                    && exists|i: int| 0 <= i < remote_path@.len() && is_shell_metachar(#[trigger] remote_path@[i]),
                Ok(cmds) => {
                    &&& forall|i: int| 0 <= i < remote_path@.len() ==> !is_shell_metachar(#[trigger] remote_path@[i])
                    &&& cmds@.len() == chunk_count(base64_of(data@).len()) + 2
                    &&& cmds@[0]@ == create_command(remote_path@)
                    &&& forall|k: int| 0 <= k < chunk_count(base64_of(data@).len())
                        ==> (#[trigger] cmds@[k + 1])@ == append_command(remote_path@, chunk_of(base64_of(data@), k))
                    &&& cmds@[cmds@.len() - 1]@ == decode_command(remote_path@)
                    &&& forall|i: int| 0 <= i < base64_of(data@).len() ==> #[trigger] base64_of(data@)[i] != '\''
                },
            },
    {
        if has_shell_metachar(remote_path) {
            return Err(UploadError::InvalidRemotePath);
        }
        let encoded = base64_encode(data);
        let ghost text = base64_of(data@);
        proof {
            lemma_base64_shape(data@);
        }
        let cs = chars_of(encoded.as_str());
        let n = cs.len();
        assert(n <= usize::MAX / 128) by (nonlinear_arith)
            requires
                n == 4 * ((data@.len() + 2) / 3),
                data@.len() <= usize::MAX / 512;
        let mut cmds: Vec<String> = Vec::new();
        let mut first = owned(": > ");
        push_str(&mut first, remote_path);
        push_str(&mut first, ".b64");
        cmds.push(first);
        let mut k: usize = 0;
        let mut start: usize = 0;
        while start < n
            invariant
                cs@ == text,
                n == text.len(),
                n <= usize::MAX / 128,
                start == k * UPLOAD_CHUNK,
                start < n + UPLOAD_CHUNK,
                start < n ==> k < chunk_count(n as nat),
                start >= n ==> k == chunk_count(n as nat),
                cmds@.len() == k + 1,
                cmds@[0]@ == create_command(remote_path@),
                forall|q: int| 0 <= q < k ==> (#[trigger] cmds@[q + 1])@ == append_command(remote_path@, chunk_of(text, q)),
            decreases n + UPLOAD_CHUNK - start,
        {
            let end = if n - start > UPLOAD_CHUNK { start + UPLOAD_CHUNK } else { n };
            let chunk = string_of_range(&cs, start, end);
            let mut c = owned("printf '%s' '");
            push_str(&mut c, chunk.as_str());
            push_str(&mut c, "' >> ");
            push_str(&mut c, remote_path);
            push_str(&mut c, ".b64");
            proof {
                assert(chunk@ == chunk_of(text, k as int));
            }
            let ghost before = cmds@;
            cmds.push(c);
            k = k + 1;
            start = start + UPLOAD_CHUNK;
            proof {
                assert(cmds@[k as int]@ == append_command(remote_path@, chunk_of(text, k - 1)));
                assert forall|q: int| 0 <= q < k implies (#[trigger] cmds@[q + 1])@ == append_command(remote_path@, chunk_of(text, q)) by {
                    if q < k - 1 {
                        assert(cmds@[q + 1] == before[q + 1]);
                    }
                }
                assert(start == k * UPLOAD_CHUNK) by (nonlinear_arith)
                    requires start == (k - 1) * UPLOAD_CHUNK + UPLOAD_CHUNK;
                if start < n {
                    assert(k < chunk_count(n as nat)) by (nonlinear_arith)
                        requires start == k * 65536, start < n;
                } else {
                    assert(k == chunk_count(n as nat)) by (nonlinear_arith)
                        requires start == k * 65536, start >= n, start < n + 65536;
                }
            }
        }
        let mut last = owned("base64 -d ");
        push_str(&mut last, remote_path);
        push_str(&mut last, ".b64 > ");
        push_str(&mut last, remote_path);
        push_str(&mut last, " && rm ");
        push_str(&mut last, remote_path);
        push_str(&mut last, ".b64 && chmod +x ");
        push_str(&mut last, remote_path);
        let ghost before = cmds@;
        cmds.push(last);
        proof {
            assert forall|q: int| 0 <= q < chunk_count(text.len()) implies (#[trigger] cmds@[q + 1])@ == append_command(remote_path@, chunk_of(text, q)) by {
                assert(cmds@[q + 1] == before[q + 1]);
            }
        }
        Ok(cmds)
    }
}

/// The ADB bootstrapper.
pub struct AdbBootstrapper;

impl AdbBootstrapper {
    pub fn new() -> (r: Self) {
        AdbBootstrapper
    }

    /// The device serial of a host reached over TCP.
    pub fn serial(host: &str) -> (r: String)
        ensures
            r@ == host@ + ":5555"@,
    {
        let mut s = owned(host);
        push_str(&mut s, ":5555");
        s
    }

    /// The address `adb connect` is given.
    pub fn connect_address(host: &str, port: u16) -> (r: String)
        ensures
            r@ == host@ + ":"@ + decimal_text(port as nat),
    {
        let mut s = owned(host);
        push_str(&mut s, ":");
        let p = decimal_string(port as u64);
        push_str(&mut s, p.as_str());
        s
    }

    /// Whether `adb connect` reported a connection.
    pub fn connect_succeeded(stdout: &str) -> (r: bool)
        ensures
            r == seq_contains(stdout@, "connected"@),
    {
        str_contains(stdout, "connected")
    }

    /// The device shell command that starts the agent in the background.
    pub fn start_command(agent_path: &str, agent_args: &str) -> (r: String)
        ensures
            r@ == "nohup "@ + agent_path@ + " "@ + agent_args@ + " > /data/local/tmp/architect-agent.log 2>&1 &"@,
    {
        let mut s = owned("nohup ");
        push_str(&mut s, agent_path);
        push_str(&mut s, " ");
        push_str(&mut s, agent_args);
        push_str(&mut s, " > /data/local/tmp/architect-agent.log 2>&1 &");
        s
    }
}

/// The WinRM bootstrapper.
pub struct WinRmBootstrapper {
    pub port: u16,
}

pub open spec fn spec_winrm_script(user: Seq<char>, pass: Seq<char>, host: Seq<char>, command: Seq<char>) -> Seq<char> {
    "$cred = New-Object PSCredential('"@ + ps_escape(user) + "', (ConvertTo-SecureString '"@ + ps_escape(pass)
        + "' -AsPlainText -Force)); Invoke-Command -ComputerName "@ + host + " -Credential $cred -ScriptBlock { "@
        + ps_escape(command) + " }"@
}

impl WinRmBootstrapper {
    pub fn new(port: u16) -> (r: Self)
        ensures
            r.port == port,
    {
        WinRmBootstrapper { port }
    }

    /// The WS-Management endpoint of a host.
    pub fn url(&self, host: &str) -> (r: String)
        ensures
            r@ == "http://"@ + host@ + ":"@ + decimal_text(self.port as nat) + "/wsman"@,
    {
        let mut s = owned("http://");
        push_str(&mut s, host);
        push_str(&mut s, ":");
        let p = decimal_string(self.port as u64);
        push_str(&mut s, p.as_str());
        push_str(&mut s, "/wsman");
        s
    }

    /// The PowerShell script that runs a command on a host with the given
    /// credentials; user, password and command are quoted for PowerShell.
    pub fn script(user: &str, pass: &str, host: &str, command: &str) -> (r: String)
        ensures
            r@ == spec_winrm_script(user@, pass@, host@, command@),
    {
        let mut s = owned("$cred = New-Object PSCredential('");
        let u = escape_single_quotes(user);
        push_str(&mut s, u.as_str());
        push_str(&mut s, "', (ConvertTo-SecureString '");
        let p = escape_single_quotes(pass);
        push_str(&mut s, p.as_str());
        push_str(&mut s, "' -AsPlainText -Force)); Invoke-Command -ComputerName ");
        push_str(&mut s, host);
        push_str(&mut s, " -Credential $cred -ScriptBlock { ");
        let c = escape_single_quotes(command);
        push_str(&mut s, c.as_str());
        push_str(&mut s, " }");
        s
    }

    /// The remote command that downloads the agent binary.
    pub fn download_command(agent_url: &str) -> (r: String)
        ensures
            r@ == "New-Item -ItemType Directory -Force -Path 'C:\\architect' | Out-Null; Invoke-WebRequest -Uri '"@
                + agent_url@ + "' -OutFile 'C:\\architect\\agent.exe'"@,
    {
        let mut s = owned("New-Item -ItemType Directory -Force -Path 'C:\\architect' | Out-Null; Invoke-WebRequest -Uri '");
        push_str(&mut s, agent_url);
        push_str(&mut s, "' -OutFile 'C:\\architect\\agent.exe'");
        s
    }

    /// The remote command that starts the agent hidden, logging to a file.
    pub fn start_command(agent_args: &str) -> (r: String)
        ensures
            r@ == "Start-Process -FilePath 'C:\\architect\\agent.exe' -ArgumentList '"@ + agent_args@
                + "' -WindowStyle Hidden -RedirectStandardOutput 'C:\\architect\\agent.log'"@,
    {
        let mut s = owned("Start-Process -FilePath 'C:\\architect\\agent.exe' -ArgumentList '");
        push_str(&mut s, agent_args);
        push_str(&mut s, "' -WindowStyle Hidden -RedirectStandardOutput 'C:\\architect\\agent.log'");
        s
    }
}

} // verus!
