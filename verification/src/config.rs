//! Cluster configuration: the settings of each part of the system with their
//! defaults, and where the configuration and data files live.
use vstd::prelude::*;
use crate::text::{chars_of, concat_str, owned, push_char, push_str};
use crate::ids::{new_v4, uuid_to_string, uuid_text};

verus! {

// ---------------------------------------------------------------------------
// Settings
// ---------------------------------------------------------------------------

/// Settings of the coordinating client.
pub struct CoordinatorConfig {
    pub port: u16,
    pub scan_network_on_start: bool,
    pub rebalance_interval_secs: u64,
    /// Shared secret for agent authentication. Auto-generated on first run.
    pub cluster_token: String,
}

/// Whether a UUID is a random (version 4, RFC 4122 variant) one.
pub open spec fn is_v4(id: u128) -> bool {
    (id >> 76u128) & 15u128 == 4u128 && (id >> 62u128) & 3u128 == 2u128
}

/// A fresh cluster token: the hyphenated text of a random UUID.
pub fn generate_cluster_token() -> (r: String)
    ensures
        exists|id: u128| r@ == uuid_text(id) && is_v4(id),
{
    let id = new_v4();
    uuid_to_string(id)
}

impl Default for CoordinatorConfig {
    fn default() -> (r: Self)
        ensures
            r.port == 9876,
            !r.scan_network_on_start,
            r.rebalance_interval_secs == 2,
            exists|id: u128| r.cluster_token@ == uuid_text(id) && is_v4(id),
    {
        CoordinatorConfig {
            port: 9876,
            scan_network_on_start: false,
            rebalance_interval_secs: 2,
            cluster_token: generate_cluster_token(),
        }
    }
}

/// How the scheduler spreads work over the nodes.
#[derive(Debug, Clone, Copy, PartialEq, Eq, Structural)]
pub enum SchedulerAlgorithm {
    RoundRobin,
    Weighted,
    Adaptive,
}

/// Settings of the scheduler.
#[derive(Debug, Clone, Copy, PartialEq, Eq, Structural)]
pub struct SchedulerConfig {
    pub algorithm: SchedulerAlgorithm,
    pub battery_limit_pct: u8,
    pub cpu_limit_pct: u8,
}

impl Default for SchedulerConfig {
    fn default() -> (r: Self)
        ensures
            r == (SchedulerConfig { algorithm: SchedulerAlgorithm::Adaptive, battery_limit_pct: 20, cpu_limit_pct: 90 }),
    {
        SchedulerConfig { algorithm: SchedulerAlgorithm::Adaptive, battery_limit_pct: 20, cpu_limit_pct: 90 }
    }
}

/// Machine-learning framework used by default.
#[derive(Debug, Clone, Copy, PartialEq, Eq, Structural)]
pub enum MlBackend {
    Candle,
    Burn,
}

/// How gradients are exchanged during distributed training.
#[derive(Debug, Clone, Copy, PartialEq, Eq, Structural)]
pub enum GradientSync {
    RingAllReduce,
    ParameterServer,
}

/// Machine-learning settings.
#[derive(Debug, Clone, Copy, PartialEq, Eq, Structural)]
pub struct MlConfig {
    pub default_backend: MlBackend,
    pub gradient_sync: GradientSync,
}

impl Default for MlConfig {
    fn default() -> (r: Self)
        ensures
            r == (MlConfig { default_backend: MlBackend::Candle, gradient_sync: GradientSync::RingAllReduce }),
    {
        MlConfig { default_backend: MlBackend::Candle, gradient_sync: GradientSync::RingAllReduce }
    }
}

/// Settings of node discovery.
pub struct DiscoveryConfig {
    pub beacon_enabled: bool,
    pub beacon_port: u16,
    pub beacon_interval_ms: u64,
    pub mdns_enabled: bool,
    pub network_scan_enabled: bool,
    pub scan_subnet: String,
}

impl Default for DiscoveryConfig {
    fn default() -> (r: Self)
        ensures
            r.beacon_enabled,
            r.beacon_port == 9877,
            r.beacon_interval_ms == 3000,
            r.mdns_enabled,
            !r.network_scan_enabled,
            r.scan_subnet@ == Seq::<char>::empty(),
    {
        DiscoveryConfig {
            beacon_enabled: true,
            beacon_port: 9877,
            beacon_interval_ms: 3000,
            mdns_enabled: true,
            network_scan_enabled: false,
            scan_subnet: String::new(),
        }
    }
}

/// Settings of remote agent installation.
#[derive(Debug, Clone, Copy, PartialEq, Eq, Structural)]
pub struct BootstrapConfig {
    pub ssh_timeout_secs: u64,
    pub adb_enabled: bool,
    pub winrm_enabled: bool,
    pub serve_agent_http: bool,
}

impl Default for BootstrapConfig {
    fn default() -> (r: Self)
        ensures
            r == (BootstrapConfig { ssh_timeout_secs: 10, adb_enabled: true, winrm_enabled: true, serve_agent_http: true }),
    {
        BootstrapConfig { ssh_timeout_secs: 10, adb_enabled: true, winrm_enabled: true, serve_agent_http: true }
    }
}

/// Timing settings of the client; the listen address is kept as its text.
pub struct ClientConfig {
    pub listen_addr: String,
    pub heartbeat_interval_ms: u64,
    pub heartbeat_timeout_ms: u64,
    pub tick_rate_ms: u64,
    pub frame_rate_ms: u64,
}

impl Default for ClientConfig {
    fn default() -> (r: Self)
        ensures
            r.listen_addr@ == "0.0.0.0:9876"@,
            r.heartbeat_interval_ms == 2000,
            r.heartbeat_timeout_ms == 6000,
            r.tick_rate_ms == 250,
            r.frame_rate_ms == 16,
    {
        ClientConfig {
            listen_addr: owned("0.0.0.0:9876"),
            heartbeat_interval_ms: 2000,
            heartbeat_timeout_ms: 6000,
            tick_rate_ms: 250,
            frame_rate_ms: 16,
        }
    }
}

/// Settings of an agent; the coordinator address is kept as its text.
pub struct AgentConfig {
    pub coordinator_addr: String,
    pub heartbeat_interval_ms: u64,
    pub reconnect_delay_ms: u64,
}

impl Default for AgentConfig {
    fn default() -> (r: Self)
        ensures
            r.coordinator_addr@ == "127.0.0.1:9876"@,
            r.heartbeat_interval_ms == 2000,
            r.reconnect_delay_ms == 3000,
    {
        AgentConfig { coordinator_addr: owned("127.0.0.1:9876"), heartbeat_interval_ms: 2000, reconnect_delay_ms: 3000 }
    }
}

/// The repository agent binaries are downloaded from when none is configured.
pub fn default_github_repo() -> (r: String)
    ensures
        r@ == "scirats/architect"@,
{
    owned("scirats/architect")
}

// ---------------------------------------------------------------------------
// Where files live
// ---------------------------------------------------------------------------

/// What the file locations depend on in the environment.
pub struct PathEnv {
    /// `APPDATA` on Windows, `XDG_CONFIG_HOME` elsewhere, when set.
    pub config_home: Option<String>,
    /// The user's home directory (`USERPROFILE` on Windows, `HOME` elsewhere), when set.
    pub home: Option<String>,
    /// The platform's main path separator.
    pub separator: char,
}

/// `base` extended by a relative component, with a separator between them
/// unless `base` is empty or already ends in one.
pub open spec fn path_join(base: Seq<char>, comp: Seq<char>, sep: char) -> Seq<char> {
    if base.len() == 0 {
        comp
    } else if base.last() == '/' || base.last() == sep {
        base + comp
    } else {
        base.push(sep) + comp
    }
}

pub open spec fn spec_config_dir(env: PathEnv) -> Seq<char> {
    match env.config_home {
        Some(d) => path_join(d@, "architect"@, env.separator),
        None => match env.home {
            Some(h) => path_join(path_join(h@, ".config"@, env.separator), "architect"@, env.separator),
            None => ".architect"@,
        },
    }
}

pub open spec fn spec_data_dir(env: PathEnv) -> Seq<char> {
    match env.home {
        Some(h) => path_join(h@, ".architect"@, env.separator),
        None => ".architect"@,
    }
}

/// Joins a relative path component onto a base path.
pub fn join_path(base: &str, comp: &str, sep: char) -> (r: String)
    ensures
        r@ == path_join(base@, comp@, sep),
{
    let cs = chars_of(base);
    if cs.len() == 0 {
        return owned(comp);
    }
    let last = cs[cs.len() - 1];
    if last == '/' || last == sep {
        concat_str(base, comp)
    } else {
        let mut s = owned(base);
        push_char(&mut s, sep);
        push_str(&mut s, comp);
        s
    }
}

/// The platform-specific config directory for architect:
/// `$XDG_CONFIG_HOME/architect` (`%APPDATA%\architect` on Windows), else
/// `~/.config/architect`, else `.architect`.
pub fn config_dir(env: &PathEnv) -> (r: String)
    ensures
        r@ == spec_config_dir(*env),
{
    match &env.config_home {
        Some(d) => join_path(d.as_str(), "architect", env.separator),
        None => match &env.home {
            Some(h) => {
                let c = join_path(h.as_str(), ".config", env.separator);
                join_path(c.as_str(), "architect", env.separator)
            },
            None => owned(".architect"),
        },
    }
}

/// The full path to the config file.
pub fn config_path(env: &PathEnv) -> (r: String)
    ensures
        r@ == path_join(spec_config_dir(*env), "config.toml"@, env.separator),
{
    let d = config_dir(env);
    join_path(d.as_str(), "config.toml", env.separator)
}

/// `~/.architect/` — the data directory for non-config files (task journal,
/// certs, logs, etc.), or `.architect` without a home directory.
pub fn data_dir(env: &PathEnv) -> (r: String)
    ensures
        r@ == spec_data_dir(*env),
{
    match &env.home {
        Some(h) => join_path(h.as_str(), ".architect", env.separator),
        None => owned(".architect"),
    }
}

/// `~/.architect/logs/`.
pub fn log_dir(env: &PathEnv) -> (r: String)
    ensures
        r@ == path_join(spec_data_dir(*env), "logs"@, env.separator),
{
    let d = data_dir(env);
    join_path(d.as_str(), "logs", env.separator)
}

/// The SQLite database file, `~/.architect/architect.db`.
pub fn db_path(env: &PathEnv) -> (r: String)
    ensures
        r@ == path_join(spec_data_dir(*env), "architect.db"@, env.separator),
{
    let d = data_dir(env);
    join_path(d.as_str(), "architect.db", env.separator)
}

/// Directory where plugins are stored.
pub fn plugins_dir(env: &PathEnv) -> (r: String)
    ensures
        r@ == path_join(spec_config_dir(*env), "plugins"@, env.separator),
{
    let d = config_dir(env);
    join_path(d.as_str(), "plugins", env.separator)
}

/// The directory of the TLS artifacts, `~/.architect/certs/`.
pub fn certs_dir(env: &PathEnv) -> (r: String)
    ensures
        r@ == path_join(spec_data_dir(*env), "certs"@, env.separator),
{
    let d = data_dir(env);
    join_path(d.as_str(), "certs", env.separator)
}

/// Paths for the generated TLS artifacts.
pub struct CertPaths {
    pub ca_cert: String,
    pub ca_key: String,
    pub server_cert: String,
    pub server_key: String,
}

/// Paths for a generated client certificate (mTLS).
pub struct ClientCertPaths {
    pub cert: String,
    pub key: String,
}

pub open spec fn spec_certs_dir(env: PathEnv) -> Seq<char> {
    path_join(spec_data_dir(env), "certs"@, env.separator)
}

impl CertPaths {
    /// The CA and server certificate and key files in the certs directory.
    pub fn default_paths(env: &PathEnv) -> (r: Self)
        ensures
            r.ca_cert@ == path_join(spec_certs_dir(*env), "ca.pem"@, env.separator),
            r.ca_key@ == path_join(spec_certs_dir(*env), "ca-key.pem"@, env.separator),
            r.server_cert@ == path_join(spec_certs_dir(*env), "server.pem"@, env.separator),
            r.server_key@ == path_join(spec_certs_dir(*env), "server-key.pem"@, env.separator),
    {
        let dir = certs_dir(env);
        CertPaths {
            ca_cert: join_path(dir.as_str(), "ca.pem", env.separator),
            ca_key: join_path(dir.as_str(), "ca-key.pem", env.separator),
            server_cert: join_path(dir.as_str(), "server.pem", env.separator),
            server_key: join_path(dir.as_str(), "server-key.pem", env.separator),
        }
    }
}

/// Every file the cluster keeps is under the config directory or the data
/// directory: with a home directory and no override, both lie under home.
pub proof fn lemma_dirs_under_home(env: PathEnv, h: String)
    requires
        env.config_home is None,
        env.home == Some(h),
        env.separator == '/' || env.separator == '\\',
        h@.len() > 0,
        h@.last() != '/',
        h@.last() != env.separator,
    ensures
        spec_config_dir(env) == h@.push(env.separator) + ".config"@.push(env.separator) + "architect"@,
        spec_data_dir(env) == h@.push(env.separator) + ".architect"@,
{
    reveal_strlit(".config");
    let c = h@.push(env.separator) + ".config"@;
    assert(c.len() > 0);
    assert(c.last() == 'g');
    assert(path_join(h@, ".config"@, env.separator) == c);
    assert(path_join(c, "architect"@, env.separator) =~= h@.push(env.separator) + ".config"@.push(env.separator) + "architect"@);
}

} // verus!
