use architect::transport::TransportType;
use architect::config::{
    config_dir, config_path, data_dir, log_dir, certs_dir, plugins_dir, join_path, CertPaths, PathEnv,
    SchedulerConfig, SchedulerAlgorithm, MlConfig, MlBackend, GradientSync, DiscoveryConfig, BootstrapConfig,
    CoordinatorConfig, default_github_repo,
};
use architect::cross_compile::{label_for_target, github_agent_url, target_for_platform};
use architect::types::{OsKind, ArchKind, BatteryInfo, DeviceType};
use architect::payload::{default_timeout_ms, RagConfig};
use architect::plugin::{default_task_type, default_timeout, PluginManifest, PluginRegistry};
use architect::agent::{
    should_throttle, battery_from_sysfs, detect_os, detect_arch, detect_device_type, extract_json_value,
    is_amd_vendor, nvidia_model_name, stored_node_id, is_battery_supply, resolve_setting, resolve_token,
};
use architect::health::{metrics_text, route, HealthRoute, HealthSnapshot};
use architect::views::{InfoState, LeaderElection, MAX_LOG_LINES};
use architect::compute::{GpuCompute, ComputeBackendType};

fn unix_env(home: Option<&str>, xdg: Option<&str>) -> PathEnv {
    PathEnv { config_home: xdg.map(|s| s.to_string()), home: home.map(|s| s.to_string()), separator: '/' }
}

#[test]
fn transport_priorities_and_large_data() {
    assert_eq!(TransportType::Ethernet.priority(), 100);
    assert_eq!(TransportType::Bluetooth.priority(), 20);
    assert!(TransportType::WiFiDirect.suitable_for_large_data());
    assert!(!TransportType::WebSocket.suitable_for_large_data());
    assert!(!TransportType::Bluetooth.suitable_for_large_data());
    assert_eq!(TransportType::WiFi24GHz.name(), "WiFi 2.4GHz");
}

#[test]
fn config_paths_follow_home_and_xdg() {
    let env = unix_env(Some("/home/u"), None);
    assert_eq!(config_dir(&env), "/home/u/.config/architect");
    assert_eq!(config_path(&env), "/home/u/.config/architect/config.toml");
    assert_eq!(data_dir(&env), "/home/u/.architect");
    assert_eq!(log_dir(&env), "/home/u/.architect/logs");
    assert_eq!(certs_dir(&env), "/home/u/.architect/certs");
    assert_eq!(plugins_dir(&env), "/home/u/.config/architect/plugins");
    let env = unix_env(Some("/home/u"), Some("/xdg/"));
    assert_eq!(config_dir(&env), "/xdg/architect");
    let env = unix_env(None, None);
    assert_eq!(config_dir(&env), ".architect");
    assert_eq!(data_dir(&env), ".architect");
    let p = CertPaths::default_paths(&unix_env(Some("/h"), None));
    assert_eq!(p.ca_cert, "/h/.architect/certs/ca.pem");
    assert_eq!(p.server_key, "/h/.architect/certs/server-key.pem");
    assert_eq!(join_path("", "x", '/'), "x");
    assert_eq!(join_path("C:\\Users\\u", "x", '\\'), "C:\\Users\\u\\x");
}

#[test]
fn config_defaults() {
    let s = SchedulerConfig::default();
    assert_eq!(s.algorithm, SchedulerAlgorithm::Adaptive);
    assert_eq!(s.battery_limit_pct, 20);
    assert_eq!(s.cpu_limit_pct, 90);
    let m = MlConfig::default();
    assert_eq!(m.default_backend, MlBackend::Candle);
    assert_eq!(m.gradient_sync, GradientSync::RingAllReduce);
    let d = DiscoveryConfig::default();
    assert!(d.beacon_enabled && d.mdns_enabled && !d.network_scan_enabled);
    assert_eq!(d.beacon_port, 9877);
    let b = BootstrapConfig::default();
    assert_eq!(b.ssh_timeout_secs, 10);
    let c = CoordinatorConfig::default();
    assert_eq!(c.port, 9876);
    assert_eq!(c.cluster_token.len(), 36);
    assert_ne!(c.cluster_token, CoordinatorConfig::default().cluster_token);
    assert_eq!(default_github_repo(), "scirats/architect");
    assert_eq!(default_timeout_ms(), 300_000);
    assert_eq!(RagConfig::default().top_k, 5);
}

#[test]
fn cross_compile_labels_and_urls() {
    assert_eq!(label_for_target("x86_64-apple-darwin"), "macos-x86_64");
    assert_eq!(label_for_target("riscv64gc-unknown-linux-gnu"), "riscv64gc-unknown-linux-gnu");
    assert_eq!(
        github_agent_url("o/r", "windows-x86_64"),
        "https://github.com/o/r/releases/latest/download/architect-agent-windows-x86_64.exe"
    );
    assert_eq!(
        github_agent_url("o/r", "linux-armv7"),
        "https://github.com/o/r/releases/latest/download/architect-agent-linux-armv7"
    );
    assert_eq!(target_for_platform(OsKind::Android, ArchKind::Armv7), Some("armv7-linux-androideabi"));
    assert_eq!(target_for_platform(OsKind::IOS, ArchKind::X86_64), None);
}

#[test]
fn plugins_default_and_registry_replaces_by_name() {
    assert_eq!(default_task_type(), "plugin");
    assert_eq!(default_timeout(), 600_000);
    let mut reg = PluginRegistry::new();
    reg.insert(PluginManifest { name: "a".into(), command: "x".into(), task_type: "plugin".into(), timeout_ms: 1 });
    reg.insert(PluginManifest { name: "b".into(), command: "y".into(), task_type: "plugin".into(), timeout_ms: 2 });
    reg.insert(PluginManifest { name: "a".into(), command: "z".into(), task_type: "plugin".into(), timeout_ms: 3 });
    assert_eq!(reg.len(), 2);
    assert_eq!(reg.get("a").unwrap().command, "z");
    assert!(reg.get("c").is_none());
}

#[test]
fn battery_and_platform() {
    assert!(should_throttle(&BatteryInfo { level_pct: 10, charging: false }, 20));
    assert!(!should_throttle(&BatteryInfo { level_pct: 10, charging: true }, 20));
    assert!(!should_throttle(&BatteryInfo { level_pct: 20, charging: false }, 20));
    assert_eq!(battery_from_sysfs("85\n", "Charging\n"), Some(BatteryInfo { level_pct: 85, charging: true }));
    assert_eq!(battery_from_sysfs("40", "Discharging"), Some(BatteryInfo { level_pct: 40, charging: false }));
    assert_eq!(battery_from_sysfs("400", "Full"), None);
    assert!(is_battery_supply("BAT0"));
    assert!(!is_battery_supply("AC"));
    assert_eq!(detect_os("macos"), OsKind::MacOS);
    assert_eq!(detect_os("freebsd"), OsKind::Unknown);
    assert_eq!(detect_arch("arm"), ArchKind::Armv7);
    assert_eq!(detect_device_type(true, true), DeviceType::Phone);
    assert_eq!(detect_device_type(false, true), DeviceType::Laptop);
    assert_eq!(detect_device_type(false, false), DeviceType::Desktop);
}

#[test]
fn gpu_hints() {
    let json = r#"{ "sppci_model" : "Apple M2", "spdisplays_vram_shared" : "8 GB" }"#;
    assert_eq!(extract_json_value(json, "sppci_model"), Some("Apple M2".to_string()));
    assert_eq!(extract_json_value(json, "missing"), None);
    assert!(is_amd_vendor("0x1002\n"));
    assert!(!is_amd_vendor("0x10de"));
    assert_eq!(nvidia_model_name("Model: \t GeForce RTX 3080\nIRQ: 1\n"), "GeForce RTX 3080");
    assert_eq!(nvidia_model_name("IRQ: 1\n"), "NVIDIA GPU");
    assert_eq!(stored_node_id(" 00000000-0000-0000-0000-000000000007\n"), Some(7));
    assert_eq!(stored_node_id("garbage"), None);
}

#[test]
fn health_routes_and_metrics() {
    assert!(matches!(route("/health"), HealthRoute::Health));
    assert!(matches!(route("/metrics"), HealthRoute::Metrics));
    match route("/agent/linux-x86_64") {
        HealthRoute::AgentBinary(l) => assert_eq!(l, "linux-x86_64"),
        other => panic!("unexpected {:?}", other),
    }
    assert!(matches!(route("/agent/plan9-mips"), HealthRoute::UnknownTarget));
    assert!(matches!(route("/"), HealthRoute::NotFound));
    let snap = HealthSnapshot { agents_online: 2, agents_total: 3, ..HealthSnapshot::default() };
    let text = metrics_text(&snap);
    assert!(text.starts_with("# HELP architect_agents_total Total number of known agents\n# TYPE architect_agents_total gauge\narchitect_agents_total 3\n"));
    assert!(text.contains("architect_agents_online 2\n"));
    assert!(text.ends_with("architect_tasks_failed_total 0\n"));
}

#[test]
fn info_log_keeps_the_last_lines() {
    let mut info = InfoState::new();
    for i in 0..(MAX_LOG_LINES + 5) {
        info.append_log(format!("line {}", i));
    }
    assert_eq!(info.log_lines.len(), MAX_LOG_LINES);
    assert_eq!(info.log_lines[0], "line 5");
    assert_eq!(info.log_lines[MAX_LOG_LINES - 1], format!("line {}", MAX_LOG_LINES + 4));
}

#[test]
fn leader_flag_follows_lease() {
    let mut l = LeaderElection::new("db".into(), "me".into());
    assert!(!l.is_leader());
    assert_eq!(l.lease_secs(), 30);
    l.record_acquire(true);
    assert!(l.is_leader());
    assert!(l.record_renew(false));
    assert!(!l.is_leader());
    assert!(!l.record_renew(false));
}

#[test]
fn gpu_backend_detection() {
    assert_eq!(GpuCompute::new(true, true).backend_type(), ComputeBackendType::Cuda);
    assert_eq!(GpuCompute::new(false, true).backend_type(), ComputeBackendType::OpenCl);
    assert_eq!(GpuCompute::new(false, false).backend_type(), ComputeBackendType::Cpu);
}

#[test]
fn target_label_is_lowercase_os_and_arch() {
    let cases = [
        (OsKind::Linux, ArchKind::X86_64, "linux-x86_64"),
        (OsKind::MacOS, ArchKind::Aarch64, "macos-aarch64"),
        (OsKind::Windows, ArchKind::X86_64, "windows-x86_64"),
        (OsKind::Android, ArchKind::Armv7, "android-armv7"),
        (OsKind::IOS, ArchKind::Aarch64, "ios-aarch64"),
    ];
    for (os, arch, label) in cases {
        let t = target_for_platform(os, arch).unwrap();
        assert_eq!(label_for_target(t), label);
    }
    assert!(target_for_platform(OsKind::IOS, ArchKind::X86_64).is_none());
}

#[test]
fn agent_settings_prefer_the_command_line() {
    assert_eq!(resolve_token("abc", Some(" saved \n")), "abc");
    assert_eq!(resolve_token("", Some(" saved \n")), "saved");
    assert_eq!(resolve_token("", None), "");
    assert_eq!(resolve_setting(Some("10.0.0.1:9876"), Some("x")), Some("10.0.0.1:9876".to_string()));
    assert_eq!(resolve_setting(None, Some(" 10.0.0.2:1 ")), Some("10.0.0.2:1".to_string()));
    assert_eq!(resolve_setting(None, None), None);
}

#[test]
fn whitespace_test_agrees_with_std() {
    for u in 0u32..=0x10FFFF {
        if let Some(c) = char::from_u32(u) {
            assert_eq!(architect::text::char_is_whitespace(c), c.is_whitespace(), "at {:#x}", u);
        }
    }
}

#[test]
fn leader_flag_follows_the_last_answer() {
    let mut l = LeaderElection::new("db".into(), "me".into());
    assert!(!l.is_leader());
    l.record_acquire(true);
    // A failed renewal (no answer) records nothing.
    assert!(l.is_leader());
    assert!(!l.record_renew(true));
    assert!(l.is_leader());
    assert!(l.record_renew(false));
    assert!(!l.is_leader());
    l.record_acquire(false);
    assert!(!l.is_leader());
}

#[test]
fn cluster_tokens_are_random_uuids() {
    let t = architect::config::generate_cluster_token();
    let u = uuid::Uuid::parse_str(&t).unwrap();
    assert_eq!(u.get_version_num(), 4);
    assert_eq!(u.get_variant(), uuid::Variant::RFC4122);
    assert_eq!(u.to_string(), t);
    assert_ne!(architect::config::generate_cluster_token(), t);
}

#[test]
fn trim_agrees_with_std() {
    for s in ["", "   ", " a b ", "\u{3000}x\u{85}", "\ty\n", "z", "\u{2028} q r \u{a0}"] {
        assert_eq!(architect::text::trim(s), s.trim());
    }
}
