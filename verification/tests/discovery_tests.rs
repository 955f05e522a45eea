use architect::discovery::{
    infer_device_type, infer_os_device_type, parse_ssh_banner, parse_ipv4, subnet_parts, NetworkScanner,
    DeviceFingerprinter, DiscoveredNode, MdnsDiscovery, NodeDiscovery, FingerprintResult, SeenAddresses,
};
use architect::types::DeviceType;

#[test]
fn test_parse_ssh_banner_ubuntu() {
    let banner = "SSH-2.0-OpenSSH_8.9p1 Ubuntu-3ubuntu0.1\r\n";
    assert_eq!(parse_ssh_banner(banner), Some("Ubuntu Linux".into()));
}

#[test]
fn test_parse_ssh_banner_generic() {
    let banner = "SSH-2.0-OpenSSH_9.0\r\n";
    assert_eq!(parse_ssh_banner(banner), Some("Unix/Linux".into()));
}

#[test]
fn test_parse_ssh_banner_dropbear() {
    let banner = "SSH-2.0-dropbear_2022.83\r\n";
    assert_eq!(parse_ssh_banner(banner), Some("Embedded Linux".into()));
}

#[test]
fn parse_ssh_banner_other_cases() {
    assert_eq!(parse_ssh_banner("SSH-2.0-OpenSSH_8.4p1 Debian-5"), Some("Debian Linux".into()));
    assert_eq!(parse_ssh_banner("SSH-2.0-OpenSSH_7.9p1 Raspbian-10"), Some("Raspberry Pi OS".into()));
    assert_eq!(parse_ssh_banner("SSH-2.0-OpenSSH_8.0 linux"), Some("Linux".into()));
    assert_eq!(parse_ssh_banner("SSH-2.0-libssh_0.9"), None);
}

#[test]
fn test_infer_device_raspberry() {
    assert_eq!(infer_os_device_type(Some("Raspberry Pi OS")), DeviceType::RaspberryPi);
}

#[test]
fn infer_os_device_type_other_cases() {
    assert_eq!(infer_os_device_type(Some("Embedded Linux")), DeviceType::RaspberryPi);
    assert_eq!(infer_os_device_type(Some("Android 14")), DeviceType::Phone);
    assert_eq!(infer_os_device_type(Some("Ubuntu Linux")), DeviceType::Desktop);
    assert_eq!(infer_os_device_type(None), DeviceType::Desktop);
}

#[test]
fn test_parse_subnet_24() {
    let scanner = NetworkScanner::new("192.168.1.0/24".into(), 9876);
    let ips = scanner.parse_subnet();
    assert_eq!(ips.len(), 254);
    assert_eq!(ips[0], 0xC0A8_0101);
    assert_eq!(ips[253], 0xC0A8_01FE);
}

#[test]
fn test_parse_subnet_invalid() {
    let scanner = NetworkScanner::new("invalid".into(), 9876);
    let ips = scanner.parse_subnet();
    assert!(ips.is_empty());
}

#[test]
fn parse_subnet_edges() {
    assert!(NetworkScanner::new("10.0.0.0/32".into(), 1).parse_subnet().is_empty());
    assert!(NetworkScanner::new("10.0.0.0/31".into(), 1).parse_subnet().is_empty());
    assert_eq!(NetworkScanner::new("10.0.0.7/30".into(), 1).parse_subnet(), vec![0x0A00_0005, 0x0A00_0006]);
    assert!(NetworkScanner::new("10.0.0.0/33".into(), 1).parse_subnet().is_empty());
    assert!(NetworkScanner::new("10.0.0.0/24/1".into(), 1).parse_subnet().is_empty());
    assert_eq!(subnet_parts("192.168.1.0/0"), Some((0xC0A8_0100, 0)));
    assert!(NetworkScanner::new("10.0.0.0/0".into(), 1).parse_subnet().is_empty());
}

#[test]
fn parse_ipv4_follows_dotted_decimal() {
    assert_eq!(parse_ipv4("192.168.1.1"), Some(0xC0A8_0101));
    assert_eq!(parse_ipv4("0.0.0.0"), Some(0));
    assert_eq!(parse_ipv4("255.255.255.255"), Some(u32::MAX));
    assert_eq!(parse_ipv4("256.1.1.1"), None);
    assert_eq!(parse_ipv4("01.1.1.1"), None);
    assert_eq!(parse_ipv4("1.1.1"), None);
    assert_eq!(parse_ipv4("1.1.1.1.1"), None);
    assert_eq!(parse_ipv4("1..1.1"), None);
    assert_eq!(parse_ipv4("+1.1.1.1"), None);
}

#[test]
fn test_infer_device_type_adb() {
    assert_eq!(infer_device_type(&[5555, 22]), DeviceType::Phone);
}

#[test]
fn test_infer_device_type_winrm() {
    assert_eq!(infer_device_type(&[5985]), DeviceType::Desktop);
}

#[test]
fn test_infer_device_type_ssh() {
    assert_eq!(infer_device_type(&[22]), DeviceType::Desktop);
}

#[test]
fn infer_device_type_unknown() {
    assert_eq!(infer_device_type(&[80, 443]), DeviceType::Unknown);
    assert_eq!(infer_device_type(&[]), DeviceType::Unknown);
}

#[test]
fn ports_to_check_puts_agent_port_first() {
    let s = NetworkScanner::new("x".into(), 9876);
    assert_eq!(s.ports_to_check(), vec![9876, 22, 5555, 5985]);
    let s = NetworkScanner::new("x".into(), 8080);
    assert_eq!(s.ports_to_check(), vec![8080, 22, 5555, 5985, 9876]);
}

#[test]
fn node_from_ports_needs_an_open_port() {
    let s = NetworkScanner::new("x".into(), 9876);
    assert!(s.node_from_ports("10.0.0.2".into(), vec![]).is_none());
    let n = s.node_from_ports("10.0.0.2".into(), vec![9876, 22]).unwrap();
    assert!(n.has_agent);
    assert_eq!(n.device_type, DeviceType::Desktop);
}

#[test]
fn fingerprint_from_banner_and_http() {
    let f = DeviceFingerprinter::from_ssh_banner("SSH-2.0-dropbear_2022.83\r\n");
    assert_eq!(f.device_type, DeviceType::RaspberryPi);
    assert_eq!(f.os_hint, Some("Embedded Linux".to_string()));
    let node = DiscoveredNode {
        ip: "10.0.0.3".into(),
        hostname: None,
        open_ports: vec![9876],
        device_type: DeviceType::Laptop,
        has_agent: true,
        os_hint: None,
    };
    assert_eq!(DeviceFingerprinter::http_port(&node), Some(9876));
    assert!(DeviceFingerprinter::from_http_response(&node, "HTTP/1.0 200 OK\r\n\r\narchitect ok").is_some());
    assert!(DeviceFingerprinter::from_http_response(&node, "HTTP/1.0 404").is_none());
    assert_eq!(DeviceFingerprinter::health_request("10.0.0.3"), "GET /health HTTP/1.0\r\nHost: 10.0.0.3\r\n\r\n");
}

#[test]
fn enrich_keeps_hostname_unless_found() {
    let node = DiscoveredNode {
        ip: "10.0.0.3".into(),
        hostname: Some("old".into()),
        open_ports: vec![22],
        device_type: DeviceType::Desktop,
        has_agent: false,
        os_hint: None,
    };
    let f = FingerprintResult { device_type: DeviceType::RaspberryPi, os_hint: Some("Raspberry Pi OS".into()), hostname: None };
    let n = NodeDiscovery::enrich(node, Some(f));
    assert_eq!(n.hostname, Some("old".to_string()));
    assert_eq!(n.device_type, DeviceType::RaspberryPi);
}

#[test]
fn seen_addresses_report_each_once() {
    let mut seen = SeenAddresses::new();
    assert!(seen.insert("10.0.0.1"));
    assert!(!seen.insert("10.0.0.1"));
    assert!(seen.insert("10.0.0.2"));
}

#[test]
fn mdns_node_strips_trailing_dots() {
    let n = MdnsDiscovery::resolved_node("10.0.0.9".into(), "host.local.", 9876);
    assert_eq!(n.hostname, Some("host.local".to_string()));
    assert_eq!(n.open_ports, vec![9876]);
    assert!(n.has_agent);
    assert_eq!(MdnsDiscovery::service_name("box"), "architect-box");
}
