use fastfiles::commands::{base_url, get_server_info, select_lan_ips, InterfaceAddress};
use fastfiles::tuning::socket_buffer_limit;

#[test]
fn running_server_info() {
    let info = get_server_info(Some(8080), vec!["192.168.1.2".to_string(), "10.0.0.3".to_string()]);
    assert!(info.running);
    assert_eq!(info.port, 8080);
    assert_eq!(info.ip, "192.168.1.2");
    assert_eq!(info.base_url, "http://192.168.1.2:8080");
    assert_eq!(info.ips, vec!["192.168.1.2", "10.0.0.3"]);
    assert_eq!(info.base_urls, vec!["http://192.168.1.2:8080", "http://10.0.0.3:8080"]);
}

#[test]
fn running_server_without_addresses() {
    let info = get_server_info(Some(1), vec![]);
    assert!(info.running);
    assert_eq!(info.ip, "");
    assert_eq!(info.base_url, "");
    assert!(info.base_urls.is_empty());
}

#[test]
fn stopped_server_info() {
    let info = get_server_info(None, vec!["1.2.3.4".to_string()]);
    assert!(!info.running);
    assert_eq!(info.port, 0);
    assert_eq!(info.ip, "");
    assert_eq!(info.base_url, "");
    assert!(info.ips.is_empty() && info.base_urls.is_empty());
}

#[test]
fn base_urls() {
    assert_eq!(base_url("10.0.0.1", 0), "http://10.0.0.1:0");
    assert_eq!(base_url("10.0.0.1", 65535), "http://10.0.0.1:65535");
}

fn iface(lo: bool, v4: bool, ip: &str) -> InterfaceAddress {
    InterfaceAddress { is_loopback: lo, is_ipv4: v4, ip: ip.to_string() }
}

#[test]
fn lan_addresses() {
    let all = vec![
        iface(true, true, "127.0.0.1"),
        iface(false, true, "192.168.0.5"),
        iface(false, false, "fe80::1"),
        iface(false, true, "10.1.2.3"),
    ];
    assert_eq!(select_lan_ips(&all), vec!["192.168.0.5", "10.1.2.3"]);
    assert_eq!(select_lan_ips(&vec![iface(true, true, "127.0.0.1")]), vec!["127.0.0.1"]);
    assert_eq!(select_lan_ips(&vec![]), vec!["127.0.0.1"]);
}

#[test]
fn socket_buffer_limits() {
    assert_eq!(socket_buffer_limit(Some("212992\n")), 16 * 1024 * 1024);
    assert_eq!(socket_buffer_limit(Some("  +42 ")), 16 * 1024 * 1024);
    assert_eq!(socket_buffer_limit(Some("8388608\n")), 8388608);
    assert_eq!(socket_buffer_limit(Some("8388607")), 16 * 1024 * 1024);
    assert_eq!(socket_buffer_limit(Some(" +33554432 ")), 33554432);
    assert_eq!(socket_buffer_limit(Some("abc")), 16 * 1024 * 1024);
    assert_eq!(socket_buffer_limit(Some("")), 16 * 1024 * 1024);
    assert_eq!(socket_buffer_limit(None), 16 * 1024 * 1024);
}

#[test]
fn test_max_socket_buffer_returns_reasonable_value() {
    for text in [None, Some("212992\n"), Some("4194304"), Some("garbage"), Some("67108864\n")] {
        let buf = socket_buffer_limit(text);
        assert!(buf >= 8 * 1024 * 1024, "socket buffer should be at least 8MB");
    }
}
