//! Configuration and allowlist tests: the user table, IP and CIDR parsing,
//! and the stock settings.

use smtp_tunnel::config::{
    generate_example_config, generate_example_users, ClientConfig, Config, ServerConfig, UserEntry,
    UsersConfig,
};
use smtp_tunnel::ipaddr::{network_contains, parse_ip, parse_network, IpAddress, IpNetwork};

fn entry(secret: &str, whitelist: &[&str]) -> UserEntry {
    UserEntry {
        secret: secret.to_string(),
        whitelist: whitelist.iter().map(|s| s.to_string()).collect(),
        logging: true,
    }
}

#[test]
fn test_users_table() {
    let mut users = UsersConfig::new();
    assert_eq!(users.len(), 0);
    users.set_user("alice", entry("a", &[]));
    users.set_user("bob", entry("b", &[]));
    assert_eq!(users.len(), 2);
    assert_eq!(users.get_user("alice").unwrap().secret, "a");
    assert_eq!(users.get_user("bob").unwrap().secret, "b");
    assert!(users.get_user("carol").is_none());

    // Replacing keeps usernames unique.
    users.set_user("alice", entry("a2", &["10.0.0.0/8"]));
    assert_eq!(users.len(), 2);
    assert_eq!(users.get_user("alice").unwrap().secret, "a2");

    let removed = users.remove_user("alice").unwrap();
    assert_eq!(removed.secret, "a2");
    assert!(users.get_user("alice").is_none());
    assert!(users.remove_user("alice").is_none());
    assert_eq!(users.len(), 1);
}

#[test]
fn test_whitelist_semantics() {
    let mut users = UsersConfig::new();
    users.set_user("open", entry("s", &[]));
    users.set_user("literal", entry("s", &["192.168.1.100"]));
    users.set_user("cidr4", entry("s", &["10.0.0.0/8"]));
    users.set_user("cidr6", entry("s", &["2001:db8::/32"]));
    users.set_user("mixed", entry("s", &["junk-entry", "172.16.0.0/12"]));

    // Empty allowlist admits any source.
    assert!(users.is_ip_whitelisted("open", "203.0.113.9"));
    // Literal match only.
    assert!(users.is_ip_whitelisted("literal", "192.168.1.100"));
    assert!(!users.is_ip_whitelisted("literal", "192.168.1.101"));
    // CIDR containment.
    assert!(users.is_ip_whitelisted("cidr4", "10.255.0.1"));
    assert!(!users.is_ip_whitelisted("cidr4", "11.0.0.1"));
    assert!(users.is_ip_whitelisted("cidr6", "2001:db8::17"));
    assert!(!users.is_ip_whitelisted("cidr6", "2001:db9::17"));
    // An entry that is not an IP or network only ever matches literally;
    // later entries still count.
    assert!(users.is_ip_whitelisted("mixed", "172.20.3.4"));
    assert!(!users.is_ip_whitelisted("mixed", "10.0.0.1"));
    // Unknown users are never admitted.
    assert!(!users.is_ip_whitelisted("nobody", "10.0.0.1"));
    // A family mismatch never matches.
    assert!(!users.is_ip_whitelisted("cidr4", "2001:db8::1"));
}

#[test]
fn test_parse_ipv4_literals() {
    assert_eq!(parse_ip(b"203.0.113.5"), Some(IpAddress::V4(0xCB007105)));
    assert_eq!(parse_ip(b"0.0.0.0"), Some(IpAddress::V4(0)));
    assert_eq!(parse_ip(b"255.255.255.255"), Some(IpAddress::V4(0xFFFFFFFF)));
    assert!(parse_ip(b"256.1.1.1").is_none());
    assert!(parse_ip(b"1.2.3").is_none());
    assert!(parse_ip(b"1.2.3.4.5").is_none());
    assert!(parse_ip(b"01.2.3.4").is_none());
    assert!(parse_ip(b"").is_none());
}

#[test]
fn test_parse_ipv6_literals() {
    assert_eq!(parse_ip(b"::1"), Some(IpAddress::V6(1)));
    assert_eq!(parse_ip(b"::"), Some(IpAddress::V6(0)));
    assert_eq!(
        parse_ip(b"2001:db8::1"),
        Some(IpAddress::V6(0x2001_0db8_0000_0000_0000_0000_0000_0001))
    );
    assert_eq!(
        parse_ip(b"1:2:3:4:5:6:7:8"),
        Some(IpAddress::V6(0x0001_0002_0003_0004_0005_0006_0007_0008))
    );
    assert_eq!(parse_ip(b"fe80::"), Some(IpAddress::V6(0xfe80 << 112)));
    // Too many groups, double compression, stray separators.
    assert!(parse_ip(b"1:2:3:4:5:6:7:8:9").is_none());
    assert!(parse_ip(b"1::2::3").is_none());
    assert!(parse_ip(b"1:::2").is_none());
    assert!(parse_ip(b"12345::").is_none());
}

#[test]
fn test_parse_network_and_contains() {
    let net = parse_network(b"10.0.0.0/8").unwrap();
    assert_eq!(net, IpNetwork::V4(0x0A000000, 8));
    assert!(network_contains(&net, &IpAddress::V4(0x0A010203)));
    assert!(!network_contains(&net, &IpAddress::V4(0x0B010203)));

    let all = parse_network(b"0.0.0.0/0").unwrap();
    assert!(network_contains(&all, &IpAddress::V4(0xDEADBEEF)));

    let host = parse_network(b"192.168.1.100/32").unwrap();
    assert!(network_contains(&host, &IpAddress::V4(0xC0A80164)));
    assert!(!network_contains(&host, &IpAddress::V4(0xC0A80165)));

    let v6 = parse_network(b"2001:db8::/32").unwrap();
    assert!(network_contains(
        &v6,
        &IpAddress::V6(0x2001_0db8_ffff_ffff_ffff_ffff_ffff_ffff)
    ));
    assert!(!network_contains(&v6, &IpAddress::V4(0x0A000001)));

    assert!(parse_network(b"10.0.0.0/33").is_none());
    assert!(parse_network(b"2001:db8::/129").is_none());
    assert!(parse_network(b"10.0.0.0").is_none());
    assert!(parse_network(b"notanip/8").is_none());
}

#[test]
fn test_default_configs() {
    let c = Config::new();
    assert_eq!(c.server.host, "0.0.0.0");
    assert_eq!(c.server.port, 587);
    assert_eq!(c.server.hostname, "mail.example.com");
    assert_eq!(c.server.cert_file, "server.crt");
    assert_eq!(c.server.key_file, "server.key");
    assert_eq!(c.server.users_file, "users.yaml");
    assert!(c.server.log_users);
    assert_eq!(c.client.server_port, 587);
    assert_eq!(c.client.socks_port, 1080);
    assert_eq!(c.client.socks_host, "127.0.0.1");
    assert!(c.client.ca_cert.is_none());
    let s = ServerConfig::default();
    assert_eq!(s.port, 587);
    let cl = ClientConfig::default();
    assert!(cl.username.is_empty());
}

#[test]
fn test_example_documents() {
    let cfg = generate_example_config();
    assert!(cfg.contains("server:"));
    assert!(cfg.contains("client:"));
    assert!(cfg.contains("port: 587"));
    let users = generate_example_users();
    assert!(users.contains("users:"));
    assert!(users.contains("alice:"));
}
