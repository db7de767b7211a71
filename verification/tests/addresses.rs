use yggdrasil::ip::{parse_ip, parse_socket_addr, IpAddr, SocketAddr};
use yggdrasil::peer_uri::{format_peer_uri, scope_id_to_name, Interface};

#[test]
fn ipv4_addresses() {
    assert_eq!(parse_ip("1.2.3.4"), Some(IpAddr::V4(0x0102_0304)));
    assert_eq!(parse_ip("255.255.255.255"), Some(IpAddr::V4(u32::MAX)));
    assert_eq!(parse_ip("256.1.1.1"), None);
    assert_eq!(parse_ip("1.2.3"), None);
    assert_eq!(parse_ip("01.2.3.4"), None);
    assert_eq!(parse_ip(" 1.2.3.4"), None);
}

#[test]
fn ipv6_addresses() {
    assert_eq!(parse_ip("::"), Some(IpAddr::V6(0)));
    assert_eq!(parse_ip("::1"), Some(IpAddr::V6(1)));
    assert_eq!(parse_ip("1::"), Some(IpAddr::V6(1 << 112)));
    assert_eq!(parse_ip("::ffff:1.2.3.4"), Some(IpAddr::V6(0xffff_0102_0304)));
    assert_eq!(parse_ip("1:2:3:4:5:6:7:8"), Some(IpAddr::V6(0x0001_0002_0003_0004_0005_0006_0007_0008)));
    assert_eq!(parse_ip("1:2:3:4:5:6:7"), None);
    assert_eq!(parse_ip("1::2::3"), None);
    assert_eq!(parse_ip("[::1]"), None);
    assert_eq!(parse_ip("12345::"), None);
}

/// The same texts are addresses here and where TLS names are read.
#[test]
fn addresses_agree_with_those_of_tls_names() {
    let pieces = ["", "0", "1", "00", "01", "256", "255", "9", "f", "F", "g", "12345", ":", "::", ".", "1.2.3.4", "%1"];
    for a in pieces {
        for b in pieces {
            for c in pieces {
                for d in pieces {
                    let text = format!("{}{}{}{}", a, b, c, d);
                    let theirs = match rustls::pki_types::IpAddr::try_from(text.as_str()) {
                        Ok(rustls::pki_types::IpAddr::V4(x)) => {
                            Some(IpAddr::V4(u32::from_be_bytes(*x.as_ref())))
                        },
                        Ok(rustls::pki_types::IpAddr::V6(x)) => {
                            Some(IpAddr::V6(u128::from_be_bytes(*x.as_ref())))
                        },
                        Err(_) => None,
                    };
                    assert_eq!(parse_ip(&text), theirs, "{}", text);
                }
            }
        }
    }
}

#[test]
fn ipv6_groups_agree_with_those_of_tls_names() {
    let groups = ["1", "abcd", "", "1.2.3.4"];
    for n in 1..10usize {
        for gap in 0..n {
            for g in groups {
                let mut parts: Vec<&str> = vec!["a"; n];
                parts[gap] = g;
                let mut texts = vec![parts.join(":")];
                parts[n - 1] = "1.2.3.4";
                texts.push(parts.join(":"));
                texts.push(format!(":{}", parts.join(":")));
                texts.push(format!("{}:", parts.join(":")));
                for text in texts {
                    let theirs = rustls::pki_types::IpAddr::try_from(text.as_str()).is_ok();
                    assert_eq!(parse_ip(&text).is_some(), theirs, "{}", text);
                }
            }
        }
    }
}

#[test]
fn socket_addresses() {
    assert_eq!(
        parse_socket_addr("127.0.0.1:80"),
        Some(SocketAddr { ip: IpAddr::V4(0x7f00_0001), port: 80, scope_id: 0 })
    );
    assert_eq!(
        parse_socket_addr("[::1]:65535"),
        Some(SocketAddr { ip: IpAddr::V6(1), port: 65535, scope_id: 0 })
    );
    assert_eq!(
        parse_socket_addr("[fe80::1%3]:1"),
        Some(SocketAddr { ip: IpAddr::V6((0xfe80 << 112) + 1), port: 1, scope_id: 3 })
    );
    assert_eq!(parse_socket_addr("127.0.0.1"), None);
    assert_eq!(parse_socket_addr("127.0.0.1:65536"), None);
    assert_eq!(parse_socket_addr("::1:80"), None);
    assert_eq!(parse_socket_addr("host:80"), None);
}

#[test]
fn loopback_addresses() {
    assert!(IpAddr::V4(0x7f00_0001).is_loopback());
    assert!(IpAddr::V4(0x7fff_ffff).is_loopback());
    assert!(!IpAddr::V4(0x8000_0000).is_loopback());
    assert!(IpAddr::V6(1).is_loopback());
    assert!(!IpAddr::V6(0).is_loopback());
    // An IPv4 loopback address inside an IPv6 one is not taken for one.
    assert!(!IpAddr::V6(0xffff_7f00_0001).is_loopback());
}

fn interfaces() -> Vec<Interface> {
    vec![
        Interface { index: None, name: "none".to_string() },
        Interface { index: Some(2), name: "eth0".to_string() },
        Interface { index: Some(2), name: "eth0:1".to_string() },
        Interface { index: Some(3), name: "wlan0".to_string() },
    ]
}

#[test]
fn interfaces_are_found_by_number() {
    assert_eq!(scope_id_to_name(&interfaces(), 2), Some("eth0".to_string()));
    assert_eq!(scope_id_to_name(&interfaces(), 3), Some("wlan0".to_string()));
    assert_eq!(scope_id_to_name(&interfaces(), 4), None);
}

#[test]
fn peers_are_listed_by_scheme_and_address() {
    let local = SocketAddr { ip: IpAddr::V6((0xfe80 << 112) + 1), port: 9, scope_id: 3 };
    assert_eq!(
        format_peer_uri("tls", &local, "[fe80::1%3]:9", "fe80::1", &interfaces()),
        "tls://[fe80::1%wlan0]:9"
    );
    let other = SocketAddr { scope_id: 4, ..local };
    assert_eq!(
        format_peer_uri("tls", &other, "[fe80::1%4]:9", "fe80::1", &interfaces()),
        "tls://[fe80::1%4]:9"
    );
    let v4 = SocketAddr { ip: IpAddr::V4(0x0102_0304), port: 9, scope_id: 0 };
    assert_eq!(format_peer_uri("quic", &v4, "1.2.3.4:9", "1.2.3.4", &[]), "quic://1.2.3.4:9");
}
