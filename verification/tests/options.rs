use yggdrasil::duration::Duration;
use yggdrasil::link_url::LinkUrl;
use yggdrasil::options::{options_in_range, parse_link_options, LinkOptions, LinkType};

#[test]
fn test_parse_link_options_sni_hostname() {
    let url = LinkUrl::parse("tls://example.com:12345?sni=custom.host.com").unwrap();
    let opts = parse_link_options(&url).unwrap();
    assert_eq!(opts.tls_sni, Some("custom.host.com".to_string()));
}

#[test]
fn test_parse_link_options_sni_ip_rejected() {
    let url = LinkUrl::parse("tls://example.com:12345?sni=1.2.3.4").unwrap();
    let opts = parse_link_options(&url).unwrap();
    // Explicit IP in sni is rejected, falls back to URI hostname
    assert_eq!(opts.tls_sni, Some("example.com".to_string()));
}

#[test]
fn test_parse_link_options_sni_fallback_to_hostname() {
    let url = LinkUrl::parse("tls://peer.example.com:12345").unwrap();
    let opts = parse_link_options(&url).unwrap();
    assert_eq!(opts.tls_sni, Some("peer.example.com".to_string()));
}

#[test]
fn test_parse_link_options_sni_no_fallback_for_ip() {
    let url = LinkUrl::parse("tls://192.168.1.1:12345").unwrap();
    let opts = parse_link_options(&url).unwrap();
    assert_eq!(opts.tls_sni, None);
}

#[test]
fn test_parse_link_options_maxbackoff_duration_string() {
    let url = LinkUrl::parse("tcp://example.com:12345?maxbackoff=5m").unwrap();
    let opts = parse_link_options(&url).unwrap();
    assert_eq!(opts.max_backoff, Duration::from_secs(300));
}

#[test]
fn test_parse_link_options_maxbackoff_seconds() {
    let url = LinkUrl::parse("tcp://example.com:12345?maxbackoff=600").unwrap();
    let opts = parse_link_options(&url).unwrap();
    assert_eq!(opts.max_backoff, Duration::from_secs(600));
}

#[test]
fn test_parse_link_options_maxbackoff_too_small() {
    let url = LinkUrl::parse("tcp://example.com:12345?maxbackoff=3s").unwrap();
    assert!(parse_link_options(&url).is_err());
}

fn options_of(text: &str) -> Result<LinkOptions, String> {
    let url = LinkUrl::parse(text).unwrap();
    assert!(options_in_range(&url));
    parse_link_options(&url)
}

#[test]
fn default_options_hold() {
    let o = LinkOptions::default();
    assert!(o.pinned_keys.is_empty());
    assert_eq!(o.priority, 0);
    assert!(o.password.is_empty());
    assert_eq!(o.max_backoff, Duration::from_secs(4096));
    assert_eq!(o.tls_sni, None);
    assert_ne!(LinkType::Persistent, LinkType::Ephemeral);
}

#[test]
fn keys_are_pinned_in_order() {
    let a = "00112233445566778899aabbccddeeff00112233445566778899AABBCCDDEEFF";
    let b = "ff".repeat(32);
    let o = options_of(&format!("tcp://h:1?key={}&key={}", a, b)).unwrap();
    assert_eq!(o.pinned_keys.len(), 2);
    assert_eq!(o.pinned_keys[0][1], 0x11);
    assert_eq!(o.pinned_keys[0][31], 0xff);
    assert_eq!(o.pinned_keys[1], [0xff; 32]);
}

#[test]
fn bad_keys_are_refused() {
    assert_eq!(options_of("tcp://h:1?key=ff").unwrap_err(), "pinned key must be 32 bytes");
    assert_eq!(
        options_of("tcp://h:1?key=fff").unwrap_err(),
        "invalid key hex: Odd number of digits"
    );
    assert_eq!(
        options_of("tcp://h:1?key=fg").unwrap_err(),
        "invalid key hex: Invalid character 'g' at position 1"
    );
}

#[test]
fn priorities_are_read() {
    assert_eq!(options_of("tcp://h:1?priority=7").unwrap().priority, 7);
    assert_eq!(options_of("tcp://h:1?priority=255").unwrap().priority, 255);
    assert_eq!(options_of("tcp://h:1?priority=%2B9").unwrap().priority, 9);
    assert_eq!(
        options_of("tcp://h:1?priority=256").unwrap_err(),
        "invalid priority: number too large to fit in target type"
    );
    assert_eq!(
        options_of("tcp://h:1?priority=x").unwrap_err(),
        "invalid priority: invalid digit found in string"
    );
    assert_eq!(
        options_of("tcp://h:1?priority=").unwrap_err(),
        "invalid priority: cannot parse integer from empty string"
    );
}

#[test]
fn passwords_are_bounded() {
    assert_eq!(options_of("tcp://h:1?password=secret").unwrap().password, b"secret");
    let longest = "p".repeat(64);
    let o = options_of(&format!("tcp://h:1?password={}", longest)).unwrap();
    assert_eq!(o.password.len(), 64);
    let e = options_of(&format!("tcp://h:1?password={}p", longest)).unwrap_err();
    assert_eq!(e, "password too long (max 64 chars)");
}

#[test]
fn the_last_of_equal_options_counts() {
    let o = options_of("tcp://h:1?priority=1&priority=2&other=3&maxbackoff=10&maxbackoff=20");
    let o = o.unwrap();
    assert_eq!(o.priority, 2);
    assert_eq!(o.max_backoff, Duration::from_secs(20));
}

#[test]
fn backoff_messages() {
    assert_eq!(
        options_of("tcp://h:1?maxbackoff=4").unwrap_err(),
        "maxbackoff must be at least 5 seconds"
    );
    assert_eq!(options_of("tcp://h:1?maxbackoff=5").unwrap().max_backoff.as_secs(), 5);
    assert_eq!(
        options_of("tcp://h:1?maxbackoff=5x").unwrap_err(),
        "invalid maxbackoff: invalid duration unit 'x' in: 5x"
    );
}

#[test]
fn empty_sni_falls_back() {
    assert_eq!(options_of("tls://a.b:1?sni=").unwrap().tls_sni, Some("a.b".to_string()));
}

#[test]
fn ipv6_addresses_are_no_server_names() {
    assert_eq!(options_of("tls://[2001:db8::1]:12345").unwrap().tls_sni, None);
    assert_eq!(options_of("tls://[::1]:1?sni=[::2]").unwrap().tls_sni, None);
    assert_eq!(options_of("tls://[::1]:1?sni=::2").unwrap().tls_sni, None);
    assert_eq!(options_of("tls://a.b:1?sni=[::2]").unwrap().tls_sni, Some("a.b".to_string()));
    assert_eq!(options_of("tls://[::1]:1?sni=a.b").unwrap().tls_sni, Some("a.b".to_string()));
}

#[test]
fn a_backoff_that_overflows_is_told() {
    let url = LinkUrl::parse("tcp://h:1?maxbackoff=18446744073709551615m").unwrap();
    assert!(!options_in_range(&url));
    // A refusal that comes first keeps it from being read.
    let url = LinkUrl::parse("tcp://h:1?key=0&maxbackoff=18446744073709551615m").unwrap();
    assert!(options_in_range(&url));
    assert!(parse_link_options(&url).is_err());
}
