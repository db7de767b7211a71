use yggdrasil::link_url::{extract_pt_args, is_valid_url_scheme, to_ascii_lowercase, LinkUrl};
use yggdrasil::percent::pct_decode;

#[test]
fn schemes() {
    for good in ["a", "obfs4", "A+b-c.9"] {
        assert!(is_valid_url_scheme(good), "{}", good);
    }
    for bad in ["", "4a", "-a", "a_b", "a b", "a:", "\u{e9}"] {
        assert!(!is_valid_url_scheme(bad), "{}", bad);
    }
    assert_eq!(to_ascii_lowercase("ObFS4-\u{c9}"), "obfs4-\u{c9}");
}

#[test]
fn percent_decoding() {
    assert_eq!(pct_decode("a+b"), "a+b");
    assert_eq!(pct_decode("a%2Bb%2f"), "a+b/");
    // An escape at the very end is read too.
    assert_eq!(pct_decode("%41"), "A");
    assert_eq!(pct_decode("%4"), "%4");
    assert_eq!(pct_decode("100%"), "100%");
    assert_eq!(pct_decode("%zz%41"), "%zzA");
    // A plus sign is no digit.
    assert_eq!(pct_decode("%+5"), "%+5");
    assert_eq!(pct_decode("%5+%2b"), "%5++");
    assert_eq!(pct_decode("%C3%A9"), "\u{e9}");
    // Bytes that are no UTF-8 are replaced.
    assert_eq!(pct_decode("a%FFb"), "a\u{fffd}b");
    assert_eq!(pct_decode("%\u{e9}"), "%\u{e9}");
}

#[test]
fn urls_are_taken_apart() {
    let u = LinkUrl::parse("TLS://Example.com:1234/path?a=b+c&d").unwrap();
    assert_eq!(u.scheme, "tls");
    assert_eq!(u.host, Some("Example.com".to_string()));
    assert_eq!(u.port, Some(1234));
    assert_eq!(u.path, "/path");
    assert_eq!(u.query, Some("a=b+c&d".to_string()));
    assert_eq!(
        u.pairs,
        vec![("a".to_string(), "b c".to_string()), ("d".to_string(), "".to_string())]
    );
    let u = LinkUrl::parse("wss://h").unwrap();
    assert_eq!(u.port, Some(443));
    assert_eq!(LinkUrl::parse("ws://h:80").unwrap().port, Some(80));
    assert_eq!(LinkUrl::parse("tcp://h").unwrap().port, None);
    assert_eq!(LinkUrl::parse("tcp:///x").unwrap().host, None);
    assert_eq!(LinkUrl::parse("tls://[::1]:1").unwrap().host, Some("[::1]".to_string()));
    assert_eq!(LinkUrl::parse("no url").unwrap_err(), "relative URL without a base");
}

#[test]
fn transport_arguments() {
    let u = LinkUrl::parse("obfs4://h:1?cert=a%2Bb+c&priority=3&iat-mode=0&flag&k%65y=x&x=y=z").unwrap();
    assert_eq!(
        extract_pt_args(&u),
        vec![
            ("cert".to_string(), "a+b+c".to_string()),
            ("iat-mode".to_string(), "0".to_string()),
            ("x".to_string(), "y=z".to_string()),
        ]
    );
    assert!(extract_pt_args(&LinkUrl::parse("obfs4://h:1").unwrap()).is_empty());
}

#[test]
fn decoding_undoes_encoding() {
    for text in ["", "a", "cert=+/%", "\u{e9}\u{20ac}\u{1f600}", "%41", "\0"] {
        let upper: String = text.bytes().map(|b| format!("%{:02X}", b)).collect();
        let lower: String = text.bytes().map(|b| format!("%{:02x}", b)).collect();
        assert_eq!(pct_decode(&upper), text);
        assert_eq!(pct_decode(&lower), text);
    }
}
