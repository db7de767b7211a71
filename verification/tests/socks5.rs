use yggdrasil::socks5::{
    connect_failed, encode_socks5_addr, split_socks5_auth, Socks5Action, Socks5Dial,
};

#[test]
fn split_socks5_auth_empty() {
    // RFC 1929 forbids zero-length fields; empty args become NUL placeholders.
    assert_eq!(split_socks5_auth("").unwrap(), (vec![0x00], vec![0x00]));
}

#[test]
fn split_socks5_auth_short() {
    let (u, p) = split_socks5_auth("cert=abc").unwrap();
    assert_eq!(u, b"cert=abc");
    assert_eq!(p, vec![0x00]);
}

#[test]
fn split_socks5_auth_boundary_255() {
    let s = "a".repeat(255);
    let (u, p) = split_socks5_auth(&s).unwrap();
    assert_eq!(u.len(), 255);
    assert_eq!(p, vec![0x00]);
}

#[test]
fn split_socks5_auth_spills_to_password() {
    let s = "b".repeat(300);
    let (u, p) = split_socks5_auth(&s).unwrap();
    assert_eq!(u.len(), 255);
    assert_eq!(p.len(), 45);
    assert_eq!(u.len() + p.len(), 300);
}

#[test]
fn split_socks5_auth_boundary_510() {
    let s = "c".repeat(510);
    let (u, p) = split_socks5_auth(&s).unwrap();
    assert_eq!(u.len(), 255);
    assert_eq!(p.len(), 255);
}

#[test]
fn split_socks5_auth_too_long() {
    let s = "d".repeat(511);
    assert!(split_socks5_auth(&s).is_err());
    assert_eq!(
        split_socks5_auth(&s).unwrap_err(),
        "PT args too long to encode in SOCKS5 auth: 511 bytes (max 510)"
    );
}

#[test]
fn encode_socks5_addr_ipv4_literal() {
    assert_eq!(
        encode_socks5_addr("192.0.2.1").unwrap(),
        vec![0x01, 192, 0, 2, 1]
    );
}

#[test]
fn encode_socks5_addr_ipv6_bracketed() {
    // The host of a URL keeps the brackets; they must not leak into the
    // encoded address.
    let mut expected = vec![0x04];
    // 2001:db8::1
    expected.extend_from_slice(&[0x20, 0x01, 0x0d, 0xb8, 0, 0, 0, 0, 0, 0, 0, 0, 0, 0, 0, 1]);
    assert_eq!(encode_socks5_addr("[2001:db8::1]").unwrap(), expected);
}

#[test]
fn encode_socks5_addr_ipv6_bare() {
    let mut expected = vec![0x04];
    expected.extend_from_slice(&[0, 0, 0, 0, 0, 0, 0, 0, 0, 0, 0, 0, 0, 0, 0, 1]);
    assert_eq!(encode_socks5_addr("::1").unwrap(), expected);
}

#[test]
fn encode_socks5_addr_hostname() {
    let host = "bridge.example.com";
    let mut expected = vec![0x03, host.len() as u8];
    expected.extend_from_slice(host.as_bytes());
    assert_eq!(encode_socks5_addr(host).unwrap(), expected);
}

#[test]
fn encode_socks5_addr_hostname_too_long() {
    let host = "a".repeat(256);
    assert!(encode_socks5_addr(&host).is_err());
    assert_eq!(
        encode_socks5_addr(&host).unwrap_err(),
        format!("target hostname too long: {}", host)
    );
}

fn exchange(action: Socks5Action) -> (Vec<u8>, usize) {
    match action {
        Socks5Action::Exchange { send, receive } => (send, receive),
        other => panic!("{:?}", other),
    }
}

fn failure(action: Socks5Action) -> String {
    match action {
        Socks5Action::Failed(e) => e,
        other => panic!("{:?}", other),
    }
}

#[test]
fn dialling_with_arguments() {
    let args = vec![("cert".to_string(), "abc".to_string())];
    let (mut dial, first) = Socks5Dial::start("192.0.2.1", 443, &args);
    assert_eq!(exchange(first), (vec![5, 1, 2], 2));
    let (send, receive) = exchange(dial.received(&[5, 2]));
    let mut auth = vec![1, 8];
    auth.extend_from_slice(b"cert=abc");
    auth.extend_from_slice(&[1, 0]);
    assert_eq!((send, receive), (auth, 2));
    let (send, receive) = exchange(dial.received(&[1, 0]));
    assert_eq!(send, vec![5, 1, 0, 1, 192, 0, 2, 1, 1, 187]);
    assert_eq!(receive, 4);
    assert_eq!(exchange(dial.received(&[5, 0, 0, 1])), (vec![], 6));
    assert!(matches!(dial.received(&[127, 0, 0, 1, 0, 80]), Socks5Action::Connected));
}

#[test]
fn dialling_without_arguments() {
    let (mut dial, first) = Socks5Dial::start("h", 1, &[]);
    assert_eq!(exchange(first), (vec![5, 2, 0, 2], 2));
    let (send, _) = exchange(dial.received(&[5, 0]));
    assert_eq!(send, vec![5, 1, 0, 3, 1, b'h', 0, 1]);
    assert_eq!(exchange(dial.received(&[5, 0, 0, 3])), (vec![], 1));
    assert_eq!(exchange(dial.received(&[9])), (vec![], 11));
    assert!(matches!(dial.received(&[0; 11]), Socks5Action::Connected));
}

#[test]
fn no_arguments_go_as_nul() {
    let (mut dial, _) = Socks5Dial::start("::1", 1, &[]);
    assert_eq!(exchange(dial.received(&[5, 2])), (vec![1, 1, 0, 1, 0], 2));
    let (send, _) = exchange(dial.received(&[1, 0]));
    assert_eq!(send.len(), 3 + 17 + 2);
    assert_eq!(exchange(dial.received(&[5, 0, 0, 4])), (vec![], 18));
}

#[test]
fn proxies_that_misbehave() {
    let args = vec![("a".to_string(), "b".to_string())];
    let (mut dial, _) = Socks5Dial::start("h", 1, &args);
    assert_eq!(failure(dial.received(&[4, 2])), "SOCKS5: bad greeting version 0x04");
    let (mut dial, _) = Socks5Dial::start("h", 1, &args);
    // No authentication is not accepted where there are arguments to deliver.
    assert_eq!(
        failure(dial.received(&[5, 0])),
        "SOCKS5: server chose unsupported method 0x00"
    );
    let (mut dial, _) = Socks5Dial::start("h", 1, &args);
    assert_eq!(
        failure(dial.received(&[5, 0xff])),
        "SOCKS5: server chose unsupported method 0xff"
    );
    let (mut dial, _) = Socks5Dial::start("h", 1, &args);
    dial.received(&[5, 2]);
    assert_eq!(failure(dial.received(&[1, 1])), "SOCKS5 sub-neg rejected (status 0x01)");
    let (mut dial, _) = Socks5Dial::start("h", 1, &[]);
    dial.received(&[5, 0]);
    assert_eq!(failure(dial.received(&[5, 5, 0, 1])), "SOCKS5 CONNECT failed: reply 0x05");
    let (mut dial, _) = Socks5Dial::start("h", 1, &[]);
    dial.received(&[5, 0]);
    assert_eq!(failure(dial.received(&[5, 0, 0, 9])), "SOCKS5: unknown address type 0x09");
}

#[test]
fn targets_and_arguments_that_do_not_fit() {
    let host = "a".repeat(256);
    let (mut dial, _) = Socks5Dial::start(&host, 1, &[]);
    assert_eq!(
        failure(dial.received(&[5, 0])),
        format!("target hostname too long: {}", host)
    );
    let args = vec![("k".to_string(), "v".repeat(600))];
    let (mut dial, _) = Socks5Dial::start("h", 1, &args);
    assert_eq!(
        failure(dial.received(&[5, 2])),
        "PT args too long to encode in SOCKS5 auth: 602 bytes (max 510)"
    );
}

#[test]
fn socket_failures_are_told() {
    assert_eq!(connect_failed("127.0.0.1:9", "refused"), "SOCKS5 connect to 127.0.0.1:9: refused");
    let args = vec![("a".to_string(), "b".to_string())];
    let (mut dial, _) = Socks5Dial::start("h", 1, &args);
    assert_eq!(dial.write_failed("x"), "SOCKS5 greeting write: x");
    assert_eq!(dial.read_failed("x"), "SOCKS5 greeting read: x");
    dial.received(&[5, 2]);
    assert_eq!(dial.write_failed("x"), "SOCKS5 sub-neg write: x");
    assert_eq!(dial.read_failed("x"), "SOCKS5 sub-neg read: x");
    dial.received(&[1, 0]);
    assert_eq!(dial.write_failed("x"), "SOCKS5 CONNECT write: x");
    assert_eq!(dial.read_failed("x"), "SOCKS5 response header: x");
    dial.received(&[5, 0, 0, 3]);
    assert_eq!(dial.read_failed("x"), "SOCKS5 domain len: x");
    dial.received(&[3]);
    assert_eq!(dial.read_failed("x"), "SOCKS5 bound addr drain: x");
}

/// A proxy puts the fields together again and drops the escapes.
#[test]
fn arguments_come_out_as_they_went_in() {
    let value = "x;=\\y".repeat(60);
    let args = vec![("k".to_string(), value.clone())];
    let (mut dial, _) = Socks5Dial::start("h", 1, &args);
    let (msg, _) = exchange(dial.received(&[5, 2]));
    let n = msg[1] as usize;
    assert_eq!(n, 255);
    let mut payload = msg[2..2 + n].to_vec();
    assert_eq!(msg[2 + n] as usize, msg.len() - 3 - n);
    payload.extend_from_slice(&msg[3 + n..]);
    let text = String::from_utf8(payload).unwrap();
    let mut plain = String::new();
    let mut escaped = false;
    for c in text.chars() {
        if c == '\\' && !escaped {
            escaped = true;
        } else {
            plain.push(c);
            escaped = false;
        }
    }
    assert_eq!(plain, format!("k={}", value));
}
