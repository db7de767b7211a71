use yggdrasil::dial::{
    has_server_name, pt_peer_addr, server_name, DialProblem, Layer, LayerStep, Layers, ServerName,
};
use yggdrasil::ip::IpAddr;

#[test]
fn layers_follow_each_other() {
    let wss = Layers { tls: true, ws: true };
    assert_eq!(wss.next(Layer::Tcp), LayerStep::Handshake(Layer::Tls));
    assert_eq!(wss.next(Layer::Tls), LayerStep::Handshake(Layer::Ws));
    assert_eq!(wss.next(Layer::Ws), LayerStep::Ready(Layer::Ws));
    let ws = Layers { tls: false, ws: true };
    assert_eq!(ws.next(Layer::Tcp), LayerStep::Handshake(Layer::Ws));
    let tls = Layers { tls: true, ws: false };
    assert_eq!(tls.next(Layer::Tls), LayerStep::Ready(Layer::Tls));
    let tcp = Layers { tls: false, ws: false };
    assert_eq!(tcp.next(Layer::Tcp), LayerStep::Ready(Layer::Tcp));
}

fn dns(name: ServerName) -> String {
    match name {
        ServerName::Dns(s) => s,
        other => panic!("{:?}", other),
    }
}

fn ip(name: ServerName) -> IpAddr {
    match name {
        ServerName::Ip(a) => a,
        other => panic!("{:?}", other),
    }
}

#[test]
fn server_names() {
    assert_eq!(dns(server_name(Some("a.example"), "b.example")), "a.example");
    assert_eq!(dns(server_name(None, "b.example")), "b.example");
    assert_eq!(ip(server_name(None, "1.2.3.4")), IpAddr::V4(0x0102_0304));
    assert_eq!(ip(server_name(None, "::1")), IpAddr::V6(1));
    // A name that cannot be used gives way to the address of the host.
    assert_eq!(ip(server_name(Some("-bad-"), "1.2.3.4")), IpAddr::V4(0x0102_0304));
    assert!(!has_server_name(Some("-bad-"), "b.example"));
    // A URL has an IPv6 address in brackets.
    assert_eq!(ip(server_name(None, "[::1]")), IpAddr::V6(1));
    assert_eq!(ip(server_name(Some("[::1]"), "[::1]")), IpAddr::V6(1));
    assert_eq!(ip(server_name(Some("-bad-"), "[::1]")), IpAddr::V6(1));
    assert_eq!(dns(server_name(Some("a.example"), "[::1]")), "a.example");
    assert!(has_server_name(None, "b.example"));
}

/// Which texts are names is what the TLS library says.
#[test]
fn names_are_those_of_the_tls_library() {
    let label = "a".repeat(63);
    let mut texts = vec![
        "".to_string(), ".".to_string(), "a".to_string(), "a.".to_string(), "a..".to_string(),
        ".a".to_string(), "a-b".to_string(), "-a".to_string(), "a-".to_string(), "1".to_string(),
        "a.1".to_string(), "1.a".to_string(), "1-2".to_string(), "a.1-".to_string(),
        "_x.y_".to_string(), "a b".to_string(), "\u{e9}".to_string(), "a.1.".to_string(),
        "A.B".to_string(), label.clone(), format!("{}a", label), "1.2.3.4".to_string(),
        "1.2.3.4.".to_string(), "::1".to_string(), "[::1]".to_string(),
    ];
    texts.push(vec![label.as_str(); 3].join("."));
    texts.push(format!("{}.{}", vec![label.as_str(); 3].join("."), "a".repeat(61)));
    texts.push(format!("{}.{}", vec![label.as_str(); 3].join("."), "a".repeat(62)));
    for t in texts {
        let known = rustls::pki_types::ServerName::try_from(t.clone()).is_ok();
        assert_eq!(has_server_name(Some(&t), "-"), known, "{}", t);
    }
}

#[test]
fn only_addresses_are_told_of_bridges() {
    let a = pt_peer_addr("192.0.2.1", 443).unwrap();
    assert_eq!((a.ip, a.port), (IpAddr::V4(0xc000_0201), 443));
    let a = pt_peer_addr("[::1]", 1).unwrap();
    assert_eq!((a.ip, a.port), (IpAddr::V6(1), 1));
    assert!(pt_peer_addr("bridge.example.com", 443).is_none());
}

#[test]
fn problems_are_told() {
    let e = || "e".to_string();
    assert_eq!(DialProblem::TimedOut.message(), "Connection timed out");
    assert_eq!(DialProblem::ConnectFailed(e()).message(), "Failed to connect: e");
    assert_eq!(DialProblem::NoPeerAddr(e()).message(), "peer_addr: e");
    assert_eq!(DialProblem::TlsFailed(e()).message(), "TLS handshake failed: e");
    assert_eq!(DialProblem::Other(e()).message(), "e");
    assert_eq!(
        DialProblem::PtNotReady.message(),
        "PT client not ready (process starting or crashed)"
    );
    assert_eq!(DialProblem::PtTimedOut.message(), "PT dial timed out");
}
