use yggdrasil::ip::{IpAddr, SocketAddr};
use yggdrasil::pt_process::{
    parse_cmethod, parse_smethod, pt_client_env, pt_server_env, PluggableTransportConfig,
    PtProgress, PtRole, PtStartup,
};

/// Parsing a well-formed CMETHOD line.
#[test]
fn parse_cmethod_line() {
    let line = "CMETHOD obfs4 socks5 127.0.0.1:54321";
    let rest = line.strip_prefix("CMETHOD ").unwrap();
    let parts: Vec<&str> = rest.splitn(3, ' ').collect();
    assert_eq!(parts.len(), 3);
    assert_eq!(parts[0], "obfs4");
    assert_eq!(parts[1], "socks5");
    let addr = parse_cmethod("obfs4", line).unwrap().addr.unwrap();
    assert_eq!(addr.port, 54321);
    assert_eq!(addr.ip, IpAddr::V4(0x7f00_0001));
}

fn config() -> PluggableTransportConfig {
    PluggableTransportConfig {
        protocol: "obfs4".to_string(),
        binary: "/usr/bin/obfs4proxy".to_string(),
        workdir: "/var/lib/pt".to_string(),
    }
}

fn pair(k: &str, v: &str) -> (String, String) {
    (k.to_string(), v.to_string())
}

#[test]
fn client_environment() {
    assert_eq!(
        pt_client_env(&config()),
        vec![
            pair("TOR_PT_MANAGED_TRANSPORT_VER", "1"),
            pair("TOR_PT_CLIENT_TRANSPORTS", "obfs4"),
            pair("TOR_PT_STATE_LOCATION", "/var/lib/pt"),
            pair("TOR_PT_EXIT_ON_STDIN_CLOSE", "1"),
        ]
    );
}

#[test]
fn server_environment() {
    let without = pt_server_env(&config(), "0.0.0.0:443", "127.0.0.1:5000", &[]);
    assert_eq!(
        without,
        vec![
            pair("TOR_PT_MANAGED_TRANSPORT_VER", "1"),
            pair("TOR_PT_SERVER_TRANSPORTS", "obfs4"),
            pair("TOR_PT_SERVER_BINDADDR", "obfs4-0.0.0.0:443"),
            pair("TOR_PT_ORPORT", "127.0.0.1:5000"),
            pair("TOR_PT_STATE_LOCATION", "/var/lib/pt"),
            pair("TOR_PT_EXIT_ON_STDIN_CLOSE", "1"),
        ]
    );
    let with = pt_server_env(&config(), "[::]:443", "127.0.0.1:1", &[pair("iat-mode", "1")]);
    assert_eq!(with.len(), 7);
    assert_eq!(with[6], pair("TOR_PT_SERVER_TRANSPORT_OPTIONS", "obfs4:iat-mode=1"));
}

fn v4(bits: u32, port: u16) -> SocketAddr {
    SocketAddr { ip: IpAddr::V4(bits), port, scope_id: 0 }
}

#[test]
fn method_lines() {
    let m = parse_cmethod("x", "CMETHOD x socks5  127.0.0.1:9 ARGS:a=b").unwrap();
    assert_eq!(m.addr, Some(v4(0x7f00_0001, 9)));
    assert_eq!(m.args, None);
    assert!(parse_cmethod("x", "CMETHOD x socks5").is_none());
    assert!(parse_cmethod("x", "CMETHOD x socks4 127.0.0.1:9").is_none());
    assert!(parse_cmethod("x", "CMETHOD y socks5 127.0.0.1:9").is_none());
    assert!(parse_cmethod("x", " CMETHOD x socks5 127.0.0.1:9").is_none());
    assert_eq!(parse_cmethod("x", "CMETHOD x socks5 ").unwrap().addr, None);
    assert_eq!(parse_cmethod("x", "CMETHOD x socks5 nonsense").unwrap().addr, None);

    let m = parse_smethod("x", "SMETHOD x 1.2.3.4:5 FOO:1 ARGS:cert=a,iat-mode=0 ARGS:z").unwrap();
    assert_eq!(m.addr, Some(v4(0x0102_0304, 5)));
    assert_eq!(m.args, Some("cert=a,iat-mode=0".to_string()));
    // The first word is the address, whatever it holds.
    let m = parse_smethod("x", "SMETHOD x ARGS:a").unwrap();
    assert_eq!((m.addr, m.args), (None, None));
    assert!(parse_smethod("x", "SMETHOD x").is_none());
}

#[test]
fn client_becomes_ready() {
    let mut s = PtStartup::new(PtRole::Client, "obfs4");
    assert!(matches!(s.line("VERSION 1"), PtProgress::Waiting));
    assert!(matches!(s.line("CMETHOD other socks5 127.0.0.1:1"), PtProgress::Waiting));
    assert!(matches!(s.line("CMETHOD obfs4 socks5 127.0.0.1:2"), PtProgress::Waiting));
    match s.line("CMETHODS DONE") {
        PtProgress::Ready(a, args) => {
            assert_eq!(a, v4(0x7f00_0001, 2));
            assert_eq!(args, None);
        },
        other => panic!("{:?}", other),
    }
}

#[test]
fn server_becomes_ready() {
    let mut s = PtStartup::new(PtRole::Server, "obfs4");
    s.line("SMETHOD obfs4 0.0.0.0:443 ARGS:cert=c");
    match s.line("SMETHODS DONE") {
        PtProgress::Ready(a, args) => {
            assert_eq!(a, v4(0, 443));
            assert_eq!(args, Some("cert=c".to_string()));
        },
        other => panic!("{:?}", other),
    }
}

fn reason(p: PtProgress) -> String {
    match p {
        PtProgress::Failed(e) => e,
        other => panic!("{:?}", other),
    }
}

#[test]
fn the_last_method_line_counts() {
    let mut s = PtStartup::new(PtRole::Client, "x");
    s.line("CMETHOD x socks5 127.0.0.1:2");
    s.line("CMETHOD x socks5 nonsense");
    assert_eq!(
        reason(s.line("CMETHODS DONE")),
        "PT client 'x': no CMETHOD line seen before CMETHODS DONE"
    );
}

#[test]
fn startups_that_fail() {
    let mut c = PtStartup::new(PtRole::Client, "x");
    assert_eq!(
        reason(c.line("VERSION-ERROR no-version")),
        "PT client 'x': VERSION-ERROR no-version"
    );
    assert_eq!(reason(c.line("CMETHOD-ERROR x bad")), "PT client 'x': CMETHOD-ERROR x bad");
    assert!(matches!(c.line("SMETHOD-ERROR x bad"), PtProgress::Waiting));
    let mut s = PtStartup::new(PtRole::Server, "x");
    assert_eq!(reason(s.line("SMETHOD-ERROR x bad")), "PT server 'x': SMETHOD-ERROR x bad");
    assert_eq!(
        reason(s.line("SMETHODS DONE")),
        "PT server 'x': no SMETHOD line seen before SMETHODS DONE"
    );
    assert_eq!(c.spawn_failed("e"), "PT client 'x': spawn failed: e");
    assert_eq!(s.spawn_failed("e"), "PT server 'x': spawn failed: e");
    assert_eq!(c.read_failed("e"), "PT client 'x': read error: e");
    assert_eq!(c.closed(), "PT client 'x': stdout closed before CMETHODS DONE");
    assert_eq!(s.closed(), "PT server 'x': stdout closed before SMETHODS DONE");
    assert_eq!(c.timed_out(), "PT client 'x': timed out waiting for CMETHODS DONE");
    assert_eq!(s.timed_out(), "PT server 'x': timed out waiting for SMETHODS DONE");
}
