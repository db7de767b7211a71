use yggdrasil::active::ActiveLinks;
use yggdrasil::dial::Layers;
use yggdrasil::ip::{IpAddr, SocketAddr};
use yggdrasil::link_url::LinkUrl;
use yggdrasil::links::{
    peer_target, Features, Links, ListenProblem, PeerErrors, Resolved, Route,
};
use yggdrasil::pt_process::PluggableTransportConfig;
use yggdrasil::table::StringTable;

type TestLinks = Links<&'static str, u32, char>;

const ALL: Features = Features { ws: true, quic: true, pt: true };

fn links() -> TestLinks {
    let mut l: TestLinks = Links::new(ALL);
    l.set_core("core", 0);
    l
}

fn url(text: &str) -> LinkUrl {
    LinkUrl::parse(text).unwrap()
}

fn v4(bits: u32, port: u16, text: &str) -> Resolved {
    let addr = SocketAddr { ip: IpAddr::V4(bits), port, scope_id: 0 };
    Resolved { addr, text: text.to_string() }
}

fn v6(bits: u128, port: u16, text: &str) -> Resolved {
    let addr = SocketAddr { ip: IpAddr::V6(bits), port, scope_id: 0 };
    Resolved { addr, text: text.to_string() }
}

fn transport(protocol: &str) -> PluggableTransportConfig {
    PluggableTransportConfig {
        protocol: protocol.to_string(),
        binary: format!("/bin/{}", protocol),
        workdir: "/tmp".to_string(),
    }
}

#[test]
fn tables_hold_one_value_for_a_key() {
    let mut t: StringTable<u32> = StringTable::new();
    assert_eq!(t.insert("a".to_string(), 1), None);
    assert_eq!(t.insert("b".to_string(), 2), None);
    assert_eq!(t.insert("a".to_string(), 3), Some(1));
    assert_eq!(t.get("a"), Some(&3));
    assert!(!t.contains_key("c"));
    let mut keys = t.keys();
    keys.sort();
    assert_eq!(keys, vec!["a", "b"]);
    assert_eq!(t.remove("a"), Some(3));
    assert_eq!(t.remove("a"), None);
    assert_eq!(t.drain(), vec![("b".to_string(), 2)]);
    assert!(t.keys().is_empty());
    t.insert("z".to_string(), 1);
    t.clear();
    assert!(!t.contains_key("z"));
    let mut t: StringTable<String> = StringTable::new();
    for (k, v) in [("1", "x"), ("2", "y"), ("3", "x"), ("4", "z")] {
        t.insert(k.to_string(), v.to_string());
    }
    t.remove_values("x");
    let mut keys = t.keys();
    keys.sort();
    assert_eq!(keys, vec!["2", "4"]);
}

#[test]
fn the_core_must_be_set() {
    let mut l: TestLinks = Links::new(ALL);
    assert_eq!(l.require_core().unwrap_err(), "core not initialized");
    assert_eq!(l.set_core("core", 1), None);
    assert_eq!(l.require_core(), Ok(&"core"));
    assert_eq!(l.set_core("core", 2), Some(1));
}

#[test]
fn routes_of_schemes() {
    let l = links();
    let stream = |tls, ws| Ok(Route::Stream(Layers { tls, ws }));
    assert_eq!(l.route_of(&url("tcp://h:1")), stream(false, false));
    assert_eq!(l.route_of(&url("tls://h:1")), stream(true, false));
    assert_eq!(l.route_of(&url("ws://h:1")), stream(false, true));
    assert_eq!(l.route_of(&url("WSS://h:1")), stream(true, true));
    assert_eq!(l.route_of(&url("quic://h:1")), Ok(Route::Quic));
    assert_eq!(l.route_of(&url("obfs4://h:1")), Err("unsupported scheme: obfs4".to_string()));
    let plain: TestLinks = Links::new(Features { ws: false, quic: false, pt: false });
    for s in ["ws://h:1", "wss://h:1"] {
        assert_eq!(
            plain.route_of(&url(s)),
            Err("ws/wss support not compiled in (enable the `ws` feature)".to_string())
        );
    }
    assert_eq!(
        plain.route_of(&url("quic://h:1")),
        Err("quic support not compiled in (enable the `quic` feature)".to_string())
    );
    assert_eq!(plain.route_of(&url("tls://h:1")), stream(true, false));
}

#[test]
fn transports_are_loaded() {
    let mut l = links();
    l.load_pluggable_transports(&[
        transport("Obfs4"),
        transport("TLS"),
        transport("no scheme"),
        transport("obfs4"),
        transport("snowflake"),
    ]);
    assert_eq!(l.route_of(&url("obfs4://h:1")), Ok(Route::Pt));
    assert_eq!(l.route_of(&url("OBFS4://h:1")), Ok(Route::Pt));
    assert_eq!(l.route_of(&url("snowflake://h:1")), Ok(Route::Pt));
    assert_eq!(l.route_of(&url("tls://h:1")), Ok(Route::Stream(Layers { tls: true, ws: false })));
    let c = l.pt_client_to_start("obfs4").unwrap();
    assert_eq!((c.protocol.as_str(), c.binary.as_str()), ("obfs4", "/bin/Obfs4"));
    assert!(l.pt_client_to_start("tls").is_none());
    let mut off: TestLinks = Links::new(Features { ws: true, quic: true, pt: false });
    off.load_pluggable_transports(&[transport("obfs4")]);
    assert!(off.route_of(&url("obfs4://h:1")).is_err());
}

#[test]
fn transport_clients_are_started_once() {
    let mut l = links();
    l.load_pluggable_transports(&[transport("x")]);
    assert_eq!(
        l.pt_receiver("x").unwrap_err(),
        "PT protocol 'x' has no watch receiver (internal error)"
    );
    assert!(l.pt_client_to_start("x").is_some());
    l.pt_client_started("x", 'r', 7);
    assert!(l.pt_client_to_start("x").is_none());
    assert_eq!(l.pt_receiver("x"), Ok(&'r'));
    assert_eq!(l.close().pt_client_tasks, vec![7]);
    assert!(l.pt_receiver("x").is_err());
}

#[test]
fn peers_begin() {
    let mut l = links();
    l.commit_peer("tcp://a:1", vec![], 1);
    assert_eq!(l.begin_peer("tcp://a:1").unwrap_err(), "peer already exists");
    assert_eq!(l.begin_peer("nonsense").unwrap_err(), "invalid URI: relative URL without a base");
    assert_eq!(l.begin_peer("x://a:1").unwrap_err(), "unsupported scheme: x");
    let (u, way) = l.begin_peer("tls://b:2").unwrap();
    assert_eq!(u.host, Some("b".to_string()));
    assert_eq!(way, Route::Stream(Layers { tls: true, ws: false }));
}

#[test]
fn targets() {
    let t = peer_target(&url("wss://h/x")).unwrap();
    assert_eq!((t.host.as_str(), t.port, t.target.as_str()), ("h", 443, "h:443"));
    let t = peer_target(&url("tcp://[::1]:9")).unwrap();
    assert_eq!(t.target, "[::1]:9");
    assert_eq!(peer_target(&url("tcp:///x")).unwrap_err(), "missing host");
    assert_eq!(peer_target(&url("tcp://h")).unwrap_err(), "missing port");
}

#[test]
fn a_peer_is_planned_with_all_its_addresses() {
    let l = links();
    let u = url("tcp://h:9");
    let way = l.route_of(&u).unwrap();
    let rs = vec![v6(1, 9, "[::1]:9"), v4(9, 9, "9"), v4(5, 9, "5b"), v4(5, 8, "5a"), v4(6, 1, "6")];
    let p = l.plan_peer("tcp://h:9", &u, way, Some(rs)).unwrap();
    assert_eq!(p.addr_keys, vec!["[::1]:9", "9", "5b", "5a", "6"]);
    assert!(p.pt_args.is_empty());
    assert_eq!(p.options.tls_sni, Some("h".to_string()));
    let p = l.plan_peer("tcp://h:9", &u, way, None).unwrap();
    assert!(p.addr_keys.is_empty());
    let p = l.plan_peer("tcp://h:9", &u, way, Some(vec![])).unwrap();
    assert!(p.addr_keys.is_empty());
}

#[test]
fn peers_at_a_known_address_are_refused() {
    let mut l = links();
    l.commit_peer("tcp://a:1", vec!["7".to_string()], 1);
    l.commit_peer("tcp://b:1", vec!["8".to_string()], 2);
    let u = url("tcp://h:9?priority=x");
    let way = l.route_of(&u).unwrap();
    let rs = vec![v4(9, 9, "9"), v4(8, 9, "8"), v4(7, 9, "7"), v4(1, 1, "1")];
    assert_eq!(
        l.plan_peer("tcp://h:9", &u, way, Some(rs)).unwrap_err(),
        "peer tcp://h:9 already connected as tcp://a:1 (resolves to same address 7)"
    );
    // Without addresses the options are looked at.
    assert!(l.plan_peer("tcp://h:9", &u, way, None).unwrap_err().starts_with("invalid priority"));
}

#[test]
fn peers_need_the_core_and_good_options() {
    let l: TestLinks = Links::new(ALL);
    let u = url("tcp://h:9");
    let way = l.route_of(&u).unwrap();
    assert_eq!(l.plan_peer("u", &u, way, None).unwrap_err(), "core not initialized");
    let bad = url("tcp://h:9?key=00");
    assert_eq!(l.plan_peer("u", &bad, way, None).unwrap_err(), "pinned key must be 32 bytes");
}

#[test]
fn peers_of_transports_are_not_resolved() {
    let mut l = links();
    l.load_pluggable_transports(&[transport("x")]);
    l.commit_peer("tcp://a:1", vec!["7".to_string()], 1);
    let u = url("x://h:9?cert=c&priority=2");
    let way = l.route_of(&u).unwrap();
    assert!(!way.resolves());
    assert!(Route::Quic.resolves());
    let p = l.plan_peer("x://h:9", &u, way, Some(vec![v4(7, 9, "7")])).unwrap();
    assert!(p.addr_keys.is_empty());
    assert_eq!(p.pt_args, vec![("cert".to_string(), "c".to_string())]);
    assert_eq!(p.options.priority, 2);
}

#[test]
fn removing_a_peer_undoes_adding_it() {
    let mut l = links();
    let mut errors = PeerErrors::new();
    let mut active = ActiveLinks::new();
    errors.record("tcp://a:1", Some("down".to_string()));
    errors.record("tcp://b:1", None);
    l.commit_peer("tcp://a:1", vec!["7".to_string()], 1);
    l.commit_peer("tcp://b:1", vec!["8".to_string()], 2);
    active.register("tcp://a:1".to_string(), false, [1; 32], 0, 0);
    active.register("tcp://b:1".to_string(), false, [2; 32], 0, 0);
    let mut peers = l.get_configured_peers(&errors);
    peers.sort();
    assert_eq!(
        peers,
        vec![
            ("tcp://a:1".to_string(), Some("down".to_string())),
            ("tcp://b:1".to_string(), None),
        ]
    );
    let (task, events) = l.remove_peer("tcp://a:1", &mut errors, &mut active).unwrap();
    assert_eq!((task, events.len()), (1, 1));
    assert!(!active.has_key(&[1; 32]));
    assert!(active.has_key(&[2; 32]));
    assert_eq!(errors.last_error("tcp://a:1"), None);
    assert_eq!(
        l.remove_peer("tcp://a:1", &mut errors, &mut active).unwrap_err(),
        "peer not found"
    );
    // Its address is free again, that of the other one is not.
    let u = url("tcp://a:1");
    let way = l.begin_peer("tcp://a:1").unwrap().1;
    assert!(l.plan_peer("tcp://a:1", &u, way, Some(vec![v4(7, 1, "7")])).is_ok());
    assert!(l.plan_peer("tcp://a:1", &u, way, Some(vec![v4(8, 1, "8")])).is_err());
}

#[test]
fn addresses_are_listened_on() {
    let mut l = links();
    l.load_pluggable_transports(&[transport("x")]);
    assert_eq!(
        TestLinks::begin_listen("nonsense").unwrap_err(),
        "invalid URL: relative URL without a base"
    );
    let u = TestLinks::begin_listen("tls://0.0.0.0:5?priority=3").unwrap();
    let p = l.plan_listen(&u, Ok(vec![v4(0, 5, "0.0.0.0:5"), v4(1, 5, "b")])).unwrap();
    assert_eq!(p.route, Route::Stream(Layers { tls: true, ws: false }));
    assert_eq!(p.bind.text, "0.0.0.0:5");
    assert_eq!(p.bind.addr.port, 5);
    assert_eq!(p.options.priority, 3);
    assert!(p.pt_config.is_none());
    let u = url("x://0.0.0.0:5?iat-mode=1");
    let p = l.plan_listen(&u, Ok(vec![v4(0, 5, "0.0.0.0:5")])).unwrap();
    assert_eq!(p.route, Route::Pt);
    assert_eq!(p.pt_config.unwrap().protocol, "x");
    assert_eq!(p.server_options, vec![("iat-mode".to_string(), "1".to_string())]);
    let u = url("quic://0.0.0.0:5");
    assert_eq!(l.plan_listen(&u, Ok(vec![v4(0, 5, "t")])).unwrap().route, Route::Quic);
}

#[test]
fn addresses_that_cannot_be_listened_on() {
    let l = links();
    let u = url("tcp://h:5");
    assert_eq!(l.plan_listen(&u, Err("e".to_string())).unwrap_err(), "invalid address: e");
    assert_eq!(l.plan_listen(&u, Ok(vec![])).unwrap_err(), "no address resolved");
    let one = || Ok(vec![v4(0, 5, "t")]);
    assert_eq!(
        l.plan_listen(&url("tcp://h:5?maxbackoff=1"), one()).unwrap_err(),
        "maxbackoff must be at least 5 seconds"
    );
    assert_eq!(l.plan_listen(&url("y://h:5"), one()).unwrap_err(), "unsupported scheme: y");
    let bare: TestLinks = Links::new(ALL);
    assert_eq!(bare.plan_listen(&url("y://h:5"), one()).unwrap_err(), "core not initialized");
    let e = || "e".to_string();
    assert_eq!(ListenProblem::BindFailed(e()).message(), "bind failed: e");
    assert_eq!(ListenProblem::LocalAddrFailed(e()).message(), "local_addr failed: e");
    assert_eq!(ListenProblem::OrportBindFailed(e()).message(), "PT ORPORT bind: e");
    assert_eq!(ListenProblem::OrportLocalAddrFailed(e()).message(), "PT ORPORT local_addr: e");
}

#[test]
fn closing_hands_out_every_task() {
    let mut l = links();
    l.load_pluggable_transports(&[transport("x")]);
    l.pt_client_started("x", 'r', 10);
    assert_eq!(l.commit_listener("tcp://0.0.0.0:1", 20), None);
    assert_eq!(l.commit_listener("tcp://0.0.0.0:1", 21), Some(20));
    l.commit_peer("tcp://a:1", vec!["7".to_string()], 30);
    let c = l.close();
    assert_eq!(c.rate_handle, Some(0));
    assert_eq!(c.listeners, vec![("tcp://0.0.0.0:1".to_string(), 21)]);
    assert_eq!(c.peers, vec![("tcp://a:1".to_string(), 30)]);
    assert_eq!(c.pt_client_tasks, vec![10]);
    let c = l.close();
    assert!(c.rate_handle.is_none() && c.listeners.is_empty() && c.peers.is_empty());
    assert!(l.get_configured_peers(&PeerErrors::new()).is_empty());
    assert!(l.route_of(&url("x://h:1")).is_err());
    // The core stays.
    assert!(l.require_core().is_ok());
}

#[test]
fn a_backoff_that_overflows_is_told_before_planning() {
    let mut l = links();
    l.commit_peer("tcp://a:1", vec!["7".to_string()], 1);
    let u = url("tcp://h:9?maxbackoff=18446744073709551615h");
    let way = l.route_of(&u).unwrap();
    assert!(!l.can_plan_peer(&u, way, &None));
    assert!(!l.can_plan_peer(&u, way, &Some(vec![v4(1, 9, "1")])));
    // A peer at a known address is refused before its options are read.
    let known = Some(vec![v4(7, 9, "7")]);
    assert!(l.can_plan_peer(&u, way, &known));
    assert!(l.plan_peer("tcp://h:9", &u, way, known).is_err());
    assert!(l.can_plan_peer(&url("tcp://h:9"), way, &None));
}

#[test]
fn the_same_host_is_found_by_name_and_by_ip() {
    let mut l = links();
    let mut errors = PeerErrors::new();
    let mut active = ActiveLinks::new();
    let u = url("tcp://h:1");
    let (_, way) = l.begin_peer("tcp://h:1").unwrap();
    let both = || Some(vec![v4(0xc000_0201, 1, "192.0.2.1:1"), v4(0xc000_0202, 1, "192.0.2.2:1")]);
    let plan = l.plan_peer("tcp://h:1", &u, way, both()).unwrap();
    l.commit_peer("tcp://h:1", plan.addr_keys, 1);
    let by_ip = "tcp://192.0.2.2:1";
    let second = || Some(vec![v4(0xc000_0202, 1, "192.0.2.2:1")]);
    assert_eq!(
        l.plan_peer(by_ip, &url(by_ip), way, second()).unwrap_err(),
        "peer tcp://192.0.2.2:1 already connected as tcp://h:1 (resolves to same address 192.0.2.2:1)"
    );
    assert_eq!(l.get_configured_peers(&errors), vec![("tcp://h:1".to_string(), None)]);
    // Both addresses are free again once the peer is gone.
    l.remove_peer("tcp://h:1", &mut errors, &mut active).unwrap();
    assert!(l.plan_peer(by_ip, &url(by_ip), way, second()).is_ok());
    assert!(l.plan_peer("tcp://h:1", &u, way, both()).is_ok());
}
