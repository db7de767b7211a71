use yggdrasil::active::{ActiveLinks, PeerEvent};
use yggdrasil::connection::{
    has_room, read_body_length, Connection, HandshakeAction, HandshakeEvent, LocalNode, RemoteMeta,
    RunningLink,
};
use yggdrasil::ip::IpAddr;
use yggdrasil::options::{LinkOptions, LinkType};

const OURS: [u8; 32] = [1; 32];
const THEIRS: [u8; 32] = [2; 32];
const OUTSIDE: IpAddr = IpAddr::V4(0x0808_0808);
const LOOPBACK: IpAddr = IpAddr::V4(0x7f00_0001);

fn local() -> LocalNode {
    LocalNode { public_key: OURS, major_ver: 0, minor_ver: 5 }
}

fn meta() -> RemoteMeta {
    RemoteMeta { public_key: THEIRS, priority: 4, major_ver: 0, minor_ver: 5, compatible: true }
}

fn connection(link_type: LinkType, options: LinkOptions, ip: Option<IpAddr>) -> Connection {
    Connection::new(link_type, options, local(), "uri".to_string(), ip, "8.8.8.8".to_string())
}

fn header(n: usize) -> Vec<u8> {
    vec![b'm', b'e', b't', b'a', (n / 256) as u8, (n % 256) as u8]
}

fn reason(a: HandshakeAction) -> String {
    match a {
        HandshakeAction::Fail(e) => e,
        other => panic!("{:?}", other),
    }
}

/// Runs a handshake up to the peer's metadata.
fn shake(c: &mut Connection, links: &mut ActiveLinks, now: u64) {
    assert!(matches!(c.begin(links, now), HandshakeAction::Send));
    assert!(matches!(c.step(HandshakeEvent::Sent), HandshakeAction::Read(6)));
    assert!(matches!(c.step(HandshakeEvent::Bytes(header(300))), HandshakeAction::Read(300)));
    match c.step(HandshakeEvent::Bytes(vec![9; 300])) {
        HandshakeAction::Decode(b) => {
            assert_eq!(b.len(), 306);
            assert_eq!(b[..6], header(300)[..]);
            assert_eq!(b[6], 9);
        },
        other => panic!("{:?}", other),
    }
    assert!(has_room(links, c.peer_ip, now));
}

fn meet(
    links: &mut ActiveLinks,
    c: &mut Connection,
    meta: &RemoteMeta,
    tls_key: Option<[u8; 32]>,
    allowed: bool,
) -> Result<RunningLink, String> {
    shake(c, links, 0);
    c.decoded(links, meta, tls_key, allowed, 0)
}

#[test]
fn headers() {
    assert_eq!(read_body_length(&header(64)), Ok(64));
    assert_eq!(read_body_length(&header(65535)), Ok(65535));
    assert_eq!(read_body_length(&header(63)), Err("metadata too short".to_string()));
    assert_eq!(read_body_length(b"mete\x01\x00"), Err("invalid preamble".to_string()));
}

#[test]
fn a_link_from_start_to_end() {
    let mut links = ActiveLinks::new();
    let mut c = connection(LinkType::Persistent, LinkOptions::default(), Some(OUTSIDE));
    let run = meet(&mut links, &mut c, &meta(), Some(THEIRS), false).unwrap();
    assert_eq!((run.key, run.priority), (THEIRS, 4));
    match run.event {
        PeerEvent::Connected { key, uri, inbound } => {
            assert_eq!((key, uri.as_str(), inbound), (THEIRS, "uri", false));
        },
        other => panic!("{:?}", other),
    }
    assert!(links.has_key(&THEIRS));
    let (result, event) = c.ended(&mut links, Err("gone".to_string()));
    assert_eq!(result, Err("ironwood: gone".to_string()));
    assert!(matches!(event, Some(PeerEvent::Disconnected { key }) if key == THEIRS));
    assert!(!links.has_key(&THEIRS));
}

#[test]
fn a_clean_end_of_a_link_that_was_removed() {
    let mut links = ActiveLinks::new();
    let mut c = connection(LinkType::Persistent, LinkOptions::default(), None);
    meet(&mut links, &mut c, &meta(), None, false).unwrap();
    links.unregister_by_uri("uri");
    let (result, event) = c.ended(&mut links, Ok(()));
    assert_eq!(result, Ok(()));
    assert!(event.is_none());
}

#[test]
fn handshakes_that_break_off() {
    let mut links = ActiveLinks::new();
    let mut new = || connection(LinkType::Incoming, LinkOptions::default(), None);
    let mut c = new();
    c.begin(&mut links, 0);
    assert_eq!(reason(c.step(HandshakeEvent::WriteFailed("x".to_string()))), "write handshake: x");
    let mut c = new();
    c.begin(&mut links, 0);
    assert_eq!(reason(c.step(HandshakeEvent::FlushFailed("x".to_string()))), "flush handshake: x");
    let mut c = new();
    c.begin(&mut links, 0);
    c.step(HandshakeEvent::Sent);
    assert_eq!(reason(c.step(HandshakeEvent::ReadFailed("x".to_string()))), "read header: x");
    let mut c = new();
    c.begin(&mut links, 0);
    c.step(HandshakeEvent::Sent);
    assert_eq!(reason(c.step(HandshakeEvent::Bytes(header(1)))), "metadata too short");
    let mut c = new();
    c.begin(&mut links, 0);
    c.step(HandshakeEvent::Sent);
    c.step(HandshakeEvent::Bytes(header(64)));
    assert_eq!(reason(c.step(HandshakeEvent::ReadFailed("x".to_string()))), "read body: x");
    let mut c = new();
    shake(&mut c, &mut links, 0);
    assert_eq!(
        reason(c.step(HandshakeEvent::DecodeFailed("x".to_string()))),
        "decode handshake: x"
    );
    let mut c = new();
    c.begin(&mut links, 0);
    assert_eq!(reason(c.step(HandshakeEvent::TimedOut)), "handshake timed out");
}

#[test]
fn peers_that_are_turned_away() {
    let mut links = ActiveLinks::new();
    let mut pinned = LinkOptions::default();
    pinned.pinned_keys.push([9; 32]);

    let mut c = connection(LinkType::Incoming, LinkOptions::default(), Some(OUTSIDE));
    assert_eq!(
        meet(&mut links, &mut c, &meta(), Some([3; 32]), true).unwrap_err(),
        "TLS certificate pubkey does not match meta handshake pubkey"
    );
    let old = RemoteMeta { minor_ver: 12, compatible: false, ..meta() };
    let mut c = connection(LinkType::Incoming, LinkOptions::default(), None);
    assert_eq!(
        meet(&mut links, &mut c, &old, None, true).unwrap_err(),
        "incompatible version 0.12 (local 0.5)"
    );
    let own = RemoteMeta { public_key: OURS, ..meta() };
    let mut c = connection(LinkType::Incoming, pinned.clone(), None);
    assert_eq!(meet(&mut links, &mut c, &own, None, false).unwrap_err(), "connected to self");
    let mut c = connection(LinkType::Incoming, pinned, None);
    assert_eq!(
        meet(&mut links, &mut c, &meta(), None, false).unwrap_err(),
        "remote key not in pinned keys"
    );
    let mut c = connection(LinkType::Incoming, LinkOptions::default(), None);
    assert_eq!(
        meet(&mut links, &mut c, &meta(), None, false).unwrap_err(),
        "remote key not allowed"
    );
    assert!(!links.has_key(&THEIRS));
    let mut c = connection(LinkType::Incoming, LinkOptions::default(), None);
    assert!(meet(&mut links, &mut c, &meta(), None, true).is_ok());
    let mut c = connection(LinkType::Incoming, LinkOptions::default(), None);
    assert_eq!(
        meet(&mut links, &mut c, &meta(), None, true).unwrap_err(),
        "duplicate connection"
    );
}

#[test]
fn the_higher_priority_and_a_pinned_key_count() {
    let mut links = ActiveLinks::new();
    let mut options = LinkOptions::default();
    options.priority = 200;
    options.pinned_keys.push([9; 32]);
    options.pinned_keys.push(THEIRS);
    let mut c = connection(LinkType::Ephemeral, options, None);
    // Outgoing links do not need to be allowed in.
    let run = meet(&mut links, &mut c, &meta(), None, false).unwrap();
    assert_eq!(run.priority, 200);
    assert_eq!(links.get_peers(0)[0].priority, 200);
    assert!(!links.get_peers(0)[0].inbound);
}

#[test]
fn three_bad_handshakes_shut_an_address_out() {
    let mut links = ActiveLinks::new();
    for _ in 0..3 {
        let mut c = connection(LinkType::Incoming, LinkOptions::default(), Some(OUTSIDE));
        assert!(meet(&mut links, &mut c, &meta(), None, false).is_err());
    }
    let mut c = connection(LinkType::Incoming, LinkOptions::default(), Some(OUTSIDE));
    assert_eq!(reason(c.begin(&mut links, 1)), "IP 8.8.8.8 is temporarily banned");
    let mut c = connection(LinkType::Incoming, LinkOptions::default(), Some(OUTSIDE));
    assert!(matches!(c.begin(&mut links, 900_000_000_000), HandshakeAction::Send));
}

#[test]
fn mistakes_of_configuration_and_loopback_are_forgiven() {
    let mut links = ActiveLinks::new();
    let own = RemoteMeta { public_key: OURS, ..meta() };
    for _ in 0..5 {
        let mut c = connection(LinkType::Incoming, LinkOptions::default(), Some(OUTSIDE));
        assert!(meet(&mut links, &mut c, &own, None, true).is_err());
        let mut c = connection(LinkType::Incoming, LinkOptions::default(), Some(LOOPBACK));
        assert!(meet(&mut links, &mut c, &meta(), None, false).is_err());
    }
    assert!(!links.ban_list.is_banned(OUTSIDE, 1));
    assert!(!links.ban_list.is_banned(LOOPBACK, 1));
}
