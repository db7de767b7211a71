use std::sync::atomic::Ordering;
use yggdrasil::active::{ActiveLinks, PeerEvent};

const K: [u8; 32] = [7; 32];
const L: [u8; 32] = [8; 32];

fn add(a: &mut ActiveLinks, uri: &str, inbound: bool, key: [u8; 32], now: u64) -> Option<u64> {
    a.register(uri.to_string(), inbound, key, 3, now).map(|g| g.id)
}

#[test]
fn a_key_is_registered_once_in_each_direction() {
    let mut a = ActiveLinks::new();
    assert_eq!(add(&mut a, "u", false, K, 0), Some(0));
    assert_eq!(add(&mut a, "v", false, K, 0), None);
    assert_eq!(add(&mut a, "v", true, K, 0), Some(1));
    assert_eq!(add(&mut a, "w", false, L, 0), Some(2));
    assert!(a.has_key(&K));
    assert!(!a.has_key(&[9; 32]));
    assert_eq!(a.get_peers(0).len(), 3);
    // A number is not used again.
    a.unregister(0);
    assert_eq!(add(&mut a, "u", false, K, 0), Some(3));
}

#[test]
fn registering_tells_of_the_peer() {
    let mut a = ActiveLinks::new();
    let g = a.register("u".to_string(), true, K, 3, 0).unwrap();
    match g.event {
        PeerEvent::Connected { key, uri, inbound } => {
            assert_eq!(key, K);
            assert_eq!(uri, "u");
            assert!(inbound);
        },
        other => panic!("{:?}", other),
    }
    match a.unregister(g.id) {
        Some(PeerEvent::Disconnected { key }) => assert_eq!(key, K),
        other => panic!("{:?}", other),
    }
    assert!(a.unregister(g.id).is_none());
    assert!(!a.has_key(&K));
}

#[test]
fn removing_a_uri_removes_all_of_its_links() {
    let mut a = ActiveLinks::new();
    add(&mut a, "u", false, K, 0);
    add(&mut a, "u", false, L, 0);
    add(&mut a, "v", true, K, 0);
    let mut keys: Vec<u8> = a
        .unregister_by_uri("u")
        .into_iter()
        .map(|e| match e {
            PeerEvent::Disconnected { key } => key[0],
            other => panic!("{:?}", other),
        })
        .collect();
    keys.sort();
    assert_eq!(keys, vec![7, 8]);
    let left = a.get_peers(0);
    assert_eq!(left.len(), 1);
    assert_eq!(left[0].uri, "v");
    assert!(a.unregister_by_uri("u").is_empty());
}

#[test]
fn snapshots_show_counters_rates_and_uptime() {
    let mut a = ActiveLinks::new();
    let g = a.register("u".to_string(), true, K, 3, 1_000).unwrap();
    g.rx.fetch_add(500, Ordering::Relaxed);
    g.tx.fetch_add(20, Ordering::Relaxed);
    a.update_rates();
    g.rx.fetch_add(7, Ordering::Relaxed);
    let p = &a.get_peers(5_000)[0];
    assert_eq!(p.uri, "u");
    assert!(p.up && p.inbound);
    assert_eq!(p.key, K);
    assert_eq!(p.priority, 3);
    assert_eq!((p.rx_bytes, p.tx_bytes), (507, 20));
    assert_eq!((p.rx_rate, p.tx_rate), (500, 20));
    assert_eq!(p.uptime, 4_000);
    assert_eq!((p.latency, p.cost), (0, 0));
    assert_eq!(p.last_error, None);
    a.update_rates();
    let p = &a.get_peers(0)[0];
    assert_eq!((p.rx_rate, p.tx_rate), (7, 0));
    // A clock that goes back shows no uptime.
    assert_eq!(p.uptime, 0);
}

#[test]
fn a_counter_that_falls_has_no_rate() {
    let mut a = ActiveLinks::new();
    let g = a.register("u".to_string(), true, K, 3, 0).unwrap();
    g.rx.store(9, Ordering::Relaxed);
    a.update_rates();
    g.rx.store(4, Ordering::Relaxed);
    a.update_rates();
    assert_eq!(a.get_peers(0)[0].rx_rate, 0);
    g.rx.store(6, Ordering::Relaxed);
    a.update_rates();
    assert_eq!(a.get_peers(0)[0].rx_rate, 2);
}
