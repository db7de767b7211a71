use yggdrasil::duration::Duration;
use yggdrasil::ip::{IpAddr, SocketAddr};
use yggdrasil::reconnect::{
    CleanupTimer, PeerAction, PeerBackoff, PeerNews, ProcessAction, ProcessNews, PtManager, Wake,
};

const SEC: u64 = 1_000_000_000;

fn fail(b: &mut PeerBackoff, max: u64) -> u64 {
    let s = b.step(Duration::from_secs(max), PeerNews::DialFailed("e".to_string()));
    assert_eq!(s.note, Some(Some("e".to_string())));
    match s.action {
        PeerAction::Wait(d) => d.as_secs(),
        other => panic!("{:?}", other),
    }
}

#[test]
fn waits_double_up_to_the_limit() {
    let mut b = PeerBackoff::new();
    let waits: Vec<u64> = (0..14).map(|_| fail(&mut b, 4096)).collect();
    assert_eq!(waits[..5], [2, 4, 8, 16, 32]);
    assert_eq!(waits[11], 4096);
    assert_eq!(waits[12], 4096);
    assert_eq!(waits[13], 4096);
    let mut b = PeerBackoff::new();
    let waits: Vec<u64> = (0..40).map(|_| fail(&mut b, u64::MAX)).collect();
    assert_eq!(waits[15], 65536);
    assert_eq!(waits[39], 65536);
    let mut b = PeerBackoff::new();
    assert_eq!(fail(&mut b, 5), 2);
    assert_eq!(fail(&mut b, 5), 4);
    assert_eq!(fail(&mut b, 5), 5);
}

fn end(b: &mut PeerBackoff, result: Result<(), String>, uptime: u64) -> u64 {
    let s = b.step(Duration::from_secs(4096), PeerNews::Ended { result: result.clone(), uptime });
    assert_eq!(s.note, Some(result.err()));
    match s.action {
        PeerAction::Wait(d) => d.as_secs(),
        other => panic!("{:?}", other),
    }
}

#[test]
fn a_good_link_starts_the_count_afresh() {
    let mut b = PeerBackoff::new();
    for _ in 0..5 {
        fail(&mut b, 4096);
    }
    assert_eq!(end(&mut b, Err("x".to_string()), 30 * SEC - 1), 64);
    assert_eq!(end(&mut b, Err("x".to_string()), 30 * SEC), 2);
    for _ in 0..5 {
        fail(&mut b, 4096);
    }
    assert_eq!(end(&mut b, Ok(()), 0), 2);
}

#[test]
fn a_peer_that_is_woken_is_dialled() {
    let mut b = PeerBackoff::new();
    let max = Duration::from_secs(4096);
    let s = b.step(max, PeerNews::Connected);
    assert_eq!((s.note, s.action), (Some(None), PeerAction::Run));
    fail(&mut b, 4096);
    fail(&mut b, 4096);
    for wake in [Wake::Slept, Wake::PtReady] {
        let s = b.step(max, PeerNews::Woken(wake));
        assert_eq!((s.note, s.action), (None, PeerAction::Dial));
    }
    assert_eq!(fail(&mut b, 4096), 8);
    assert_eq!(b.step(max, PeerNews::Woken(Wake::RetryNow)).action, PeerAction::Dial);
    assert_eq!(fail(&mut b, 4096), 2);
    assert_eq!(b.step(max, PeerNews::Woken(Wake::Cancelled)).action, PeerAction::Stop);
}

const ADDR: SocketAddr = SocketAddr { ip: IpAddr::V4(0x7f00_0001), port: 9, scope_id: 0 };

fn slept(m: &mut PtManager, news: ProcessNews) -> u64 {
    let s = m.step(news);
    assert_eq!(s.tell, Some(None));
    match s.action {
        ProcessAction::Sleep(d) => d.as_secs(),
        other => panic!("{:?}", other),
    }
}

#[test]
fn processes_are_restarted_with_backoff() {
    let mut m = PtManager::new();
    let waits: Vec<u64> = (0..8).map(|_| slept(&mut m, ProcessNews::StartFailed)).collect();
    assert_eq!(waits, [2, 4, 8, 16, 32, 64, 64, 64]);
    let s = m.step(ProcessNews::Slept);
    assert_eq!((s.tell, s.action), (None, ProcessAction::Spawn));
    let s = m.step(ProcessNews::Started(ADDR));
    assert_eq!((s.tell, s.action), (Some(Some(ADDR)), ProcessAction::Watch));
    assert_eq!(slept(&mut m, ProcessNews::Exited { uptime: 30 * SEC - 1 }), 64);
    m.step(ProcessNews::Slept);
    m.step(ProcessNews::Started(ADDR));
    assert_eq!(slept(&mut m, ProcessNews::Exited { uptime: 30 * SEC }), 1);
    assert_eq!(slept(&mut m, ProcessNews::Exited { uptime: 0 }), 2);
}

#[test]
fn processes_are_shut_down() {
    let mut m = PtManager::new();
    m.step(ProcessNews::Started(ADDR));
    assert_eq!(m.step(ProcessNews::Cancelled).action, ProcessAction::Shutdown);
    let mut m = PtManager::new();
    m.step(ProcessNews::StartFailed);
    assert_eq!(m.step(ProcessNews::Cancelled).action, ProcessAction::Stop);
}

#[test]
fn the_ban_list_is_cleaned_every_minute() {
    let mut t = CleanupTimer::new();
    let due: Vec<usize> = (1..=200).filter(|_| t.tick()).collect();
    assert_eq!(due, vec![60, 120, 180]);
}
