use yggdrasil::counting::{Meter, FLUSH_THRESHOLD};

#[test]
fn small_amounts_gather() {
    let mut m = Meter::new();
    assert_eq!(m.count(1000), 0);
    assert_eq!(m.count(2000), 0);
    assert_eq!(m.flush(), 3000);
    assert_eq!(m.flush(), 0);
}

#[test]
fn the_threshold_hands_over() {
    let mut m = Meter::new();
    assert_eq!(m.count(FLUSH_THRESHOLD - 1), 0);
    assert_eq!(m.count(1), 65536);
    assert_eq!(m.count(100_000), 100_000);
    assert_eq!(m.flush(), 0);
}

#[test]
fn every_byte_arrives_once() {
    let mut m = Meter::new();
    let mut given = 0;
    let mut counted = 0;
    for n in [1usize, 65535, 65536, 0, 7, 40000, 40000, 3] {
        counted += n;
        given += m.count(n);
    }
    given += m.flush();
    assert_eq!(given, counted);
}

#[test]
fn counts_have_a_limit() {
    let mut m = Meter::new();
    assert!(m.can_count(usize::MAX));
    m.count(1);
    assert!(!m.can_count(usize::MAX));
    assert!(m.can_count(usize::MAX - 1));
}
