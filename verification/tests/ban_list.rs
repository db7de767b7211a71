use yggdrasil::ban_list::BanList;
use yggdrasil::ip::IpAddr;

const SEC: u64 = 1_000_000_000;
const A: IpAddr = IpAddr::V4(0x0102_0304);
const B: IpAddr = IpAddr::V6(7);

#[test]
fn three_failures_ban_an_address() {
    let mut b = BanList::new();
    assert!(!b.is_banned(A, 0));
    assert!(!b.record_failure(A, 10 * SEC));
    assert!(!b.record_failure(A, 70 * SEC));
    assert!(!b.is_banned(A, 70 * SEC));
    assert!(b.record_failure(A, 130 * SEC));
    assert!(b.is_banned(A, 130 * SEC));
    assert!(b.is_banned(A, 1030 * SEC - 1));
    assert!(!b.is_banned(B, 130 * SEC));
    assert!(!b.is_banned(A, 1030 * SEC));
    // The count starts afresh.
    assert!(!b.record_failure(A, 1031 * SEC));
    assert!(!b.record_failure(A, 1032 * SEC));
    assert!(b.record_failure(A, 1033 * SEC));
}

#[test]
fn failures_far_apart_do_not_add_up() {
    let mut b = BanList::new();
    for i in 0..10u64 {
        assert!(!b.record_failure(A, i * 61 * SEC));
    }
    assert!(b.can_record(A, 0));
}

#[test]
fn failures_of_two_addresses_do_not_add_up() {
    let mut b = BanList::new();
    assert!(!b.record_failure(A, 0));
    assert!(!b.record_failure(B, 0));
    assert!(!b.record_failure(A, 0));
    assert!(!b.record_failure(B, 0));
    assert!(b.record_failure(A, 0));
}

#[test]
fn a_clean_up_keeps_bans_and_recent_failures() {
    let mut b = BanList::new();
    for _ in 0..3 {
        b.record_failure(A, 0);
    }
    b.record_failure(B, 10 * SEC);
    b.record_failure(B, 10 * SEC);
    b.cleanup(60 * SEC);
    assert!(b.is_banned(A, 60 * SEC));
    assert!(b.record_failure(B, 60 * SEC));
}

#[test]
fn a_clean_up_forgets_what_is_old() {
    let mut b = BanList::new();
    b.record_failure(A, 0);
    b.record_failure(A, 0);
    b.cleanup(120 * SEC - 1);
    assert!(b.record_failure(A, 60 * SEC));
    let mut b = BanList::new();
    b.record_failure(A, 0);
    b.record_failure(A, 0);
    b.cleanup(120 * SEC);
    assert!(!b.record_failure(A, 60 * SEC));
}

/// A ban that ran out without a look at it can take a recent failure with it.
#[test]
fn a_clean_up_can_forget_a_failure_after_a_ban() {
    let mut b = BanList::new();
    for _ in 0..3 {
        b.record_failure(A, 0);
    }
    // Not looked at in between: the ban stays on record.
    b.record_failure(A, 959 * SEC);
    b.record_failure(A, 959 * SEC);
    b.cleanup(960 * SEC);
    assert!(!b.record_failure(A, 961 * SEC));
}

#[test]
fn an_earlier_time_counts_as_no_time_passed() {
    let mut b = BanList::new();
    b.record_failure(A, 100 * SEC);
    b.record_failure(A, 50 * SEC);
    assert!(b.record_failure(A, 0));
    assert!(b.is_banned(A, 899 * SEC));
}
