use ipscan::address::Address;
use ipscan::range::{verify_input, Range, RangeError};
use ipscan::scan::{all_permission_denied, collect_responsive, settle, ProbeConfig, ProbeFailure, ProbeOutcome};
use std::collections::BTreeSet;

fn addr(a: u8, b: u8, c: u8, d: u8) -> Address {
    Address::new(a, b, c, d)
}

fn range(start: Address, end: Address) -> Range {
    match verify_input(start, end) {
        Ok(r) => r,
        Err(e) => panic!("range rejected: {:?}", e),
    }
}

fn simulate(targets: &Vec<Address>, probe: impl Fn(Address) -> ProbeOutcome) -> Vec<ProbeOutcome> {
    targets.iter().map(|t| probe(*t)).collect()
}

fn even_answers(a: Address) -> ProbeOutcome {
    if a.d % 2 == 0 {
        ProbeOutcome::Responsive { rtt_ms: 1 }
    } else {
        ProbeOutcome::Unresponsive { reason: ProbeFailure::TimedOut }
    }
}

fn as_set(v: &Vec<Address>) -> BTreeSet<Address> {
    v.iter().copied().collect()
}

#[test]
fn expand_covers_range_in_ascending_order() {
    let r = range(addr(192, 168, 1, 10), addr(192, 168, 1, 20));
    let v = r.expand();
    assert_eq!(v.len(), 11);
    assert_eq!(v[0], addr(192, 168, 1, 10));
    assert_eq!(v[10], addr(192, 168, 1, 20));
    for w in v.windows(2) {
        assert!(w[0].to_u32() < w[1].to_u32());
    }
    for (i, a) in v.iter().enumerate() {
        assert_eq!(a.octets(), [192, 168, 1, 10 + i as u8]);
    }
}

#[test]
fn expand_whole_subnet() {
    let r = range(addr(10, 1, 2, 0), addr(10, 1, 2, 255));
    assert_eq!(r.size(), 256);
    let v = r.expand();
    assert_eq!(v.len(), 256);
    assert_eq!(v[0], addr(10, 1, 2, 0));
    assert_eq!(v[255], addr(10, 1, 2, 255));
}

#[test]
fn expand_single_address() {
    let r = range(addr(172, 16, 0, 7), addr(172, 16, 0, 7));
    assert_eq!(r.size(), 1);
    assert_eq!(r.expand(), vec![addr(172, 16, 0, 7)]);
}

#[test]
fn rejects_start_after_end() {
    let r = verify_input(addr(10, 0, 0, 5), addr(10, 0, 0, 2));
    assert!(matches!(r, Err(RangeError::StartAfterEnd)));
}

#[test]
fn rejects_cross_subnet() {
    let r = verify_input(addr(10, 0, 0, 1), addr(10, 0, 1, 1));
    assert!(matches!(r, Err(RangeError::DifferentSubnets)));
}

#[test]
fn ordering_is_checked_before_subnet() {
    let r = verify_input(addr(10, 0, 1, 5), addr(10, 0, 0, 9));
    assert!(matches!(r, Err(RangeError::StartAfterEnd)));
    let r = verify_input(addr(10, 0, 0, 200), addr(10, 0, 1, 3));
    assert!(matches!(r, Err(RangeError::DifferentSubnets)));
}

#[test]
fn accepts_full_last_octet_range() {
    let r = range(addr(192, 168, 1, 1), addr(192, 168, 1, 255));
    assert_eq!(r.start(), addr(192, 168, 1, 1));
    assert_eq!(r.end(), addr(192, 168, 1, 255));
    assert_eq!(r.size(), 255);
    assert_eq!(r.expand().len(), 255);
}

#[test]
fn even_hosts_answer() {
    let targets = range(addr(192, 168, 1, 1), addr(192, 168, 1, 10)).expand();
    let outcomes = simulate(&targets, even_answers);
    let live = collect_responsive(&targets, &outcomes);
    let expected: BTreeSet<Address> =
        [2u8, 4, 6, 8, 10].iter().map(|d| addr(192, 168, 1, *d)).collect();
    assert_eq!(as_set(&live), expected);
    assert_eq!(live.len(), 5);
}

#[test]
fn all_timeouts_give_empty_result() {
    let targets = range(addr(10, 9, 8, 0), addr(10, 9, 8, 255)).expand();
    let outcomes = simulate(&targets, |_| ProbeOutcome::Unresponsive { reason: ProbeFailure::TimedOut });
    assert!(collect_responsive(&targets, &outcomes).is_empty());
}

#[test]
fn repeated_scan_is_identical() {
    let targets = range(addr(192, 168, 7, 3), addr(192, 168, 7, 60)).expand();
    let first = collect_responsive(&targets, &simulate(&targets, even_answers));
    let second = collect_responsive(&targets, &simulate(&targets, even_answers));
    assert_eq!(as_set(&first), as_set(&second));
}

#[test]
fn one_crashed_probe_does_not_hide_others() {
    let targets = range(addr(192, 168, 1, 1), addr(192, 168, 1, 10)).expand();
    let mut outcomes = simulate(&targets, |_| ProbeOutcome::Responsive { rtt_ms: 2 });
    outcomes[3] = ProbeOutcome::Unresponsive { reason: ProbeFailure::TaskFailed };
    let live = as_set(&collect_responsive(&targets, &outcomes));
    assert_eq!(live.len(), 9);
    assert!(!live.contains(&addr(192, 168, 1, 4)));
    for d in [1u8, 2, 3, 5, 6, 7, 8, 9, 10] {
        assert!(live.contains(&addr(192, 168, 1, d)));
    }
}

#[test]
fn every_failure_kind_counts_as_unresponsive() {
    let targets = range(addr(10, 0, 0, 1), addr(10, 0, 0, 6)).expand();
    let outcomes = vec![
        ProbeOutcome::Unresponsive { reason: ProbeFailure::TimedOut },
        ProbeOutcome::Unresponsive { reason: ProbeFailure::Unreachable },
        ProbeOutcome::Unresponsive { reason: ProbeFailure::PermissionDenied },
        ProbeOutcome::Unresponsive { reason: ProbeFailure::Transport },
        ProbeOutcome::Unresponsive { reason: ProbeFailure::TaskFailed },
        ProbeOutcome::Responsive { rtt_ms: 12 },
    ];
    assert_eq!(collect_responsive(&targets, &outcomes), vec![addr(10, 0, 0, 6)]);
    assert!(!outcomes[0].is_responsive());
    assert!(outcomes[5].is_responsive());
}

#[test]
fn detects_systemic_permission_failure() {
    let denied = ProbeOutcome::Unresponsive { reason: ProbeFailure::PermissionDenied };
    assert!(all_permission_denied(&vec![denied; 4]));
    assert!(!all_permission_denied(&vec![]));
    let mut mixed = vec![denied; 4];
    mixed[2] = ProbeOutcome::Unresponsive { reason: ProbeFailure::TimedOut };
    assert!(!all_permission_denied(&mixed));
}

#[test]
fn address_numeric_value_and_order() {
    assert_eq!(addr(192, 168, 1, 2).to_u32(), 3232235778);
    assert_eq!(addr(255, 255, 255, 255).to_u32(), u32::MAX);
    assert!(addr(10, 0, 1, 0).is_after(&addr(10, 0, 0, 255)));
    assert!(!addr(10, 0, 0, 3).is_after(&addr(10, 0, 0, 3)));
    assert!(addr(10, 0, 0, 3).same_subnet(&addr(10, 0, 0, 200)));
    assert!(!addr(10, 0, 0, 3).same_subnet(&addr(10, 1, 0, 3)));
}

#[test]
fn standard_probe_config() {
    let c = ProbeConfig::standard();
    assert_eq!(c.timeout_ms, 3000);
    assert_eq!(c.ttl, 64);
    assert!(c.dont_fragment);
    assert_eq!(c.payload_len, 4);
    let c = c.with_timeout(500);
    assert_eq!(c.timeout_ms, 500);
    assert_eq!(c.ttl, 64);
}

#[test]
fn unfinished_task_settles_as_failed() {
    let done = ProbeOutcome::Responsive { rtt_ms: 7 };
    assert_eq!(settle(Some(done)), done);
    assert_eq!(settle(None), ProbeOutcome::Unresponsive { reason: ProbeFailure::TaskFailed });
    let targets = range(addr(10, 0, 0, 1), addr(10, 0, 0, 3)).expand();
    let outcomes: Vec<ProbeOutcome> = vec![Some(done), None, Some(done)].into_iter().map(settle).collect();
    assert_eq!(collect_responsive(&targets, &outcomes), vec![addr(10, 0, 0, 1), addr(10, 0, 0, 3)]);
}
