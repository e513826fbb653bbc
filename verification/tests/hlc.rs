use falcon::hlc::{Hlc, HlcClock};

fn stamp(wall: u64, logical: u32, region: &str) -> Hlc {
    Hlc { wall, logical, region: region.to_string() }
}

#[test]
fn now_is_monotonic() {
    let mut clock = HlcClock::new("r1".to_string());
    let mut prev = clock.now().unwrap();
    for _ in 0..1000 {
        let next = clock.now().unwrap();
        assert!(next > prev, "HLC must be strictly monotonic: {prev:?} !< {next:?}");
        prev = next;
    }
}

#[test]
fn total_order_breaks_ties_by_region() {
    let a = stamp(5, 2, "a");
    let b = stamp(5, 2, "b");
    assert!(a < b);
    assert_ne!(a, b);
}

#[test]
fn observe_advances_past_remote() {
    let mut clock = HlcClock::new("local".to_string());
    let remote = stamp(u64::MAX / 2, 99, "remote");
    let merged = clock.observe(&remote).unwrap();
    assert!(merged > remote, "after observing, local clock must be ahead of remote");
    let next = clock.now().unwrap();
    assert!(next > remote);
}

#[test]
fn wall_dominates_logical() {
    let lo = stamp(10, 999, "z");
    let hi = stamp(11, 0, "a");
    assert!(hi > lo);
}

#[test]
fn a_local_stamp_takes_the_time_or_counts_on() {
    let mut clock = HlcClock::new("r1".to_string());
    assert_eq!(clock.now_at(Some(7)), Some(stamp(7, 0, "r1")));
    assert_eq!(clock.now_at(Some(7)), Some(stamp(7, 1, "r1")));
    assert_eq!(clock.now_at(Some(3)), Some(stamp(7, 2, "r1")));
    assert_eq!(clock.now_at(None), None);
    assert_eq!(clock.now_at(Some(8)), Some(stamp(8, 0, "r1")));
}

#[test]
fn an_observed_stamp_is_passed_at_any_time() {
    let mut clock = HlcClock::new("r1".to_string());
    assert_eq!(clock.observe_at(&stamp(5, 9, "r2"), Some(4)), Some(stamp(5, 10, "r1")));
    assert_eq!(clock.observe_at(&stamp(5, 3, "r2"), Some(5)), Some(stamp(5, 11, "r1")));
    assert_eq!(clock.observe_at(&stamp(5, 3, "r2"), None), None);
    assert_eq!(clock.observe_at(&stamp(5, 3, "r2"), Some(6)), Some(stamp(6, 0, "r1")));
}

#[test]
fn a_used_up_counter_leaves_the_clock_as_it_was() {
    let mut clock = HlcClock::new("r1".to_string());
    assert_eq!(clock.observe_at(&stamp(5, u32::MAX, "r2"), Some(1)), None);
    assert_eq!(clock.now_at(Some(1)), Some(stamp(1, 0, "r1")));
    clock.observe_at(&stamp(5, u32::MAX - 1, "r2"), Some(1)).unwrap();
    assert_eq!(clock.now_at(Some(5)), None);
    assert_eq!(clock.now_at(Some(6)), Some(stamp(6, 0, "r1")));
}
