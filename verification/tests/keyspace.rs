use falcon::bus::EventBus;
use falcon::config::TierName;
use falcon::event::{ChangeEvent, ChangeValue};
use falcon::expiry::ExpiryTable;
use falcon::hlc::Hlc;
use falcon::keyspace::{ApplyPlan, Keyspace, ReadPlan, WritePlan};
use std::collections::HashMap;
use tokio::sync::broadcast::error::TryRecvError;

fn plain(events: bool, ttl: u64) -> Keyspace {
    let bus = if events { Some(EventBus::new()) } else { None };
    Keyspace::new("default".to_string(), "us-east".to_string(), TierName::Warm, bus, ttl)
}

fn put(ks: &mut Keyspace, key: &[u8], value: &[u8], ttl: Option<u64>, at: u128) -> Option<ChangeEvent> {
    let (r, event) = ks.finish_put(key, value, ttl, Ok::<u64, String>(1), Hlc::zero(), at, at);
    assert_eq!(r, Ok(1));
    event
}

#[test]
fn per_write_ttl_expires_lazily_on_get() {
    let mut ks = plain(false, 0);
    put(&mut ks, b"temp", b"v", Some(1), 10_000);
    assert_eq!(ks.get(b"temp", 10_000), ReadPlan::Read);
    assert_eq!(ks.get(b"temp", 10_999), ReadPlan::Read);
    assert_eq!(ks.get(b"temp", 11_100), ReadPlan::Expire);
}

#[test]
fn put_without_ttl_never_expires() {
    let mut ks = plain(false, 0);
    put(&mut ks, b"permanent", b"v", None, 10_000);
    assert_eq!(ks.get(b"permanent", u128::MAX), ReadPlan::Read);
    assert_eq!(ks.tracked_ttl_keys(), 0, "no TTL tracked for a plain put");
}

#[test]
fn background_reaper_deletes_expired_keys() {
    let mut ks = plain(false, 0);
    put(&mut ks, b"a", b"1", Some(1), 10_000);
    put(&mut ks, b"b", b"2", Some(1), 10_000);
    assert_eq!(ks.tracked_ttl_keys(), 2);
    let mut due = ks.reap_expired(11_100);
    due.sort();
    assert_eq!(due, vec![b"a".to_vec(), b"b".to_vec()]);
    for key in due {
        assert!(ks.still_expired(&key, 11_100));
        ks.finish_delete(&key, Ok::<u64, String>(2), Hlc::zero(), 11_100).0.unwrap();
    }
    assert_eq!(ks.tracked_ttl_keys(), 0);
    assert!(ks.reap_expired(20_000).is_empty());
}

#[test]
fn ttl_expiry_emits_delete_event_for_subscribers() {
    let mut ks = plain(true, 0);
    let mut sub = ks.events().unwrap().subscribe();
    put(&mut ks, b"k", b"v", Some(1), 10_000);
    assert_eq!(sub.try_recv().unwrap().key, b"k");
    assert_eq!(ks.get(b"k", 11_100), ReadPlan::Expire);
    ks.finish_delete(b"k", Ok::<u64, String>(2), Hlc::zero(), 11_100).0.unwrap();
    let deleted = sub.try_recv().unwrap();
    assert_eq!(deleted.key, b"k");
    assert!(deleted.is_tombstone(), "TTL expiry must emit a Delete/tombstone event");
}

#[test]
fn ttl_zero_clears_existing_expiry() {
    let mut ks = plain(false, 0);
    put(&mut ks, b"k", b"v1", Some(1), 10_000);
    assert_eq!(ks.tracked_ttl_keys(), 1);
    put(&mut ks, b"k", b"v2", Some(0), 10_001);
    assert_eq!(ks.tracked_ttl_keys(), 0);
    assert_eq!(ks.get(b"k", 11_100), ReadPlan::Read);
}

#[test]
fn the_keyspaces_own_ttl_applies_where_a_write_names_none() {
    let mut ks = plain(false, 2);
    put(&mut ks, b"k", b"v", None, 0);
    assert_eq!(ks.get(b"k", 1_999), ReadPlan::Read);
    assert_eq!(ks.get(b"k", 2_000), ReadPlan::Expire);
}

#[test]
fn a_failed_write_changes_and_publishes_nothing() {
    let mut ks = plain(true, 0);
    let mut sub = ks.events().unwrap().subscribe();
    let (r, event) =
        ks.finish_put(b"k", b"v", Some(9), Err::<u64, &str>("full"), Hlc::zero(), 0, 0);
    assert_eq!(r, Err("full"));
    assert!(event.is_none());
    assert_eq!(ks.tracked_ttl_keys(), 0);
    assert!(sub.try_recv().is_err());
}

#[test]
fn a_change_carries_what_was_written() {
    let mut ks = plain(true, 0);
    let (_, event) = ks.finish_put(b"k", b"v", None, Ok::<u64, String>(7), Hlc::zero(), 1, 2);
    let event = event.unwrap();
    assert_eq!((event.keyspace.as_str(), event.origin_region.as_str()), ("default", "us-east"));
    assert_eq!((event.sequence, event.timestamp), (7, 2));
    assert!(matches!(event.value, ChangeValue::Put(ref v) if v == b"v"));
    assert!(!event.is_tombstone());
}

#[test]
fn a_keyspace_without_a_bus_publishes_nothing() {
    let mut ks = plain(false, 0);
    assert!(put(&mut ks, b"k", b"v", None, 0).is_none());
    assert!(ks.events().is_none());
    assert_eq!(ks.name(), "default");
    assert_eq!(ks.tier(), TierName::Warm);
}

#[test]
fn write_paths() {
    let mut ks = plain(false, 0);
    assert!(matches!(ks.plan_write(5), WritePlan::Engine));
    assert!(matches!(ks.begin_write(), Some(WritePlan::Engine)));
    ks.set_forwarder();
    assert!(matches!(ks.plan_write(5), WritePlan::Forward));
    assert!(matches!(ks.begin_write(), Some(WritePlan::Forward)));
    let hot = Keyspace::new("h".to_string(), "r".to_string(), TierName::Hot, None, 0);
    assert!(!hot.with_multi_leader("n".to_string()).is_multi_leader());
}

/// A region with the store that keeps the newest write of each key.
struct Region {
    ks: Keyspace,
    data: HashMap<Vec<u8>, (Hlc, Vec<u8>)>,
    out: Vec<ChangeEvent>,
}

fn region(node_id: &str) -> Region {
    Region {
        ks: plain(true, 0).with_multi_leader(node_id.to_string()),
        data: HashMap::new(),
        out: Vec::new(),
    }
}

impl Region {
    fn keep(&mut self, key: &[u8], hlc: &Hlc, value: &[u8]) -> bool {
        let newer = match self.data.get(key) {
            Some((kept, _)) => kept.is_before(hlc),
            None => true,
        };
        if newer {
            self.data.insert(key.to_vec(), (hlc.clone(), value.to_vec()));
        }
        newer
    }

    fn put(&mut self, key: &[u8], value: &[u8]) {
        let stamp = match self.ks.begin_write().unwrap() {
            WritePlan::Lww(h) => h,
            other => panic!("{other:?}"),
        };
        self.keep(key, &stamp, value);
        let (_, event) = self.ks.finish_put(key, value, None, Ok::<u64, String>(1), stamp, 0, 0);
        self.out.push(event.unwrap());
    }

    fn apply(&mut self, event: &ChangeEvent) {
        assert_eq!(self.ks.apply_replicated(event), Some(ApplyPlan::Lww));
        if let ChangeValue::Put(v) = &event.value {
            let won = self.keep(&event.key, &event.hlc, v);
            assert_eq!(self.ks.finish_apply(event, won).is_some(), won);
        }
    }

    fn get(&self, key: &[u8]) -> Option<Vec<u8>> {
        self.data.get(key).map(|e| e.1.clone())
    }
}

fn deliver(src: &mut Region, dst: &mut Region) {
    for event in std::mem::take(&mut src.out) {
        dst.apply(&event);
    }
}

#[test]
fn two_regions_both_write_and_converge() {
    let (mut r1, mut r2) = (region("node-1"), region("node-2"));
    assert!(r1.ks.is_multi_leader());
    r1.put(b"key-from-1", b"v1");
    r2.put(b"key-from-2", b"v2");
    deliver(&mut r1, &mut r2);
    deliver(&mut r2, &mut r1);
    for r in [&r1, &r2] {
        assert_eq!(r.get(b"key-from-1"), Some(b"v1".to_vec()));
        assert_eq!(r.get(b"key-from-2"), Some(b"v2".to_vec()));
    }
}

#[test]
fn concurrent_same_key_writes_converge_to_one_winner() {
    let (mut r1, mut r2) = (region("node-1"), region("node-2"));
    r1.put(b"contested", b"value-r1");
    r2.put(b"contested", b"value-r2");
    deliver(&mut r1, &mut r2);
    deliver(&mut r2, &mut r1);
    let (v1, v2) = (r1.get(b"contested"), r2.get(b"contested"));
    assert_eq!(v1, v2, "regions diverged on a contested key: {v1:?} vs {v2:?}");
    assert!(v1.is_some());
}

#[test]
fn partition_then_heal_converges() {
    let (mut r1, mut r2) = (region("node-1"), region("node-2"));
    for i in 0..5 {
        r1.put(format!("r1-{i}").as_bytes(), b"a");
        r2.put(format!("r2-{i}").as_bytes(), b"b");
    }
    r1.put(b"shared", b"r1-wrote");
    r2.put(b"shared", b"r2-wrote-later");
    deliver(&mut r1, &mut r2);
    deliver(&mut r2, &mut r1);
    for r in [&r1, &r2] {
        for i in 0..5 {
            assert_eq!(r.get(format!("r1-{i}").as_bytes()), Some(b"a".to_vec()));
            assert_eq!(r.get(format!("r2-{i}").as_bytes()), Some(b"b".to_vec()));
        }
    }
    assert_eq!(r1.get(b"shared"), r2.get(b"shared"), "contested key diverged after heal");
}

#[test]
fn a_change_that_came_before_is_no_news() {
    let (mut r1, mut r2) = (region("node-1"), region("node-2"));
    r1.put(b"k", b"old");
    let old = r1.out[0].clone();
    r1.put(b"k", b"new");
    deliver(&mut r1, &mut r2);
    r2.apply(&old);
    r2.apply(&old);
    assert_eq!(r2.get(b"k"), Some(b"new".to_vec()));
}

#[test]
fn a_single_leader_keyspace_takes_changes_as_they_come() {
    let mut from = plain(true, 0);
    let event = put(&mut from, b"k", b"v", None, 3).unwrap();
    let mut ks = plain(true, 0);
    assert_eq!(ks.apply_replicated(&event), Some(ApplyPlan::Engine));
    assert_eq!(ks.finish_apply(&event, false).unwrap().key, b"k");
}

#[test]
fn a_local_write_is_later_than_a_change_that_was_seen() {
    let mut r1 = region("node-1");
    let mut ahead = put(&mut plain(true, 0), b"k", b"v", None, 0).unwrap();
    ahead.hlc = Hlc { wall: u64::MAX / 2, logical: 3, region: "zz".to_string() };
    r1.apply(&ahead);
    r1.put(b"k", b"mine");
    assert!(ahead.hlc.is_before(&r1.out[0].hlc));
    assert_eq!(r1.get(b"k"), Some(b"mine".to_vec()));
}

#[test]
fn expiry_tables_set_clear_and_list() {
    let mut t = ExpiryTable::new();
    t.set(b"a", 10);
    t.set(b"b", 20);
    t.set(b"a", 30);
    assert_eq!(t.len(), 2);
    assert!(!t.is_expired(b"a", 29));
    assert!(t.is_expired(b"a", 30));
    assert!(!t.is_expired(b"none", u128::MAX));
    assert_eq!(t.expired(20), vec![b"b".to_vec()]);
    t.clear(b"b");
    t.clear(b"none");
    assert_eq!(t.len(), 1);
    assert!(t.expired(29).is_empty());
}

#[test]
fn a_bus_reaches_every_subscriber() {
    let mut bus = EventBus::with_capacity(4);
    let mut a = bus.subscribe();
    let mut b = bus.subscribe();
    assert_eq!(bus.receiver_count(), 2);
    let event = put(&mut plain(true, 0), b"k", b"v", None, 0).unwrap();
    assert_eq!(bus.publish(event), 2);
    assert_eq!(a.try_recv().unwrap().key, b"k");
    assert_eq!(b.try_recv().unwrap().key, b"k");
}

#[test]
fn a_bus_without_subscribers_reaches_none() {
    let mut bus = EventBus::new();
    let event = put(&mut plain(true, 0), b"k", b"v", None, 0).unwrap();
    assert_eq!(bus.publish(event), 0);
}

#[test]
fn a_late_subscriber_hears_later_changes_only() {
    let mut ks = plain(true, 0);
    put(&mut ks, b"a", b"1", None, 0);
    let mut sub = ks.events().unwrap().subscribe();
    put(&mut ks, b"b", b"2", None, 0);
    assert_eq!(sub.try_recv().unwrap().key, b"b");
    assert!(sub.try_recv().is_err());
}

#[test]
fn a_change_is_applied_at_the_time_it_is_given() {
    let event = put(&mut plain(true, 0), b"k", b"v", None, 0).unwrap();
    let mut single = plain(true, 0);
    assert_eq!(single.plan_apply(&event, None), Some(ApplyPlan::Engine));
    let mut shared = plain(true, 0).with_multi_leader("r1".to_string());
    assert_eq!(shared.plan_apply(&event, None), None);
    assert_eq!(shared.plan_apply(&event, Some(9)), Some(ApplyPlan::Lww));
    match shared.plan_write(5) {
        WritePlan::Lww(h) => assert_eq!((h.wall, h.logical), (9, 1)),
        other => panic!("{other:?}"),
    }
    let mut full = event.clone();
    full.hlc = Hlc { wall: 20, logical: u32::MAX, region: "r2".to_string() };
    assert_eq!(shared.plan_apply(&full, Some(9)), None);
}

#[test]
fn a_keyspace_hands_out_the_bus_it_was_given() {
    let bus = Some(EventBus::with_capacity(4));
    let mut ks = Keyspace::new("a".to_string(), "r".to_string(), TierName::Warm, bus, 0);
    let mut slow = ks.events().unwrap().subscribe();
    assert_eq!(ks.events().unwrap().receiver_count(), 1);
    for key in [b"1", b"2", b"3", b"4", b"5", b"6"] {
        put(&mut ks, key, b"v", None, 0);
    }
    assert!(matches!(slow.try_recv(), Err(TryRecvError::Lagged(2))));
    for key in [b"3", b"4", b"5", b"6"] {
        assert_eq!(slow.try_recv().unwrap().key, key);
    }
    drop(slow);
    assert_eq!(ks.events().unwrap().receiver_count(), 0);
}
