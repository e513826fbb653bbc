use falcon::config::{Config, KeyspaceConfig, PeerConfig, ReplicationRole, TierName, WriteMode};
use falcon::event::{ChangeEvent, ChangeValue};
use falcon::hlc::Hlc;
use falcon::proto::{from_proto, to_proto, ProtoValue};
use falcon::replication::{
    after_chunk, after_handshake, call_token, check_auth, current_sequence, decode_changes, encode_changes,
    forward_reply, forward_write, handshake, has_log, keeps_feeding, snapshot, start, Backoff, ChangeFeed,
    FollowStep, ReplicationPlan, RpcError, Wake,
};

fn change(sequence: u64, value: Option<&[u8]>) -> ChangeEvent {
    ChangeEvent {
        keyspace: "default".to_string(),
        key: b"k".to_vec(),
        value: match value {
            Some(v) => ChangeValue::Put(v.to_vec()),
            None => ChangeValue::Delete,
        },
        sequence,
        timestamp: 77,
        origin_region: "us".to_string(),
        hlc: Hlc { wall: 1, logical: 2, region: "n".to_string() },
    }
}

fn replicated(role: ReplicationRole, modes: &[WriteMode]) -> Config {
    let mut c = Config::default();
    c.replication.enabled = true;
    c.replication.role = role;
    c.keyspaces.clear();
    for (i, m) in modes.iter().enumerate() {
        let mut k = KeyspaceConfig::default_keyspace();
        k.name = format!("k{i}");
        k.replication = true;
        k.write_mode = *m;
        c.keyspaces.push(k);
    }
    c
}

#[test]
fn tiers_with_a_log() {
    for t in [TierName::Warm, TierName::Cold, TierName::Tiered] {
        assert!(has_log(t));
    }
    assert!(!has_log(TierName::Hot));
    assert!(!has_log(TierName::Sharded));
}

#[test]
fn nothing_is_replicated_where_it_is_off_or_unmarked() {
    assert!(matches!(start(&Config::default()), ReplicationPlan::Disabled));
    let mut c = Config::default();
    c.replication.enabled = true;
    assert!(matches!(start(&c), ReplicationPlan::NothingReplicated));
}

#[test]
fn a_leader_serves_what_is_replicated() {
    let mut c = replicated(ReplicationRole::Leader, &[WriteMode::SingleLeader, WriteMode::PrimaryQueue]);
    c.keyspaces.push(KeyspaceConfig::default_keyspace());
    match start(&c) {
        ReplicationPlan::Leader { sources } => {
            let seen: Vec<(&str, bool)> =
                sources.iter().map(|s| (s.keyspace.as_str(), s.accepts_forwarded)).collect();
            assert_eq!(seen, vec![("k0", false), ("k1", true)]);
        }
        other => panic!("{other:?}"),
    }
}

#[test]
fn shared_keyspaces_are_served_and_followed() {
    let mut c = replicated(
        ReplicationRole::Follower,
        &[WriteMode::MultiLeader, WriteMode::SingleLeader, WriteMode::MultiLeader],
    );
    for p in ["a:7070", "b:7070"] {
        c.replication.peers.push(PeerConfig { node_id: "x".to_string(), addr: p.to_string() });
    }
    match start(&c) {
        ReplicationPlan::MultiLeader { sources, follows } => {
            assert_eq!(sources.len(), 3);
            let seen: Vec<(&str, &str)> =
                follows.iter().map(|f| (f.keyspace.as_str(), f.peer_addr.as_str())).collect();
            assert_eq!(
                seen,
                vec![("k0", "a:7070"), ("k0", "b:7070"), ("k2", "a:7070"), ("k2", "b:7070")]
            );
        }
        other => panic!("{other:?}"),
    }
}

#[test]
fn a_follower_follows_and_forwards() {
    let modes = [WriteMode::PrimaryQueue, WriteMode::SingleLeader];
    let mut c = replicated(ReplicationRole::Follower, &modes);
    let seen = |c: &Config| match start(c) {
        ReplicationPlan::Follower { leader_addr, keyspaces, forward } => (leader_addr, keyspaces, forward),
        other => panic!("{other:?}"),
    };
    assert_eq!(seen(&c), (None, vec![], vec![]));
    c.replication.leader_addr = Some(String::new());
    assert_eq!(
        seen(&c),
        (Some(String::new()), vec!["k0".to_string(), "k1".to_string()], vec![])
    );
    c.replication.leader_addr = Some("http://l:7070".to_string());
    assert_eq!(seen(&c).2, vec!["k0".to_string()]);
}

#[test]
fn a_new_or_late_follower_takes_a_snapshot() {
    assert_eq!(after_handshake(false, 5, 0), FollowStep::Snapshot);
    assert_eq!(after_handshake(false, 10_001, 1), FollowStep::Stream { resume_sequence: 1 });
    assert_eq!(after_handshake(false, 10_002, 1), FollowStep::Snapshot);
    assert_eq!(after_handshake(false, 3, 9), FollowStep::Stream { resume_sequence: 9 });
    assert_eq!(after_handshake(true, 10_002, 7), FollowStep::Stream { resume_sequence: 0 });
}

#[test]
fn a_snapshot_is_read_to_its_end() {
    assert_eq!(after_chunk(Some(false), 4), FollowStep::Snapshot);
    assert_eq!(after_chunk(Some(true), 4), FollowStep::Stream { resume_sequence: 4 });
    assert_eq!(after_chunk(None, 4), FollowStep::Stream { resume_sequence: 4 });
}

#[test]
fn waiting_grows_with_failures() {
    let mut b = Backoff::new();
    let mut waits = vec![b.delay_ms()];
    for _ in 0..6 {
        assert!(b.can_fail());
        b.failed();
        waits.push(b.delay_ms());
    }
    assert_eq!(waits, vec![200, 500, 1000, 3000, 5000, 5000, 5000]);
    b.ended();
    assert_eq!(b.delay_ms(), 200);
}

#[test]
fn calls_present_the_token() {
    assert!(check_auth("", None).is_ok());
    assert!(check_auth("t0ken", Some("t0ken")).is_ok());
    for shown in [None, Some(""), Some("t0ke"), Some("Bearer t0ken")] {
        match check_auth("t0ken", shown) {
            Err(RpcError::Unauthenticated(m)) => {
                assert_eq!(m, "invalid or missing replication token");
            }
            other => panic!("{other:?}"),
        }
    }
    assert_eq!(call_token(""), None);
    assert_eq!(call_token("t"), Some("t".to_string()));
}

#[test]
fn a_handshake_reports_the_furthest_keyspace() {
    assert_eq!(current_sequence(&vec![]), 0);
    assert_eq!(current_sequence(&vec![3, 9, 4]), 9);
    let h = handshake("us-1", &vec![3, 9, 4]);
    assert_eq!((h.leader_node_id.as_str(), h.role, h.current_sequence), ("us-1", "leader", 9));
}

#[test]
fn changes_survive_the_wire() {
    let sent = vec![change(1, Some(b"v")), change(2, None)];
    let got = decode_changes(encode_changes(&sent));
    for (a, b) in sent.iter().zip(got.iter()) {
        assert_eq!((&a.keyspace, &a.key, a.sequence), (&b.keyspace, &b.key, b.sequence));
        assert_eq!((a.timestamp, &a.origin_region), (b.timestamp, &b.origin_region));
        assert_eq!((a.hlc.wall, a.hlc.logical, &a.hlc.region), (b.hlc.wall, b.hlc.logical, &b.hlc.region));
        assert_eq!(a.is_tombstone(), b.is_tombstone());
    }
    assert!(matches!(&got[0].value, ChangeValue::Put(v) if v == b"v"));
    assert_eq!(got.len(), 2);
}

#[test]
fn times_keep_their_low_bits_on_the_wire() {
    let mut e = change(1, None);
    e.timestamp = (1u128 << 64) + 5;
    let p = to_proto(&e);
    assert_eq!(p.timestamp_ms, 5);
    assert!(matches!(p.value, Some(ProtoValue::Tombstone(true))));
    let mut missing = to_proto(&change(1, Some(b"v")));
    missing.value = None;
    assert!(from_proto(missing).is_tombstone());
}

#[test]
fn a_feed_sends_each_change_once() {
    let log = [change(3, Some(b"a")), change(4, None), change(6, Some(b"b"))];
    let after = |s: u64| -> Vec<ChangeEvent> {
        log.iter().filter(|e| e.sequence > s).cloned().collect()
    };
    let mut feed = ChangeFeed::new(3);
    let first = feed.take(&after(feed.position()));
    assert_eq!(first.iter().map(|p| p.sequence).collect::<Vec<u64>>(), vec![4, 6]);
    assert_eq!(feed.position(), 6);
    assert!(feed.take(&after(feed.position())).is_empty());
    assert_eq!(feed.position(), 6);
}

#[test]
fn a_feed_goes_on_until_the_keyspace_is_gone() {
    for w in [Wake::Change, Wake::Lagged, Wake::Timeout] {
        assert!(keeps_feeding(w));
    }
    assert!(!keeps_feeding(Wake::Closed));
}

#[test]
fn a_snapshot_is_one_final_chunk() {
    let s = snapshot(&vec![change(1, Some(b"v")), change(2, None)], 2);
    assert_eq!((s.entries.len(), s.snapshot_sequence, s.is_final), (2, 2, true));
}

#[test]
fn forwarded_writes_are_checked() {
    let put = || Some(ProtoValue::PutValue(b"v".to_vec()));
    match forward_write("k", None, vec![], put(), 0) {
        Err(RpcError::NotFound(m)) => assert_eq!(m, "unknown keyspace 'k'"),
        other => panic!("{other:?}"),
    }
    match forward_write("k", Some(false), vec![], put(), 0) {
        Err(RpcError::FailedPrecondition(m)) => {
            assert_eq!(m, "keyspace 'k' is not a primary-queue primary here");
        }
        other => panic!("{other:?}"),
    }
    let w = forward_write("k", Some(true), b"a".to_vec(), put(), 9).unwrap();
    assert_eq!((w.key.clone(), w.value.clone(), w.ttl()), (b"a".to_vec(), Some(b"v".to_vec()), Some(9)));
    let d = forward_write("k", Some(true), b"a".to_vec(), Some(ProtoValue::Tombstone(true)), 0).unwrap();
    assert_eq!((d.value.clone(), d.ttl()), (None, None));
    assert_eq!(forward_reply(Ok(8)).unwrap(), 8);
    match forward_reply(Err("full".to_string())) {
        Err(RpcError::Internal(m)) => assert_eq!(m, "forwarded write failed: full"),
        other => panic!("{other:?}"),
    }
}
