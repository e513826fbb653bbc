use falcon::config::{
    Config, KeyspaceConfig, QueueConfig, RemoteBackendConfig, StorageBackend, StreamConfig, TierName,
    TopicConfig, TopicModeConfig, WriteMode,
};
use falcon::error::MessagingError;
use falcon::node::{
    build, build_keyspace, capacity_ok, compaction_interval, keyspace_moves, total_durable_bytes,
    worth_compacting,
    EnginePlan, Node, NodeError, ShardStore, SyncPolicy,
};
use falcon::topic::TopicMode;

fn keyspace(name: &str, tier: TierName) -> KeyspaceConfig {
    let mut k = KeyspaceConfig::default_keyspace();
    k.name = name.to_string();
    k.tier = tier;
    k
}

fn engine(k: &KeyspaceConfig, c: &Config) -> EnginePlan {
    build_keyspace(k, c).engine
}

#[test]
fn engines_and_their_files() {
    let mut c = Config::default();
    c.storage.data_dir = "data".to_string();
    assert!(matches!(engine(&keyspace("a", TierName::Hot), &c), EnginePlan::Hot));
    match engine(&keyspace("a", TierName::Warm), &c) {
        EnginePlan::Warm { path, policy } => {
            assert_eq!((path.as_str(), policy), ("data/a.wal", SyncPolicy::Always));
        }
        other => panic!("{other:?}"),
    }
    match engine(&keyspace("a", TierName::Cold), &c) {
        EnginePlan::Cold { path } => assert_eq!(path, "data/a_cold"),
        other => panic!("{other:?}"),
    }
    let mut tiered = keyspace("a", TierName::Tiered);
    tiered.hot_capacity_mb = 3;
    tiered.storage_subdir = "cache".to_string();
    match engine(&tiered, &c) {
        EnginePlan::Tiered { path, capacity_bytes, evict_sample } => {
            assert_eq!(path, "data/cache/a_tiered");
            assert_eq!((capacity_bytes, evict_sample), (3 * 1024 * 1024, 8));
        }
        other => panic!("{other:?}"),
    }
}

#[test]
fn sync_policies() {
    let c = Config::default();
    let mut k = keyspace("a", TierName::Warm);
    k.interval_fsync_ms = 20;
    assert!(matches!(
        engine(&k, &c),
        EnginePlan::Warm { policy: SyncPolicy::IntervalMs(20), .. }
    ));
    let mut s = keyspace("a", TierName::Sharded);
    s.shard_flush_ms = 5;
    s.shard_buckets = 9;
    match engine(&s, &c) {
        EnginePlan::Sharded { store: ShardStore::Local(path), buckets, policy } => {
            assert_eq!((path.as_str(), buckets), ("./data/a_shards", 9));
            assert_eq!(policy, SyncPolicy::IntervalMs(5));
        }
        other => panic!("{other:?}"),
    }
}

#[test]
fn a_remote_backend_holds_the_shards() {
    let mut c = Config::default();
    c.storage.backend = StorageBackend::Remote(RemoteBackendConfig {
        endpoint_url: "https://store".to_string(),
        region: "r".to_string(),
        bucket: "b".to_string(),
        access_key_id: "i".to_string(),
        secret_access_key: "s".to_string(),
        prefix: "p".to_string(),
    });
    match engine(&keyspace("a", TierName::Sharded), &c) {
        EnginePlan::Sharded { store: ShardStore::Remote(r), .. } => {
            assert_eq!((r.endpoint_url.as_str(), r.prefix.as_str()), ("https://store", "p"));
        }
        other => panic!("{other:?}"),
    }
}

#[test]
fn keyspaces_publish_where_somebody_listens() {
    let mut c = Config::default();
    let k = keyspace("a", TierName::Warm);
    assert!(!build_keyspace(&k, &c).needs_bus);
    let mut replicated = k.clone();
    replicated.replication = true;
    assert!(build_keyspace(&replicated, &c).needs_bus);
    let mut live = k.clone();
    live.subscriptions = true;
    assert!(build_keyspace(&live, &c).needs_bus);
    c.subscriptions.enabled = true;
    assert!(build_keyspace(&k, &c).needs_bus);
}

#[test]
fn shared_writes_are_stamped_with_the_node() {
    let mut c = Config::default();
    c.node.id = "us-1".to_string();
    let mut k = keyspace("a", TierName::Warm);
    assert!(build_keyspace(&k, &c).multi_leader.is_none());
    k.write_mode = WriteMode::MultiLeader;
    assert_eq!(build_keyspace(&k, &c).multi_leader, Some("us-1".to_string()));
    k.write_mode = WriteMode::PrimaryQueue;
    assert!(build_keyspace(&k, &c).multi_leader.is_none());
}

#[test]
fn a_node_is_planned_from_its_configuration() {
    let mut c = Config::default();
    c.keyspaces.push(keyspace("cache", TierName::Hot));
    c.topics.push(TopicConfig {
        name: "t".to_string(),
        mode: TopicModeConfig::Durable,
        capacity: 5,
    });
    c.queues.push(QueueConfig { name: "q".to_string(), ack_timeout_secs: 30 });
    c.streams.push(StreamConfig {
        name: "s".to_string(),
        partitions: 4,
        capacity: 6,
        interval_fsync_ms: 7,
    });
    let plan = build(&c).unwrap();
    let names: Vec<&str> = plan.keyspaces.iter().map(|k| k.name.as_str()).collect();
    assert_eq!(names, vec!["default", "cache"]);
    assert_eq!(plan.messaging.topics[0].mode, TopicMode::Durable);
    assert_eq!(plan.messaging.queues[0].ack_timeout, 30_000_000_000);
    assert_eq!(plan.messaging.streams[0].interval_fsync_ms, 7);
    let mut huge = keyspace("huge", TierName::Tiered);
    huge.hot_capacity_mb = usize::MAX;
    assert!(!capacity_ok(&huge));
    c.keyspaces.push(huge);
    assert!(build(&c).is_none());
}

#[test]
fn a_node_finds_its_keyspaces() {
    let mut c = Config::default();
    c.keyspaces[0].replication = true;
    let n = Node::new(c, vec![("default".to_string(), 1), ("cache".to_string(), 2)], "messages");
    assert_eq!(n.keyspace("cache"), Some(&2));
    assert_eq!(n.require_keyspace("default").unwrap(), &1);
    assert_eq!(n.require_keyspace("none").unwrap_err().message(), "unknown keyspace 'none'");
    let mut names = n.keyspace_names();
    names.sort();
    assert_eq!(names, vec!["cache", "default"]);
    let min = n.config().ops.compaction_min_bytes;
    let sizes = |cache: u64, default: u64| {
        vec![("cache".to_string(), cache), ("default".to_string(), default)]
    };
    assert_eq!(n.compactable(&sizes(min, min)), vec!["cache"]);
    assert!(n.compactable(&sizes(min - 1, min)).is_empty());
    assert!(n.compactable(&sizes(min - 1, min - 1)).is_empty());
    assert!(n.compactable(&vec![]).is_empty());
    assert_eq!(*n.messaging(), "messages");
    assert_eq!(n.config().node.id, "node-1");
}

#[test]
fn rules_of_compaction() {
    let mut c = Config::default();
    c.ops.compaction_enabled = true;
    c.ops.compaction_interval_secs = 0;
    c.ops.compaction_min_bytes = 100;
    assert_eq!(compaction_interval(&c), Some(1));
    c.ops.compaction_interval_secs = 60;
    assert_eq!(compaction_interval(&c), Some(60));
    c.ops.compaction_enabled = false;
    assert_eq!(compaction_interval(&c), None);
    assert_eq!(total_durable_bytes(&vec![60, 39]), 99);
    assert!(!worth_compacting(&c, 99));
    assert!(worth_compacting(&c, 100));
}

#[test]
fn node_errors() {
    assert_eq!(NodeError::Storage("full".to_string()).message(), "storage error: full");
    let e = NodeError::Messaging(MessagingError::UnknownTopic("t".to_string()));
    assert!(e.message().starts_with("messaging error: "));
    for e in [
        MessagingError::Io("x".to_string()),
        MessagingError::UnknownTopic("x".to_string()),
        MessagingError::UnknownQueue("x".to_string()),
        MessagingError::UnknownStream("x".to_string()),
    ] {
        assert!(e.message().contains('x'));
    }
    let range = MessagingError::PartitionOutOfRange(9, 4).message();
    assert!(range.contains('9') && range.contains('4'));
}

#[test]
fn keyspaces_of_an_older_node_move_to_their_product() {
    let mut c = Config::default();
    c.storage.data_dir = "data".to_string();
    c.keyspaces[0].storage_subdir = "kv".to_string();
    for (name, tier) in [
        ("cache", TierName::Tiered),
        ("old", TierName::Cold),
        ("many", TierName::Sharded),
        ("memory", TierName::Hot),
    ] {
        let mut k = keyspace(name, tier);
        k.storage_subdir = "cache".to_string();
        c.keyspaces.push(k);
    }
    c.keyspaces.push(keyspace("flat", TierName::Warm));
    let moves: Vec<(String, String)> =
        keyspace_moves(&c).into_iter().map(|m| (m.from, m.to)).collect();
    let want = [
        ("data/default.wal", "data/kv/default.wal"),
        ("data/cache_tiered", "data/cache/cache_tiered"),
        ("data/old_cold", "data/cache/old_cold"),
        ("data/many_shards", "data/cache/many_shards"),
    ];
    assert_eq!(moves.len(), want.len());
    for (got, want) in moves.iter().zip(want) {
        assert_eq!((got.0.as_str(), got.1.as_str()), want);
    }
}
