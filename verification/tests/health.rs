use falcon::config::{Config, QueueConfig, ReplicationRole, StreamConfig, TierName, TopicConfig, TopicModeConfig};
use falcon::feature::{Feature, FeatureSet};
use falcon::health::{dashboard, healthz, is_ready, keyspace_health, readyz, KeyspaceHealth};
use falcon::hlc::Hlc;
use falcon::keyspace::Keyspace;
use falcon::replication::{FollowStep, ReplicationPlan};

fn none() -> Vec<KeyspaceHealth<u8>> {
    Vec::new()
}

#[test]
fn health_reports_what_is_installed() {
    let h = healthz(&Config::default(), &FeatureSet::from_features(&[Feature::Cache]), none());
    assert_eq!((h.status, h.product), ("ok", "Falcon"));
    assert_eq!(h.products, vec!["cache"]);
    assert_eq!(h.primary_product, Some("cache".to_string()));
    assert_eq!((h.node_id.as_str(), h.region.as_str()), ("node-1", "local"));
    assert!(h.components.falcon_db);
    assert!(!h.components.falcon_queue && !h.components.falcon_pubsub);
    assert!(!h.replication_enabled && h.replication_role.is_none());
    assert!(h.features.wire_protocol && !h.features.auth);
    let empty = healthz(&Config::default(), &FeatureSet::new(), none());
    assert_eq!(empty.primary_product, None);
}

#[test]
fn health_counts_what_is_configured() {
    let mut c = Config::default();
    c.auth.api_key = "k".to_string();
    c.replication.enabled = true;
    c.replication.role = ReplicationRole::Follower;
    c.keyspaces[0].subscriptions = true;
    c.topics.push(TopicConfig {
        name: "t".to_string(),
        mode: TopicModeConfig::Durable,
        capacity: 1,
    });
    c.queues.push(QueueConfig { name: "q".to_string(), ack_timeout_secs: 1 });
    c.queues.push(QueueConfig { name: "r".to_string(), ack_timeout_secs: 1 });
    c.streams.push(StreamConfig {
        name: "s".to_string(),
        partitions: 1,
        capacity: 1,
        interval_fsync_ms: 0,
    });
    let h = healthz(&c, &FeatureSet::all(), none());
    assert_eq!(h.replication_role, Some("follower"));
    assert!(h.features.auth && h.features.replication && h.features.subscriptions);
    assert_eq!((h.features.topics, h.features.queues, h.features.streams), (1, 2, 1));
    assert!(h.components.falcon_queue && h.components.falcon_pubsub);
    assert!(h.components.falcon_realtime_db);
    assert_eq!(h.topics, vec!["t"]);
    assert_eq!(h.queues, vec!["q", "r"]);
    assert_eq!(h.streams, vec!["s"]);
}

#[test]
fn health_of_a_keyspace() {
    let mut ks = Keyspace::new("a".to_string(), "r".to_string(), TierName::Tiered, None, 0);
    ks.finish_put(b"k", b"v", Some(5), Ok::<u64, String>(1), Hlc::zero(), 0, 0).0.unwrap();
    let h = keyspace_health(&ks, 12, Some(3u8));
    assert_eq!((h.name.as_str(), h.tier), ("a", "tiered"));
    assert!(!h.subscriptions_enabled);
    assert_eq!((h.last_applied_sequence, h.ttl_tracked_keys, h.tiering), (12, 1, Some(3)));
}

#[test]
fn probes_and_pages() {
    assert_eq!(readyz(true), (200, "ready"));
    assert_eq!(readyz(false), (503, "not ready"));
    assert_eq!(dashboard(&FeatureSet::from_features(&[Feature::Queue])), Some(Feature::Queue));
    assert_eq!(dashboard(&FeatureSet::new()), None);
    assert_eq!(dashboard(&FeatureSet::all()), None);
}

#[test]
fn a_follower_that_catches_up_is_not_ready() {
    let follower = ReplicationPlan::Follower {
        leader_addr: Some("http://l:7070".to_string()),
        keyspaces: vec!["a".to_string(), "b".to_string()],
        forward: vec![],
    };
    let live = Some(FollowStep::Stream { resume_sequence: 5 });
    assert!(is_ready(true, &follower, &vec![live, live]));
    assert!(!is_ready(false, &follower, &vec![live, live]));
    assert!(!is_ready(true, &follower, &vec![live, Some(FollowStep::Snapshot)]));
    assert!(!is_ready(true, &follower, &vec![None, live]));
    assert!(is_ready(true, &ReplicationPlan::Disabled, &vec![None]));
    assert!(!is_ready(false, &ReplicationPlan::Disabled, &vec![]));
}
