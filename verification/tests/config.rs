use falcon::config::{
    Config, ConfigError, KeyspaceConfig, RemoteBackendConfig, ReplicationRole, StorageBackend, TierName,
    WriteMode,
};

fn with_keyspace(change: fn(&mut KeyspaceConfig)) -> Config {
    let mut c = Config::default();
    change(&mut c.keyspaces[0]);
    c
}

fn message(c: &Config, cold: bool) -> String {
    c.validate(cold).unwrap_err().message()
}

#[test]
fn the_default_configuration_is_valid() {
    assert!(Config::default().validate(false).is_ok());
    assert_eq!(Config::default().keyspaces[0].name, "default");
}

#[test]
fn a_hot_keyspace_cannot_be_replicated() {
    let c = with_keyspace(|k| {
        k.tier = TierName::Hot;
        k.replication = true;
    });
    assert_eq!(message(&c, true), "keyspace 'default': hot tier does not support replication");
}

#[test]
fn cold_tiers_need_their_engine() {
    for tier in [TierName::Cold, TierName::Tiered] {
        let mut c = Config::default();
        c.keyspaces[0].tier = tier;
        assert!(matches!(c.validate(false), Err(ConfigError::TierNotCompiled { .. })));
        assert!(c.validate(true).is_ok());
    }
    let c = with_keyspace(|k| k.tier = TierName::Cold);
    assert_eq!(
        message(&c, false),
        "keyspace 'default': tier 'cold' needs the 'cold' build feature (sled) — rebuild with it, or use a different tier"
    );
}

#[test]
fn a_sharded_keyspace_cannot_lead_replication() {
    let mut c = with_keyspace(|k| {
        k.tier = TierName::Sharded;
        k.replication = true;
    });
    assert_eq!(
        message(&c, true),
        "keyspace 'default': sharded tier cannot be a replication leader (no ordered log)"
    );
    c.replication.role = ReplicationRole::Follower;
    assert!(c.validate(true).is_ok());
}

#[test]
fn shared_writes_need_the_warm_tier_and_replication() {
    for mode in [WriteMode::MultiLeader, WriteMode::PrimaryQueue] {
        let mut c = Config::default();
        c.keyspaces[0].write_mode = mode;
        c.keyspaces[0].tier = TierName::Cold;
        c.keyspaces[0].replication = true;
        assert!(matches!(c.validate(true), Err(ConfigError::MultiLeaderTier(_))));
        c.keyspaces[0].tier = TierName::Warm;
        c.keyspaces[0].replication = false;
        assert!(matches!(c.validate(true), Err(ConfigError::MultiLeaderNeedsReplication(_))));
        c.keyspaces[0].replication = true;
        assert!(c.validate(true).is_ok());
    }
}

#[test]
fn a_follower_needs_a_leader() {
    let mut c = Config::default();
    c.replication.enabled = true;
    c.replication.role = ReplicationRole::Follower;
    let text = "replication is enabled with role=follower but no leader_addr is set";
    assert_eq!(message(&c, true), text);
    c.replication.leader_addr = Some(String::new());
    assert_eq!(message(&c, true), text);
    c.replication.leader_addr = Some("http://a:7070".to_string());
    assert!(c.validate(true).is_ok());
    c.replication.leader_addr = None;
    c.replication.enabled = false;
    assert!(c.validate(true).is_ok());
}

#[test]
fn a_remote_store_needs_its_fields() {
    let mut remote = RemoteBackendConfig {
        endpoint_url: String::new(),
        region: String::new(),
        bucket: String::new(),
        access_key_id: String::new(),
        secret_access_key: String::new(),
        prefix: String::new(),
    };
    let mut missing = Vec::new();
    for step in 0..4 {
        let mut c = Config::default();
        c.storage.backend = StorageBackend::Remote(remote.clone());
        match c.validate(true) {
            Err(ConfigError::RemoteStorageMissingField(f)) => missing.push(f),
            other => panic!("{other:?}"),
        }
        match step {
            0 => remote.endpoint_url = "u".to_string(),
            1 => remote.bucket = "b".to_string(),
            2 => remote.access_key_id = "a".to_string(),
            _ => remote.secret_access_key = "s".to_string(),
        }
    }
    assert_eq!(missing, vec!["endpoint_url", "bucket", "access_key_id", "secret_access_key"]);
    let mut c = Config::default();
    c.storage.backend = StorageBackend::Remote(remote);
    assert!(c.validate(true).is_ok());
}

#[test]
fn the_first_keyspace_at_fault_is_named() {
    let mut c = Config::default();
    let mut second = KeyspaceConfig::default_keyspace();
    second.name = "second".to_string();
    second.tier = TierName::Hot;
    second.replication = true;
    c.keyspaces.push(second);
    assert!(message(&c, true).contains("'second'"));
    c.keyspaces[0].tier = TierName::Hot;
    c.keyspaces[0].replication = true;
    assert!(message(&c, true).contains("'default'"));
}

#[test]
fn a_configuration_from_text() {
    let ok = Config::from_toml_str("", Ok(Config::default()), true);
    assert_eq!(ok.unwrap().http.bind, "0.0.0.0:8080");
    let bad = Config::from_toml_str("x", Err("line 1".to_string()), true).unwrap_err();
    assert_eq!(bad.message(), "failed to parse config: line 1");
    let broken = with_keyspace(|k| {
        k.tier = TierName::Hot;
        k.replication = true;
    });
    assert!(matches!(
        Config::from_toml_str("", Ok(broken), true),
        Err(ConfigError::HotTierReplicationConflict(_))
    ));
}

#[test]
fn the_removed_tier_has_its_own_error() {
    for text in ["tier = \"file-per-key\"", "tier = \"fileperkey\""] {
        let e = Config::from_toml_str(text, Err("unknown variant".to_string()), true).unwrap_err();
        assert_eq!(
            e.message(),
            "the 'file-per-key' tier was removed — use tier = \"sharded\" instead"
        );
    }
    assert_eq!(ConfigError::Io("gone".to_string()).message(), "io error reading config: gone");
}

#[test]
fn tier_names() {
    assert_eq!(TierName::Hot.as_str(), "hot");
    assert_eq!(TierName::Warm.as_str(), "warm");
    assert_eq!(TierName::Cold.as_str(), "cold");
    assert_eq!(TierName::Tiered.as_str(), "tiered");
    assert_eq!(TierName::Sharded.as_str(), "sharded");
}

#[test]
fn switches_of_tls_and_auth() {
    let mut c = Config::default();
    assert!(!c.tls.is_enabled());
    assert!(!c.auth.is_enabled());
    c.tls.enabled = true;
    c.tls.cert_file = "c".to_string();
    c.tls.key_file = "k".to_string();
    c.auth.api_key = "s3cret".to_string();
    assert!(c.tls.is_enabled());
    assert!(c.auth.is_enabled());
    assert_eq!(c.auth.key(), "s3cret");
}

#[test]
fn a_remote_store_has_no_defaults() {
    let r = RemoteBackendConfig::default();
    for s in [r.endpoint_url, r.region, r.bucket, r.access_key_id, r.secret_access_key, r.prefix] {
        assert!(s.is_empty());
    }
}
