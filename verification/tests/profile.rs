use falcon::config::{StorageBackend, TierName, WriteMode};
use falcon::feature::Feature;
use falcon::profile::{default_profile_path, Profile, ProfileError};

#[test]
fn set_get_roundtrip() {
    let mut p = Profile::default();
    p.set("region", "us-east-1").unwrap();
    p.set("http-bind", "0.0.0.0:9000").unwrap();
    p.set("replicate", "true").unwrap();
    p.set("peers", "a:7070, b:7070").unwrap();
    assert_eq!(p.get("region").unwrap(), "us-east-1");
    assert_eq!(p.get("http-bind").unwrap(), "0.0.0.0:9000");
    assert_eq!(p.get("replication.enabled").unwrap(), "true");
    assert_eq!(p.replication.peers, vec!["a:7070", "b:7070"]);
}

#[test]
fn unknown_key_errors() {
    let mut p = Profile::default();
    assert!(matches!(p.set("nope", "x"), Err(ProfileError::UnknownKey(_))));
}

#[test]
fn each_product_keyspace_gets_its_own_storage_subdir() {
    let mut p = Profile::default();
    p.features.insert(Feature::Cache);
    p.features.insert(Feature::Kv);
    let cfg = p.to_config();
    let cache = cfg.keyspaces.iter().find(|k| k.name == "cache").unwrap();
    let kv = cfg.keyspaces.iter().find(|k| k.name == "default").unwrap();
    assert_eq!(cache.storage_subdir, "cache");
    assert_eq!(kv.storage_subdir, "kv");
    assert_ne!(cache.storage_subdir, kv.storage_subdir);
}

#[test]
fn cache_profile_builds_tiered_keyspace() {
    let mut p = Profile::default();
    p.features.insert(Feature::Cache);
    let cfg = p.to_config();
    assert_eq!(cfg.keyspaces.len(), 1);
    assert_eq!(cfg.keyspaces[0].name, "cache");
    assert_eq!(cfg.keyspaces[0].tier, TierName::Tiered);
    assert!(cfg.topics.is_empty() && cfg.queues.is_empty());
}

#[test]
fn pubsub_only_gets_placeholder_keyspace_and_topic() {
    let mut p = Profile::default();
    p.features.insert(Feature::Pubsub);
    let cfg = p.to_config();
    assert_eq!(cfg.topics.len(), 1);
    assert_eq!(cfg.keyspaces.len(), 1);
    assert_eq!(cfg.keyspaces[0].tier, TierName::Hot);
}

#[test]
fn remote_backend_roundtrips_and_switches_tier_to_sharded() {
    let mut p = Profile::default();
    p.features.insert(Feature::Cache);
    p.set("storage.backend", "remote").unwrap();
    p.set("remote-url", "https://store.example.com").unwrap();
    p.set("remote-bucket", "my-bucket").unwrap();
    p.set("remote-access-key", "KEYID").unwrap();
    p.set("remote-secret-key", "sekret").unwrap();
    assert_eq!(p.get("storage.backend").unwrap(), "remote");
    assert_eq!(p.get("remote-bucket").unwrap(), "my-bucket");

    let cfg = p.to_config();
    assert_eq!(cfg.keyspaces[0].tier, TierName::Sharded);
    match cfg.storage.backend {
        StorageBackend::Remote(r) => {
            assert_eq!(r.bucket, "my-bucket");
            assert_eq!(r.endpoint_url, "https://store.example.com");
        }
        _ => panic!("expected remote backend"),
    }
}

#[test]
fn s3_keys_are_accepted_as_legacy_aliases() {
    let mut p = Profile::default();
    p.set("storage.backend", "s3").unwrap();
    p.set("s3-bucket", "b").unwrap();
    assert_eq!(p.get("storage.backend").unwrap(), "remote");
    assert_eq!(p.get("remote-bucket").unwrap(), "b");
}

#[test]
fn storage_backend_rejects_unknown_kind() {
    let mut p = Profile::default();
    assert!(p.set("storage.backend", "gcs").is_err());
}

#[test]
fn primary_queue_write_mode_plumbs_to_kv_keyspace() {
    let mut p = Profile::default();
    p.features.insert(Feature::Kv);
    p.set("replicate", "true").unwrap();
    p.set("write-mode", "primary-queue").unwrap();
    let cfg = p.to_config();
    let kv = cfg.keyspaces.iter().find(|k| k.name == "default").unwrap();
    assert_eq!(kv.write_mode, WriteMode::PrimaryQueue);
    assert!(kv.replication);
}

#[test]
fn write_mode_rejects_unknown() {
    let mut p = Profile::default();
    assert!(p.set("write-mode", "quorum").is_err());
}

#[test]
fn tls_config_plumbs_through() {
    let mut p = Profile::default();
    p.set("tls-enabled", "true").unwrap();
    p.set("tls-cert", "/etc/falcon/cert.pem").unwrap();
    p.set("tls-key", "/etc/falcon/key.pem").unwrap();
    let cfg = p.to_config();
    assert!(cfg.tls.is_enabled());
    assert_eq!(cfg.tls.cert_file, "/etc/falcon/cert.pem");
}

#[test]
fn peers_and_replication_roundtrip_to_config() {
    let mut p = Profile::default();
    p.features.insert(Feature::Kv);
    p.set("replicate", "true").unwrap();
    p.set("role", "leader").ok();
    p.set("replication.role", "leader").unwrap();
    p.set("peers", "10.0.0.2:7070,10.0.0.3:7070").unwrap();
    let cfg = p.to_config();
    assert!(cfg.replication.enabled);
    assert_eq!(cfg.replication.peers.len(), 2);
    assert_eq!(cfg.replication.peers[0].addr, "10.0.0.2:7070");
}

#[test]
fn peers_are_named_by_position() {
    let mut p = Profile::default();
    p.set("peers", ",".repeat(3).as_str()).unwrap();
    assert!(p.replication.peers.is_empty());
    p.set("peers", "a,b,c,d,e,f,g,h,i,j,k").unwrap();
    assert_eq!(p.to_config().replication.peers[10].node_id, "peer-10");
    assert_eq!(p.get("peers").unwrap(), "a,b,c,d,e,f,g,h,i,j,k");
}

#[test]
fn refused_values_name_key_and_expectation() {
    let mut p = Profile::default();
    for (key, value, text) in [
        ("wire_enabled", "maybe", "invalid value for 'wire_enabled': expected true/false"),
        ("replication.role", "boss", "invalid value for 'replication.role': expected 'leader' or 'follower'"),
        ("storage", "S3", "invalid value for 'storage': expected 'local' or 'remote'"),
        (
            "write-mode",
            "quorum",
            "invalid value for 'write-mode': expected 'single-leader', 'multi-leader', or 'primary-queue'",
        ),
    ] {
        assert_eq!(p.set(key, value).unwrap_err().message(), text);
    }
    assert_eq!(p.set("nope", "x").unwrap_err().message(), "unknown config key 'nope'");
    assert_eq!(p.get("nope"), None);
}

#[test]
fn flags_accept_several_words() {
    let mut p = Profile::default();
    for (word, shown) in [("YES", "true"), (" off ", "false"), ("1", "true"), ("No", "false"), ("on", "true")] {
        p.set("tls_enabled", word).unwrap();
        assert_eq!(p.get("tls-enabled").unwrap(), shown);
    }
}

#[test]
fn what_is_shown_can_be_set_again() {
    let mut p = Profile::default();
    p.set("peers", " a:1 ,, b:2 ").unwrap();
    p.set("replicate", "on").unwrap();
    p.set("storage", "s3").unwrap();
    let mut q = Profile::default();
    for (key, value) in p.entries() {
        if !value.is_empty() {
            q.set(key, &value).unwrap();
        }
    }
    assert_eq!(q.entries(), p.entries());
}

#[test]
fn entries_list_every_setting_once() {
    let p = Profile::default();
    let entries = p.entries();
    assert_eq!(entries.len(), 24);
    for (key, value) in &entries {
        assert_eq!(p.get(key).as_ref(), Some(value));
    }
    assert_eq!(entries[0], ("node.id", "node-1".to_string()));
    assert_eq!(entries[23], ("storage.remote.prefix", String::new()));
}

#[test]
fn a_missing_profile_is_the_blank_one() {
    let p = Profile::load_or_default(Err(ProfileError::NotFound("x".to_string()))).unwrap();
    assert!(p.features.is_empty());
    assert_eq!(p.node.log_level, "info");
    let e = Profile::load_or_default(Err(ProfileError::Parse("bad".to_string()))).unwrap_err();
    assert_eq!(e.message(), "failed to parse profile: bad");
    assert_eq!(
        ProfileError::NotFound("/p".to_string()).message(),
        "no profile found at /p — run `falcon install <feature>` first"
    );
    assert_eq!(ProfileError::Io("x".to_string()).message(), "io error on profile file: x");
    assert_eq!(ProfileError::Serialize("x".to_string()).message(), "failed to serialize profile: x");
}

#[test]
fn profile_path_is_under_home() {
    assert_eq!(default_profile_path(Some("/root".to_string())), "/root/.falcon/profile.toml");
    assert_eq!(default_profile_path(Some("/".to_string())), "/.falcon/profile.toml");
    assert_eq!(default_profile_path(Some(String::new())), "./.falcon/profile.toml");
    assert_eq!(default_profile_path(None), "./.falcon/profile.toml");
}

#[test]
fn several_products_compose() {
    let mut p = Profile::default();
    for f in Feature::ALL {
        p.features.insert(f);
    }
    let cfg = p.to_config();
    assert_eq!(cfg.keyspaces.len(), 2);
    assert_eq!(cfg.topics[0].name, "events");
    assert_eq!(cfg.queues[0].ack_timeout_secs, 30);
    assert_eq!(cfg.streams[0].partitions, 1);
    assert_eq!(cfg.replication.leader_addr, None);
    assert!(cfg.validate(true).is_ok());
    assert!(cfg.validate(false).is_err());
}

#[test]
fn a_listing_can_be_replayed_in_any_order() {
    let mut p = Profile::default();
    for (k, v) in [
        ("node.id", "us-1"),
        ("wire-enabled", "YES"),
        ("peers", " a:1 ,, b:2 "),
        ("storage.backend", "s3"),
        ("write-mode", "multi-leader"),
        ("api-key", ""),
    ] {
        p.set(k, v).unwrap();
    }
    let listed = p.entries();
    let mut q = Profile::default();
    for (k, v) in listed.iter().rev() {
        q.set(k, v).unwrap();
    }
    assert_eq!(q.entries(), listed);
    assert_eq!(q.replication.peers, p.replication.peers);
}
