use falcon::cli::{
    ensure_compiled, require, require_kv_ops, ClientArgs, Command, InstallArgs, KeyArgs, PutArgs, QueueCmd,
    ScanArgs, ServeArgs, StreamCmd, TopicCmd, UninstallArgs,
};
use falcon::client;
use falcon::api::Method;
use falcon::config::{Config, QueueConfig, StreamConfig, TierName, TopicConfig, TopicModeConfig};
use falcon::feature::{Feature, FeatureSet};
use falcon::install::{
    build_lines, config_get, config_list, config_set, display_host, install, peers_add, peers_list,
    peers_remove, profile_path, status, uninstall, CliError,
};
use falcon::profile::{Profile, ProfileError};
use falcon::rest::{Dequeued, Item, Items, ValueResponse};
use falcon::serve::{
    active_products, build_config, grace_secs, profile_to_run, run_from_config, RuntimePlan,
};

fn missing() -> Result<Profile, ProfileError> {
    Err(ProfileError::NotFound("/p/profile.toml".to_string()))
}

fn broken() -> Result<Profile, ProfileError> {
    Err(ProfileError::Parse("line 2".to_string()))
}

fn args(feature: &str) -> InstallArgs {
    InstallArgs {
        feature: feature.to_string(),
        region: None,
        http_bind: None,
        node_id: None,
        data_dir: None,
        api_key: None,
        replicate: false,
        role: None,
        peers: vec![],
        leader_addr: None,
        write_mode: None,
        storage: None,
        remote_url: None,
        remote_region: None,
        remote_bucket: None,
        remote_access_key: None,
        remote_secret_key: None,
    }
}

fn some(s: &str) -> Option<String> {
    Some(s.to_string())
}

fn with(feature: Feature) -> Profile {
    let mut p = Profile::default();
    p.features.insert(feature);
    p
}

#[test]
fn installing_a_product_says_how_to_go_on() {
    let mut a = args("cache");
    a.region = some("us-east-1");
    let done = install(missing(), &a, &FeatureSet::all()).unwrap();
    assert!(done.is_new);
    assert_eq!(done.profile.node.region, "us-east-1");
    assert_eq!(
        done.report("~/.falcon/profile.toml"),
        vec![
            "Installed Falcon Cache at ~/.falcon/profile.toml",
            "  low-latency RAM cache that spills to disk, with TTL",
            "",
            "Next:",
            "  falcon serve                       # run this node",
            "  open http://127.0.0.1:8080/        # the Falcon Cache UI",
        ]
    );
}

#[test]
fn installing_again_updates() {
    let done = install(Ok(with(Feature::Kv)), &args("kv-store"), &FeatureSet::all()).unwrap();
    assert!(!done.is_new);
    assert_eq!(done.profile.features.len(), 1);
    assert!(done.report("p")[0].starts_with("Updated Falcon KV Store at p"));
}

#[test]
fn every_install_option_changes_its_setting() {
    let mut a = args("kv");
    a.http_bind = some("0.0.0.0:9090");
    a.node_id = some("eu");
    a.data_dir = some("/data");
    a.api_key = some("s3cret");
    a.replicate = true;
    a.role = some("follower");
    a.peers = vec!["a:7070".to_string(), "b:7070".to_string()];
    a.leader_addr = some("http://us:7070");
    a.write_mode = some("primary-queue");
    a.storage = some("remote");
    a.remote_url = some("https://store");
    a.remote_region = some("r");
    a.remote_bucket = some("b");
    a.remote_access_key = some("i");
    a.remote_secret_key = some("k");
    let p = install(missing(), &a, &FeatureSet::all()).unwrap().profile;
    let shown = |key: &str| p.get(key).unwrap();
    assert_eq!(shown("http-bind"), "0.0.0.0:9090");
    assert_eq!(shown("node.id"), "eu");
    assert_eq!(shown("data-dir"), "/data");
    assert_eq!(shown("api-key"), "s3cret");
    assert_eq!(shown("replicate"), "true");
    assert_eq!(shown("replication.role"), "follower");
    assert_eq!(p.replication.peers, vec!["a:7070", "b:7070"]);
    assert_eq!(shown("leader-addr"), "http://us:7070");
    assert_eq!(shown("write-mode"), "primary-queue");
    assert_eq!(shown("storage.backend"), "remote");
    assert_eq!(shown("remote-url"), "https://store");
    assert_eq!(shown("remote-region"), "r");
    assert_eq!(shown("remote-bucket"), "b");
    assert_eq!(shown("remote-access-key"), "i");
    assert_eq!(shown("remote-secret-key"), "k");
}

#[test]
fn replication_is_reported_after_an_installation() {
    let mut a = args("kv");
    a.replicate = true;
    let done = install(missing(), &a, &FeatureSet::all()).unwrap();
    assert_eq!(done.report("p")[2], "  replication: leader (no peers yet)");
    a.role = some("follower");
    a.peers = vec!["a:7070".to_string()];
    let done = install(missing(), &a, &FeatureSet::all()).unwrap();
    assert_eq!(
        done.report("p")[2],
        "  replication: follower (1 peer(s))  ⚠ set a leader: falcon config set leader-addr <url>"
    );
}

#[test]
fn refused_installations() {
    let text = |r: Result<_, CliError>| -> String {
        match r {
            Ok(_) => panic!("installed"),
            Err(e) => e.message(),
        }
    };
    assert_eq!(
        text(install(missing(), &args("Nope "), &FeatureSet::all())),
        "unknown feature 'nope' (expected one of: cache, kv, pubsub, queue, stream)"
    );
    let slim = FeatureSet::from_features(&[Feature::Cache]);
    assert_eq!(
        text(install(broken(), &args("pubsub"), &slim)),
        "this build does not include the 'pubsub' product (compiled: cache).\nInstall a build that includes it, or use the full build:\n  cargo build --release   # full build with every product"
    );
    assert_eq!(
        text(install(broken(), &args("cache"), &slim)),
        "failed to parse profile: line 2"
    );
    let mut a = args("cache");
    a.role = some("boss");
    a.write_mode = some("none");
    assert_eq!(
        text(install(missing(), &a, &slim)),
        "invalid value for 'replication.role': expected 'leader' or 'follower'"
    );
}

#[test]
fn uninstalling() {
    let gone = UninstallArgs { feature: "cache".to_string() };
    let u = uninstall(Ok(with(Feature::Cache)), &gone).unwrap();
    assert_eq!(u.report("p"), "Uninstalled Falcon Cache from p");
    assert!(u.kept.unwrap().features.is_empty());
    let u = uninstall(Ok(with(Feature::Kv)), &gone).unwrap();
    assert_eq!(u.report("p"), "Falcon Cache was not installed");
    assert!(u.kept.is_none());
    assert!(uninstall(missing(), &gone).is_err());
    assert!(uninstall(missing(), &UninstallArgs { feature: "x".to_string() }).is_err());
}

#[test]
fn status_of_a_build_and_a_profile() {
    assert_eq!(
        build_lines(&FeatureSet::from_features(&[Feature::Queue])),
        vec!["Build: Falcon Queue", "  compiled products: queue", ""]
    );
    let mut p = with(Feature::Cache);
    p.features.insert(Feature::Stream);
    p.node.api_key = "k".to_string();
    p.replication.enabled = true;
    assert_eq!(
        status(Ok(p), "/p").unwrap(),
        vec![
            "Profile: /p",
            "  installed products:",
            "    • Falcon Cache — low-latency RAM cache that spills to disk, with TTL",
            "    • Falcon Event Stream — partitioned, replayable event logs",
            "  node:   id=node-1 region=local",
            "  http:   0.0.0.0:8080",
            "  auth:   on",
            "  repl:   on (leader, 0 peer(s))",
        ]
    );
    let empty = status(Ok(Profile::default()), "/p").unwrap();
    assert_eq!(empty[1], "  (no products installed — run `falcon install <feature>`)");
    assert_eq!(empty[4], "  auth:   off");
    assert_eq!(empty[5], "  repl:   off");
    assert_eq!(
        status(missing(), "/p").unwrap(),
        vec!["Profile: none yet at /p", "  run `falcon install <feature>` to create one"]
    );
    assert!(status(broken(), "/p").is_err());
}

#[test]
fn settings_by_command() {
    let (p, said) = config_set(missing(), "region", "us-east-1").unwrap();
    assert_eq!(said, "set region = us-east-1");
    assert_eq!(config_get(Ok(p), "node.region").unwrap(), "us-east-1");
    assert_eq!(
        config_set(missing(), "nope", "x").unwrap_err().message(),
        "unknown config key 'nope'"
    );
    assert_eq!(
        config_get(Ok(Profile::default()), "nope").unwrap_err().message(),
        "unknown config key 'nope'"
    );
    assert!(config_get(missing(), "region").is_err());
    let all = config_list(missing()).unwrap();
    assert_eq!(all[0], "node.id = node-1");
    assert!(all.contains(&"http-bind = 0.0.0.0:8080".to_string()));
    assert!(config_list(broken()).is_err());
}

#[test]
fn peers_by_command() {
    let c = peers_add(missing(), "10.0.0.2:7070").unwrap();
    assert_eq!(c.line, "added peer 10.0.0.2:7070 (1 total)");
    let p = c.kept.unwrap();
    assert!(p.replication.enabled);
    let again = peers_add(Ok(p.clone()), "10.0.0.2:7070").unwrap();
    assert_eq!(again.line, "peer 10.0.0.2:7070 already present");
    assert!(again.kept.is_none());
    assert_eq!(
        peers_list(Ok(p.clone())).unwrap(),
        vec!["replication: on (role: leader, grpc: 0.0.0.0:7070)", "peers:", "  • 10.0.0.2:7070"]
    );
    let none = peers_remove(Ok(p.clone()), "other").unwrap();
    assert_eq!(none.line, "peer other was not in the list");
    let removed = peers_remove(Ok(p), "10.0.0.2:7070").unwrap();
    assert_eq!(removed.line, "removed peer 10.0.0.2:7070");
    let left = removed.kept.unwrap();
    assert!(left.replication.peers.is_empty() && left.replication.enabled);
    assert!(peers_remove(missing(), "x").is_err());
    let mut f = Profile::default();
    f.replication.leader_addr = "http://l".to_string();
    assert_eq!(
        peers_list(Ok(f)).unwrap(),
        vec![
            "replication: off (role: leader, grpc: 0.0.0.0:7070)",
            "leader: http://l",
            "peers: (none) — add one with `falcon peers add <host:7070>`",
        ]
    );
}

#[test]
fn paths_and_hosts() {
    assert_eq!(profile_path(&some("x.toml"), some("/home/a")), "x.toml");
    assert_eq!(profile_path(&None, some("/home/a")), "/home/a/.falcon/profile.toml");
    assert_eq!(display_host("0.0.0.0:8080"), "127.0.0.1:8080");
    assert_eq!(display_host("10.0.0.1:80"), "10.0.0.1:80");
}

fn to_node() -> ClientArgs {
    ClientArgs { addr: "http://127.0.0.1:8080".to_string(), api_key: None }
}

fn key_args(cache: bool) -> KeyArgs {
    KeyArgs { key: "user:42".to_string(), cache, client: to_node() }
}

#[test]
fn builds_offer_the_commands_of_their_products() {
    let slim = FeatureSet::from_features(&[Feature::Cache]);
    assert!(Command::Get(key_args(true)).check(&slim).is_ok());
    assert!(Command::Status.check(&slim).is_ok());
    assert!(Command::Health(to_node()).check(&FeatureSet::new()).is_ok());
    let queue = Command::Queue(QueueCmd::Pop { client: to_node() });
    assert_eq!(
        queue.check(&slim).unwrap_err(),
        "the 'queue' product is not part of this build.\nUse the full build, or a build that includes it:\n  cargo build --release --no-default-features --features feat-queue"
    );
    let topic = Command::Topic(TopicCmd::Publish { value: None, client: to_node() });
    assert!(topic.check(&FeatureSet::from_features(&[Feature::Pubsub])).is_ok());
    let stream = Command::Stream(StreamCmd::Next { client: to_node() });
    assert!(stream.check(&slim).is_err());
    let only = FeatureSet::from_features(&[Feature::Stream]);
    assert_eq!(
        Command::Del(key_args(false)).check(&only).unwrap_err(),
        "key-value verbs need the 'kv' or 'cache' product, not part of this build.\nUse the full build, or: cargo build --release --no-default-features --features feat-cache"
    );
    assert!(require(Feature::Stream, &only).is_ok());
    assert!(require_kv_ops(&FeatureSet::from_features(&[Feature::Kv])).is_ok());
    assert!(ensure_compiled(Feature::Kv, &only).is_err());
}

#[test]
fn client_requests() {
    let r = client::get(&key_args(false));
    assert_eq!((r.method(), r.url("http://n")), (Method::Get, "http://n/kv".to_string()));
    assert_eq!(r.query, Some(("key", "user:42".to_string())));
    assert_eq!(client::get(&key_args(true)).url("http://n"), "http://n/cache");
    let d = client::del(&key_args(true));
    assert_eq!((d.method(), d.url("")), (Method::Delete, "/cache".to_string()));
    let put = PutArgs {
        key: "k".to_string(),
        value: None,
        ttl: Some(1800),
        cache: true,
        client: to_node(),
    };
    let w = client::put(&put, "v".to_string());
    assert_eq!((w.method(), w.url("")), (Method::Post, "/cache".to_string()));
    match w.body {
        client::Body::Write(b) => assert_eq!((b.key.as_str(), b.value.as_str(), b.ttl), ("k", "v", Some(1800))),
        other => panic!("{other:?}"),
    }
    let s = client::scan(&ScanArgs { prefix: "user:".to_string(), client: to_node() });
    assert_eq!((s.url(""), s.query), ("/kv/scan".to_string(), Some(("prefix", "user:".to_string()))));
    let seen = |r: client::Request| (r.method(), r.url(""));
    assert_eq!(seen(client::publish(String::new())), (Method::Post, "/pubsub".to_string()));
    assert_eq!(seen(client::push(String::new())), (Method::Post, "/queue".to_string()));
    assert_eq!(seen(client::pop()), (Method::Get, "/queue".to_string()));
    let ack = client::ack(&Dequeued { id: 7, value: String::new() });
    assert!(matches!(ack.body, client::Body::Ack(ref b) if b.id == 7));
    assert_eq!(seen(ack), (Method::Post, "/queue/ack".to_string()));
    let append = client::append("k".to_string(), "v".to_string());
    assert!(matches!(&append.body, client::Body::Keyed(b) if b.key == "k" && b.value == "v"));
    assert_eq!(seen(append), (Method::Post, "/stream".to_string()));
    assert_eq!(seen(client::next()), (Method::Get, "/stream".to_string()));
    assert_eq!(seen(client::health()), (Method::Get, "/health".to_string()));
    assert_eq!(seen(client::metrics()), (Method::Get, "/metrics".to_string()));
}

#[test]
fn client_answers() {
    let value = ValueResponse { value: "v".to_string() };
    assert_eq!(client::show_value(Some(value)), Ok("v".to_string()));
    assert_eq!(client::show_value(None), Err("key not found".to_string()));
    assert_eq!(client::show_job(&Some(Dequeued { id: 1, value: "job".to_string() })), "job");
    assert_eq!(client::show_job(&None), "(empty)");
    let items = Items {
        items: vec![
            Item { key: "a".to_string(), value: "1".to_string() },
            Item { key: "b".to_string(), value: "2".to_string() },
        ],
    };
    assert_eq!(client::show_pairs(&items), vec!["a\t1", "b\t2"]);
    assert_eq!(client::show_records(&items), vec!["1", "2"]);
}

fn serve_args() -> ServeArgs {
    ServeArgs {
        config: None,
        http_bind: None,
        wire_bind: None,
        wire_disabled: false,
        node_id: None,
        region: None,
        data_dir: None,
        log_level: "info".to_string(),
    }
}

#[test]
fn a_profile_has_to_be_fit_to_run() {
    let text = |r: Result<Profile, CliError>| match r {
        Ok(_) => panic!("runs"),
        Err(e) => e.message(),
    };
    assert_eq!(
        text(profile_to_run(missing(), &FeatureSet::all())),
        "no profile at /p/profile.toml — install a product first, e.g.:\n  falcon install cache"
    );
    assert_eq!(
        text(profile_to_run(Ok(Profile::default()), &FeatureSet::all())),
        "profile has no products installed — run `falcon install <feature>`"
    );
    let mut p = with(Feature::Cache);
    p.features.insert(Feature::Queue);
    p.features.insert(Feature::Stream);
    assert_eq!(
        text(profile_to_run(Ok(p), &FeatureSet::from_features(&[Feature::Cache, Feature::Kv]))),
        "profile activates 'queue', which this build does not include (compiled: cache, kv).\nRun a build that includes it, or the full build."
    );
    assert_eq!(text(profile_to_run(broken(), &FeatureSet::all())), "failed to parse profile: line 2");
    assert!(profile_to_run(Ok(with(Feature::Kv)), &FeatureSet::all()).is_ok());
}

#[test]
fn flags_of_one_run_win_over_the_profile() {
    let mut p = with(Feature::Kv);
    p.node.wire_enabled = true;
    let same = build_config(&p, &serve_args(), true).unwrap();
    assert_eq!((same.http.bind.as_str(), same.wire.enabled), ("0.0.0.0:8080", true));
    let mut a = serve_args();
    a.http_bind = some("h:1");
    a.wire_bind = some("w:2");
    a.wire_disabled = true;
    a.node_id = some("n");
    a.region = some("r");
    a.data_dir = some("d");
    let c = build_config(&p, &a, true).unwrap();
    assert_eq!((c.http.bind.as_str(), c.wire.bind.as_str(), c.wire.enabled), ("h:1", "w:2", false));
    assert_eq!((c.node.id.as_str(), c.node.region.as_str()), ("n", "r"));
    assert_eq!(c.storage.data_dir, "d");
    p.replication.enabled = true;
    p.replication.role = "follower".to_string();
    assert!(build_config(&p, &a, true).is_err());
}

#[test]
fn a_configuration_of_its_own_can_be_run() {
    let mut c = Config::default();
    assert_eq!(active_products(&c).names(), vec!["kv", "cache"]);
    c.topics.push(TopicConfig {
        name: "t".to_string(),
        mode: TopicModeConfig::Ephemeral,
        capacity: 1,
    });
    c.queues.push(QueueConfig { name: "q".to_string(), ack_timeout_secs: 1 });
    c.streams.push(StreamConfig {
        name: "s".to_string(),
        partitions: 1,
        capacity: 1,
        interval_fsync_ms: 0,
    });
    let mut a = serve_args();
    a.http_bind = some("h:1");
    a.node_id = some("ignored");
    let (run, active) = run_from_config(c.clone(), &a, false).unwrap();
    assert_eq!((run.http.bind.as_str(), run.node.id.as_str()), ("h:1", "node-1"));
    assert_eq!(active.names(), vec!["kv", "cache", "pubsub", "queue", "stream"]);
    c.keyspaces[0].tier = TierName::Cold;
    assert!(run_from_config(c, &a, false).is_err());
}

#[test]
fn runtimes_are_sized_to_the_machine() {
    let plan = RuntimePlan::for_machine(None);
    assert_eq!((plan.workers, plan.max_blocking), (1, 8));
    let plan = RuntimePlan::for_machine(Some(2));
    assert_eq!((plan.workers, plan.max_blocking), (2, 8));
    let plan = RuntimePlan::for_machine(Some(16));
    assert_eq!((plan.workers, plan.max_blocking), (16, 64));
    assert_eq!(grace_secs(0), 1);
    assert_eq!(grace_secs(25), 25);
}
