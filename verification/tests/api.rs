use falcon::api::{authorize, constant_time_eq, router_for, ApiError, Handler, Method};
use falcon::config::Config;
use falcon::error::MessagingError;
use falcon::feature::{Feature, FeatureSet};
use falcon::node::NodeError;
use falcon::profile::Profile;

fn mounted(features: &[Feature], method: Method, path: &str) -> bool {
    let plan = router_for(&Config::default(), &FeatureSet::from_features(features));
    plan.handlers.iter().any(|h| h.method() == method && h.path() == path)
}

#[test]
fn auth_off_by_default_allows_everything() {
    let plan = router_for(&Config::default(), &FeatureSet::all());
    assert!(!plan.auth);
}

#[test]
fn auth_on_rejects_missing_and_wrong_token() {
    let mut config = Config::default();
    config.auth.api_key = "s3cret".to_string();
    assert!(router_for(&config, &FeatureSet::all()).auth);
    assert!(!authorize("/kv", true, None, None, "s3cret"));
    assert!(!authorize("/kv", true, Some("Bearer wrong"), None, "s3cret"));
    assert!(!authorize("/kv", true, Some("s3cret"), None, "s3cret"));
    assert!(!authorize("/kv", true, Some("bearer s3cret"), None, "s3cret"));
}

#[test]
fn auth_on_allows_correct_token_and_healthz_is_exempt() {
    for path in ["/", "/healthz", "/readyz", "/metrics", "/health"] {
        assert!(authorize(path, true, None, None, "s3cret"), "{path}");
    }
    assert!(authorize("/kv", false, Some("Bearer s3cret"), None, "s3cret"));
}

#[test]
fn api_key_via_query_param_works() {
    assert!(authorize("/kv", false, None, Some("api_key=s3cret"), "s3cret"));
    assert!(authorize("/kv", false, None, Some("key=k&api_key=s3cret"), "s3cret"));
    assert!(!authorize("/kv", true, None, Some("api_key=wrong"), "s3cret"));
    assert!(!authorize("/kv", true, None, Some("xapi_key=s3cret"), "s3cret"));
    assert!(!authorize("/kv", true, None, None, "s3cret"));
}

#[test]
fn websocket_subscribe_requires_api_key() {
    assert!(!authorize("/subscribe", true, None, None, "s3cret"));
    assert!(authorize("/subscribe", true, None, Some("api_key=s3cret"), "s3cret"));
}

#[test]
fn settings_are_read_without_a_key_and_written_with_one() {
    assert!(authorize("/config", true, None, None, "s3cret"));
    assert!(!authorize("/config", false, None, None, "s3cret"));
    assert!(authorize("/config", false, Some("Bearer s3cret"), None, "s3cret"));
}

#[test]
fn the_header_goes_before_the_query() {
    assert!(!authorize("/kv", true, Some("Bearer wrong"), Some("api_key=s3cret"), "s3cret"));
    assert!(authorize("/kv", true, Some("Basic x"), Some("api_key=s3cret"), "s3cret"));
    assert!(!authorize("/kv", true, None, Some("api_key=a&api_key=s3cret"), "s3cret"));
}

#[test]
fn cache_node_serves_kv_but_gates_messaging() {
    let cache = [Feature::Cache];
    assert!(mounted(&cache, Method::Post, "/cache"));
    assert!(mounted(&cache, Method::Get, "/subscribe"));
    for path in ["/pubsub", "/queue", "/stream"] {
        assert!(!mounted(&cache, Method::Post, path), "cache node must not expose {path}");
    }
    assert!(!mounted(&cache, Method::Get, "/kv/scan"));
}

#[test]
fn pubsub_node_gates_kv_and_streams() {
    let pubsub = [Feature::Pubsub];
    assert!(mounted(&pubsub, Method::Post, "/pubsub"));
    assert!(!mounted(&pubsub, Method::Get, "/kv"), "pubsub node must not expose KV");
    assert!(!mounted(&pubsub, Method::Post, "/stream"), "pubsub node must not expose streams");
    assert!(mounted(&pubsub, Method::Get, "/subscribe"));
    assert!(!mounted(&[Feature::Queue, Feature::Stream], Method::Get, "/subscribe"));
}

#[test]
fn stream_route_absent_without_the_product() {
    assert!(!mounted(&[Feature::Kv], Method::Get, "/stream"));
    assert!(mounted(&[Feature::Stream], Method::Get, "/stream"));
}

#[test]
fn crud_still_works_when_subscriptions_disabled() {
    assert!(mounted(&[Feature::Kv], Method::Post, "/kv"));
    assert!(mounted(&[Feature::Kv], Method::Get, "/kv"));
    assert!(mounted(&[Feature::Kv], Method::Delete, "/kv"));
}

#[test]
fn config_endpoint_reports_products() {
    let mut p = Profile::default();
    p.features.insert(Feature::Queue);
    let cfg = falcon::rest::get_config(&p.features, &p);
    assert_eq!(cfg.products, vec!["queue"]);
    assert!(cfg.entries.iter().any(|e| e.key == "node.region" && e.value == "local"));
    assert!(mounted(&[Feature::Queue], Method::Get, "/config"));
    assert!(mounted(&[Feature::Queue], Method::Post, "/config"));
}

#[test]
fn a_node_with_everything_has_every_route_once() {
    let plan = router_for(&Config::default(), &FeatureSet::all());
    assert_eq!(plan.handlers.len(), 21);
    let mut routes: Vec<String> =
        plan.handlers.iter().map(|h| format!("{:?} {}", h.method(), h.path())).collect();
    routes.sort();
    routes.dedup();
    assert_eq!(routes.len(), 21);
    assert!(plan.handlers.contains(&Handler::QueueAck));
}

#[test]
fn the_body_limit_can_be_switched_off() {
    let mut c = Config::default();
    assert_eq!(router_for(&c, &FeatureSet::all()).body_limit, Some(64 * 1024 * 1024));
    c.storage.max_value_bytes = 0;
    assert_eq!(router_for(&c, &FeatureSet::all()).body_limit, None);
}

#[test]
fn byte_strings_are_compared_whole() {
    assert!(constant_time_eq(b"", b""));
    assert!(constant_time_eq(b"abc", b"abc"));
    assert!(!constant_time_eq(b"abc", b"abd"));
    assert!(!constant_time_eq(b"abc", b"ab"));
    assert!(!constant_time_eq(b"\x01\x01", b"\x02\x02"));
}

#[test]
fn errors_have_statuses_and_messages() {
    let seen = |e: ApiError| (e.status(), e.message());
    assert_eq!(seen(ApiError::NotFound), (404, "key not found".to_string()));
    assert_eq!(
        seen(ApiError::UnknownKeyspace("x".to_string())),
        (404, "unknown keyspace 'x'".to_string())
    );
    assert_eq!(seen(ApiError::BadRequest("b".to_string())), (400, "b".to_string()));
    assert_eq!(seen(ApiError::Internal("i".to_string())), (500, "i".to_string()));
}

#[test]
fn node_errors_become_answers() {
    let seen = |e: NodeError| {
        let a = ApiError::from_node(e);
        (a.status(), a.message())
    };
    assert_eq!(
        seen(NodeError::UnknownKeyspace("k".to_string())),
        (404, "unknown keyspace 'k'".to_string())
    );
    assert_eq!(seen(NodeError::Storage("full".to_string())), (500, "full".to_string()));
    let m = MessagingError::UnknownQueue("q".to_string());
    let text = m.message();
    assert_eq!(seen(NodeError::Messaging(m)), (500, text));
}
