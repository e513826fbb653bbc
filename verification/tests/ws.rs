use falcon::event::{ChangeEvent, ChangeValue};
use falcon::hlc::Hlc;
use falcon::topic::Delivery;
use falcon::ws::{
    default_keyspace, hear_topic, listen, matches_filter, opening, update_of, BusEvent, ClientMsg,
    Filter, KeyspaceStatus, ListenStep, Opening, ServerMsg, Session, SocketAction, TopicEvent,
};

fn subscribe(id: &str, key: Option<&str>, prefix: Option<&str>) -> Result<ClientMsg, String> {
    Ok(ClientMsg::Subscribe {
        id: id.to_string(),
        keyspace: "default".to_string(),
        key: key.map(|k| k.to_string()),
        prefix: prefix.map(|p| p.to_string()),
    })
}

fn only_error(actions: Vec<SocketAction>) -> (String, String) {
    assert_eq!(actions.len(), 1);
    match actions.into_iter().next().unwrap() {
        SocketAction::Tell(ServerMsg::Error { id, message }) => (id, message),
        other => panic!("{other:?}"),
    }
}

fn change(key: &[u8], value: Option<&[u8]>) -> ChangeEvent {
    ChangeEvent {
        keyspace: "default".to_string(),
        key: key.to_vec(),
        value: match value {
            Some(v) => ChangeValue::Put(v.to_vec()),
            None => ChangeValue::Delete,
        },
        sequence: 5,
        timestamp: 6,
        origin_region: "local".to_string(),
        hlc: Hlc::zero(),
    }
}

#[test]
fn subscribe_receives_put_update() {
    let mut s = Session::new();
    let actions = s.handle(subscribe("sub1", Some("foo"), None), KeyspaceStatus::Live);
    assert_eq!(actions.len(), 2);
    let filter = match actions.into_iter().next().unwrap() {
        SocketAction::Listen { id, keyspace, filter } => {
            assert_eq!((id.as_str(), keyspace.as_str()), ("sub1", "default"));
            filter
        }
        other => panic!("{other:?}"),
    };
    match listen("sub1", &filter, BusEvent::Change(change(b"foo", Some(b"bar")))) {
        ListenStep::Send(ServerMsg::Update { id, keyspace, key, value, sequence, timestamp, tombstone }) => {
            assert_eq!((id.as_str(), keyspace.as_str(), key.as_str()), ("sub1", "default", "foo"));
            assert_eq!(value, Some("bar".to_string()));
            assert_eq!((sequence, timestamp, tombstone), (5, 6, false));
        }
        other => panic!("{other:?}"),
    }
    let other = BusEvent::Change(change(b"fo", Some(b"bar")));
    assert!(matches!(listen("sub1", &filter, other), ListenStep::Skip));
}

#[test]
fn subscribe_disabled_by_default_returns_error() {
    let mut s = Session::new();
    let (id, message) = only_error(s.handle(subscribe("sub1", Some("foo"), None), KeyspaceStatus::Silent));
    assert_eq!(id, "sub1");
    assert_eq!(message, "subscriptions disabled for keyspace 'default'");
}

#[test]
fn refused_messages() {
    let mut s = Session::new();
    let e = only_error(s.handle(subscribe("a", None, None), KeyspaceStatus::Live));
    assert_eq!(e, ("a".to_string(), "subscribe requires 'key' or 'prefix'".to_string()));
    let e = only_error(s.handle(subscribe("a", None, None), KeyspaceStatus::Unknown));
    assert_eq!(e.1, "subscribe requires 'key' or 'prefix'");
    let e = only_error(s.handle(subscribe("a", Some("k"), None), KeyspaceStatus::Unknown));
    assert_eq!(e.1, "unknown keyspace 'default'");
    let e = only_error(s.handle(Err("bad json".to_string()), KeyspaceStatus::Live));
    assert_eq!(e, (String::new(), "invalid message: bad json".to_string()));
}

#[test]
fn a_key_goes_before_a_prefix() {
    let mut s = Session::new();
    let actions = s.handle(subscribe("a", Some("k"), Some("p")), KeyspaceStatus::Live);
    assert!(matches!(&actions[0], SocketAction::Listen { filter: Filter::Key(k), .. } if k == "k"));
}

#[test]
fn unsubscribing_stops_what_was_started() {
    let mut s = Session::new();
    s.handle(subscribe("a", Some("k"), None), KeyspaceStatus::Live);
    s.handle(subscribe("a", Some("other"), None), KeyspaceStatus::Live);
    let gone = || Ok(ClientMsg::Unsubscribe { id: "a".to_string() });
    let actions = s.handle(gone(), KeyspaceStatus::Unknown);
    assert_eq!(actions.len(), 2);
    assert!(matches!(&actions[0], SocketAction::Stop { id } if id == "a"));
    assert!(matches!(&actions[1], SocketAction::Tell(ServerMsg::Unsubscribed { id }) if id == "a"));
    let again = s.handle(gone(), KeyspaceStatus::Unknown);
    assert_eq!(again.len(), 1);
    assert!(matches!(&again[0], SocketAction::Tell(ServerMsg::Unsubscribed { .. })));
}

#[test]
fn filters() {
    let key = Filter::Key("user:1".to_string());
    let prefix = Filter::Prefix("user:".to_string());
    assert!(matches_filter(&key, b"user:1"));
    assert!(!matches_filter(&key, b"user:12"));
    assert!(matches_filter(&prefix, b"user:12"));
    assert!(matches_filter(&prefix, b"user:"));
    assert!(!matches_filter(&prefix, b"user"));
    assert!(matches_filter(&Filter::Prefix(String::new()), b""));
}

#[test]
fn deletions_lags_and_the_end() {
    let f = Filter::Prefix(String::new());
    match listen("s", &f, BusEvent::Change(change(&[0xff], None))) {
        ListenStep::Send(ServerMsg::Update { key, value, tombstone, .. }) => {
            assert_eq!((key.as_str(), value, tombstone), ("\u{fffd}", None, true));
        }
        other => panic!("{other:?}"),
    }
    assert!(matches!(
        listen("s", &f, BusEvent::Lagged),
        ListenStep::Send(ServerMsg::ResyncRequired { id }) if id == "s"
    ));
    assert!(matches!(listen("s", &f, BusEvent::Closed), ListenStep::Stop));
    assert_eq!(default_keyspace(), "default");
}

#[test]
fn an_update_carries_the_texts_it_is_given() {
    let m = update_of("s".to_string(), &change(b"k", Some(b"v")), "key".to_string(), None);
    assert!(matches!(m, ServerMsg::Update { key, value: None, tombstone: false, .. } if key == "key"));
}

fn query(pairs: &[(&str, &str)]) -> Vec<(String, String)> {
    pairs.iter().map(|(k, v)| (k.to_string(), v.to_string())).collect()
}

#[test]
fn an_address_can_ask_for_changes() {
    match opening(&query(&[("prefix", "user:")])) {
        Opening::Changes(ClientMsg::Subscribe { id, keyspace, key, prefix }) => {
            assert_eq!((id.as_str(), keyspace.as_str()), ("", "default"));
            assert_eq!((key, prefix), (None, Some("user:".to_string())));
        }
        other => panic!("{other:?}"),
    }
    match opening(&query(&[("key", "k"), ("keyspace", "cache"), ("api_key", "s")])) {
        Opening::Changes(ClientMsg::Subscribe { keyspace, key, prefix, .. }) => {
            assert_eq!(keyspace, "cache");
            assert_eq!((key, prefix), (Some("k".to_string()), None));
        }
        other => panic!("{other:?}"),
    }
    assert!(matches!(opening(&query(&[("api_key", "s")])), Opening::Nothing));
}

#[test]
fn an_address_can_ask_for_a_topic() {
    assert!(matches!(opening(&query(&[("topic", "events")])), Opening::Topic(t) if t == "events"));
    let mut s = Session::new();
    let (_, message) = only_error(s.hear("none".to_string(), false));
    assert_eq!(message, "unknown topic 'none'");
    let actions = s.hear("events".to_string(), true);
    assert!(matches!(&actions[0], SocketAction::Hear { id, topic } if id.is_empty() && topic == "events"));
    assert!(matches!(&actions[1], SocketAction::Tell(ServerMsg::Subscribed { .. })));
    let stopped = s.handle(Ok(ClientMsg::Unsubscribe { id: String::new() }), KeyspaceStatus::Unknown);
    assert!(matches!(&stopped[0], SocketAction::Stop { .. }));
}

#[test]
fn messages_of_a_topic_are_passed_on() {
    let d = Delivery { offset: 7, payload: std::sync::Arc::new(b"hi".to_vec()) };
    match hear_topic("", "events", TopicEvent::Delivered(d)) {
        ListenStep::Send(ServerMsg::Message { id, topic, offset, value }) => {
            assert_eq!((id.as_str(), topic.as_str(), offset, value.as_str()), ("", "events", 7, "hi"));
        }
        other => panic!("{other:?}"),
    }
    assert!(matches!(
        hear_topic("a", "t", TopicEvent::Lagged),
        ListenStep::Send(ServerMsg::ResyncRequired { id }) if id == "a"
    ));
    assert!(matches!(hear_topic("a", "t", TopicEvent::Closed), ListenStep::Stop));
}
