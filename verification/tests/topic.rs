use falcon::error::MessagingError;
use falcon::topic::{delivery_of, topic_file, Topic, TopicMode};

/// Publishes on a durable topic as its owner does, and keeps its file.
fn publish(t: &mut Topic, file: &mut Vec<u8>, payload: &[u8]) -> u64 {
    let appended = t.append(7, payload).map(|req| {
        file.extend_from_slice(&req.framed);
        Ok(req.offset)
    });
    t.publish(payload.to_vec(), appended).unwrap()
}

#[test]
fn ephemeral_topic_fans_out_to_live_subscribers() {
    let mut t = Topic::open("live", TopicMode::Ephemeral, 1024, &[], 0).unwrap();
    let mut sub1 = t.subscribe();
    let mut sub2 = t.subscribe();
    t.publish(b"hello".to_vec(), None).unwrap();
    assert_eq!(&sub1.try_recv().unwrap().payload[..], b"hello");
    assert_eq!(&sub2.try_recv().unwrap().payload[..], b"hello");
}

#[test]
fn durable_topic_survives_restart_and_replays() {
    let mut file = Vec::new();
    {
        let mut t = Topic::open("events", TopicMode::Durable, 1024, &[], 0).unwrap();
        assert_eq!(publish(&mut t, &mut file, b"a"), 1);
        assert_eq!(publish(&mut t, &mut file, b"b"), 2);
        assert_eq!(publish(&mut t, &mut file, b"c"), 3);
    }
    let t = Topic::open("events", TopicMode::Durable, 1024, &file, 0).unwrap();
    assert_eq!(t.next_offset(), 4);
    let replayed = t.replay_from(Ok(file.clone()), 1).unwrap();
    let payloads: Vec<_> = replayed.iter().map(|d| d.payload.to_vec()).collect();
    assert_eq!(payloads, vec![b"a".to_vec(), b"b".to_vec(), b"c".to_vec()]);
    let late: Vec<u64> = t.replay_from(Ok(file), 3).unwrap().iter().map(|d| d.offset).collect();
    assert_eq!(late, vec![3]);
}

#[test]
fn ephemeral_topic_has_no_durable_replay() {
    let mut t = Topic::open("live", TopicMode::Ephemeral, 1024, &[], 0).unwrap();
    assert!(t.append(0, b"x").is_none());
    t.publish(b"x".to_vec(), None).unwrap();
    assert!(t.replay_from(Ok(vec![1, 2, 3]), 1).unwrap().is_empty());
}

#[test]
fn a_failed_append_is_not_delivered() {
    let mut t = Topic::open("events", TopicMode::Durable, 16, &[], 0).unwrap();
    let mut sub = t.subscribe();
    let e = t.publish(b"x".to_vec(), Some(Err(MessagingError::Io("full".to_string())))).unwrap_err();
    assert!(e.message().contains("full"));
    assert!(sub.try_recv().is_err());
}

#[test]
fn a_delivery_carries_the_appended_offset() {
    let d = delivery_of(b"x".to_vec(), Some(Ok(9)), 3).unwrap();
    assert_eq!((d.offset, d.payload.to_vec()), (9, b"x".to_vec()));
    assert_eq!(delivery_of(b"x".to_vec(), None, 3).unwrap().offset, 3);
}

#[test]
fn a_small_capacity_is_raised() {
    let mut t = Topic::open("live", TopicMode::Ephemeral, 0, &[], 0).unwrap();
    let mut sub = t.subscribe();
    for i in 0..16u8 {
        t.publish(vec![i], None).unwrap();
    }
    for i in 0..16u8 {
        assert_eq!(sub.try_recv().unwrap().payload.to_vec(), vec![i]);
    }
}

#[test]
fn a_withdrawn_topic_append_frees_its_offset() {
    let mut t = Topic::open("events", TopicMode::Durable, 16, &[], 3).unwrap();
    let req = t.append(0, b"lost").unwrap();
    assert_eq!((req.offset, req.file_id), (1, 3));
    t.withdraw(&req);
    assert_eq!(t.append(0, b"kept").unwrap().offset, 1);
}

#[test]
fn an_unreadable_topic_log_is_an_error() {
    let t = Topic::open("events", TopicMode::Durable, 16, &[], 0).unwrap();
    assert!(t.replay_from(Err("gone".to_string()), 1).is_err());
}

#[test]
fn topic_names_and_files() {
    let t = Topic::open("events", TopicMode::Durable, 16, &[], 0).unwrap();
    assert_eq!(t.name(), "events");
    assert_eq!(t.mode(), TopicMode::Durable);
    assert_eq!(topic_file("events"), "topic_events.log");
}

#[test]
fn a_subscriber_gets_what_is_published_after_it_came() {
    let mut t = Topic::open("live", TopicMode::Ephemeral, 16, &[], 0).unwrap();
    let mut early = t.subscribe();
    t.publish(b"one".to_vec(), None).unwrap();
    let mut late = t.subscribe();
    t.publish(b"two".to_vec(), None).unwrap();
    t.publish(b"three".to_vec(), None).unwrap();
    for want in [b"one".to_vec(), b"two".to_vec(), b"three".to_vec()] {
        assert_eq!(early.try_recv().unwrap().payload.to_vec(), want);
    }
    for want in [b"two".to_vec(), b"three".to_vec()] {
        assert_eq!(late.try_recv().unwrap().payload.to_vec(), want);
    }
    assert!(early.try_recv().is_err());
    assert!(late.try_recv().is_err());
}

#[test]
fn ephemeral_offsets_rise_within_the_process() {
    let mut t = Topic::open("live", TopicMode::Ephemeral, 16, &[], 0).unwrap();
    let mut sub = t.subscribe();
    let mut last = None;
    for _ in 0..5 {
        assert!(t.has_room());
        let offset = t.publish(b"x".to_vec(), None).unwrap();
        assert_eq!(sub.try_recv().unwrap().offset, offset);
        assert!(last < Some(offset));
        last = Some(offset);
    }
    assert_eq!(t.next_offset(), 0);
}

#[test]
fn a_topic_holds_as_many_messages_as_asked() {
    let mut t = Topic::open("live", TopicMode::Ephemeral, 32, &[], 0).unwrap();
    let mut sub = t.subscribe();
    for i in 0..33u8 {
        t.publish(vec![i], None).unwrap();
    }
    assert!(sub.try_recv().is_err(), "the oldest message was dropped");
    assert_eq!(sub.try_recv().unwrap().payload.to_vec(), vec![1]);
}
