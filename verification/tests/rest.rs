use falcon::api::ApiError;
use falcon::error::MessagingError;
use falcon::node::NodeError;
use falcon::profile::Profile;
use falcon::queue::QueueMessage;
use falcon::rest::{
    append_reply, commit_reply, dequeue_reply, group_or_default, group_param, key_param, not_installed,
    offset_param, offset_reply, param, parse_partition, poll_reply, pop_reply, prefix_param, read_counter,
    read_reply, scan_reply, set_config, stream_info, stream_key, stream_next, unknown_resource,
    write_reply, Counter,
};
use falcon::stream::{record_of, Stream};

fn query(pairs: &[(&str, &str)]) -> Vec<(String, String)> {
    pairs.iter().map(|p| (p.0.to_string(), p.1.to_string())).collect()
}

fn text(e: ApiError) -> (u16, String) {
    (e.status(), e.message())
}

#[test]
fn parameters_are_found_by_name() {
    let q = query(&[("a", "1"), ("b", "2"), ("a", "3")]);
    assert_eq!(param(&q, "a"), Some("3".to_string()));
    assert_eq!(param(&q, "c"), None);
}

#[test]
fn a_key_has_to_be_named() {
    assert_eq!(key_param(&query(&[("key", "k")])).unwrap(), "k");
    for q in [query(&[]), query(&[("key", "")])] {
        assert_eq!(text(key_param(&q).unwrap_err()), (400, "missing ?key=".to_string()));
    }
    assert_eq!(prefix_param(&query(&[])), "");
    assert_eq!(prefix_param(&query(&[("prefix", "user:")])), "user:");
    assert_eq!(stream_key(&query(&[("key", "k")])), "k");
    assert_eq!(stream_key(&query(&[])), "");
}

#[test]
fn groups_partitions_and_offsets() {
    assert_eq!(group_or_default(&query(&[])), "default");
    assert_eq!(group_or_default(&query(&[("group", "g")])), "g");
    assert_eq!(group_param(&query(&[("group", "g")])).unwrap(), "g");
    assert_eq!(text(group_param(&query(&[])).unwrap_err()), (400, "missing ?group=".to_string()));
    assert_eq!(parse_partition(&query(&[("partition", "3")])).unwrap(), 3);
    assert_eq!(parse_partition(&query(&[("partition", "+3")])).unwrap(), 3);
    for bad in ["", "x", "-1", "1 ", "99999999999999999999999"] {
        let e = parse_partition(&query(&[("partition", bad)])).unwrap_err();
        assert_eq!(text(e), (400, "missing/invalid ?partition=".to_string()), "{bad}");
    }
    assert_eq!(offset_param(&query(&[("offset", "18446744073709551615")])).unwrap(), u64::MAX);
    let e = offset_param(&query(&[("offset", "18446744073709551616")])).unwrap_err();
    assert_eq!(text(e), (400, "missing/invalid ?offset=".to_string()));
}

#[test]
fn answers_to_reads_and_writes() {
    assert!(write_reply(Ok(3)).unwrap().ok);
    assert_eq!(text(write_reply(Err(NodeError::Storage("full".to_string()))).unwrap_err()).0, 500);
    assert_eq!(read_reply(Ok(Some(b"v".to_vec()))).unwrap().value, "v");
    assert_eq!(text(read_reply(Ok(None)).unwrap_err()), (404, "key not found".to_string()));
    let gone = NodeError::UnknownKeyspace("x".to_string());
    assert_eq!(text(read_reply(Err(gone)).unwrap_err()).0, 404);
    assert_eq!(read_counter(&Ok(Some(vec![]))), Some(Counter::GetHit));
    assert_eq!(read_counter(&Ok(None)), Some(Counter::GetMiss));
    assert_eq!(read_counter(&Err(NodeError::Storage(String::new()))), Some(Counter::Error));
    assert_eq!(read_counter(&Err(NodeError::UnknownKeyspace(String::new()))), None);
}

#[test]
fn bytes_that_are_no_text_are_replaced() {
    assert_eq!(read_reply(Ok(Some(vec![b'a', 0xff, b'b']))).unwrap().value, "a\u{fffd}b");
    let items = scan_reply(Ok(vec![(vec![0xff], b"v".to_vec()), (b"k".to_vec(), vec![0xfe])])).unwrap();
    let pairs: Vec<(String, String)> = items.items.into_iter().map(|i| (i.key, i.value)).collect();
    assert_eq!(
        pairs,
        vec![
            ("\u{fffd}".to_string(), "v".to_string()),
            ("k".to_string(), "\u{fffd}".to_string())
        ]
    );
}

#[test]
fn answers_of_queues_and_topics() {
    let job = || QueueMessage { offset: 4, payload: b"job".to_vec() };
    let d = dequeue_reply(Ok(Some(job()))).unwrap().unwrap();
    assert_eq!((d.id, d.value.as_str()), (4, "job"));
    assert!(dequeue_reply(Ok(None)).unwrap().is_none());
    let p = pop_reply(Ok(Some(job()))).unwrap().unwrap();
    assert_eq!((p.offset, p.payload.as_str()), (4, "job"));
    assert!(pop_reply(Ok(None)).unwrap().is_none());
    assert_eq!(offset_reply(Ok(9)).unwrap().offset, 9);
    let broken = || MessagingError::Io("disk".to_string());
    let want = (500, broken().message());
    assert_eq!(text(offset_reply(Err(broken())).unwrap_err()), want);
    assert_eq!(text(pop_reply(Err(broken())).unwrap_err()), want);
    assert_eq!(text(dequeue_reply(Err(broken())).unwrap_err()), want);
    assert_eq!(text(not_installed("queue")), (500, "queue not installed".to_string()));
    assert_eq!(
        text(unknown_resource("topic", "t")),
        (404, "unknown keyspace 'topic 't''".to_string())
    );
}

#[test]
fn answers_of_streams() {
    let a = append_reply("s".to_string(), 2, Ok(7)).unwrap();
    assert_eq!((a.stream.as_str(), a.partition, a.offset), ("s", 2, 7));
    let records = vec![record_of(2, b"x".to_vec(), Ok(7)).unwrap()];
    let p = poll_reply("s".to_string(), "g".to_string(), 2, Ok(records)).unwrap();
    assert_eq!((p.stream.as_str(), p.group.as_str(), p.partition), ("s", "g", 2));
    assert_eq!((p.records[0].offset, p.records[0].payload.as_str()), (7, "x"));
    let c = commit_reply("s".to_string(), "g".to_string(), 2, 7, Ok(())).unwrap();
    assert_eq!((c.stream.as_str(), c.group.as_str(), c.partition, c.committed), ("s", "g", 2, 7));
    let range = MessagingError::PartitionOutOfRange(2, 1);
    assert!(append_reply("s".to_string(), 2, Err(range)).is_err());
    let s = Stream::open("s", &vec![vec![], vec![]], 16, &vec![]).unwrap();
    let info = stream_info("s".to_string(), &s);
    assert_eq!((info.name.as_str(), info.partitions), ("s", 2));
}

#[test]
fn append_then_read_next_batch_and_it_commits() {
    let mut files = vec![Vec::new(); 4];
    let mut s = Stream::open("events", &files, 256, &vec![]).unwrap();
    for i in 0..3 {
        let payload = format!("evt{i}");
        let (p, req) = s.append_keyed(b"user:1", 1, payload.as_bytes());
        files[p].extend_from_slice(&req.framed);
    }
    let mut next = || {
        let mut values = Vec::new();
        for p in 0..4 {
            let (items, _) = stream_next(&mut s, p, Ok(files[p].clone())).unwrap();
            values.extend(items.into_iter().map(|i| i.value));
        }
        values
    };
    assert_eq!(next(), vec!["evt0", "evt1", "evt2"]);
    assert!(next().is_empty(), "records should not be redelivered after a read commits them");
}

#[test]
fn taking_records_keeps_the_position() {
    let mut file = Vec::new();
    let mut s = Stream::open("events", &vec![vec![]], 16, &vec![]).unwrap();
    file.extend_from_slice(&s.append_to(0, 1, b"x").unwrap().framed);
    let (items, kept) = stream_next(&mut s, 0, Ok(file.clone())).unwrap();
    assert_eq!(items.len(), 1);
    assert_eq!(items[0].key, "");
    let kept = kept.unwrap();
    assert_eq!(kept.name, "group_default.off");
    assert_eq!(kept.bytes, vec![0, 0, 0, 1, 0, 0, 0, 0, 0, 0, 0, 1]);
    assert!(stream_next(&mut s, 0, Ok(file)).unwrap().1.is_none());
    assert!(stream_next(&mut s, 0, Err("gone".to_string())).is_err());
}

#[test]
fn settings_are_changed_by_request() {
    let p = set_config(Profile::default(), "region", "eu-west-1").unwrap();
    assert_eq!(p.node.region, "eu-west-1");
    let e = set_config(Profile::default(), "nope", "x").unwrap_err();
    assert_eq!(text(e), (400, "unknown config key 'nope'".to_string()));
    let e = set_config(Profile::default(), "replication.role", "boss").unwrap_err();
    assert_eq!(text(e).0, 400);
}
