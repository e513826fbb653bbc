use falcon::error::MessagingError;
use falcon::stream::{
    decode_group, encode_group, encode_offsets, fnv1a, group_file, parse_offsets, partition_count_of,
    partition_file, record_of, stream_dir, OffsetFile, Stream,
};

/// A stream with the files that its owner keeps.
struct Run {
    stream: Stream,
    files: Vec<Vec<u8>>,
    offsets: Vec<(String, Vec<u8>)>,
}

fn open(name: &str, partitions: usize) -> Run {
    let files = vec![Vec::new(); partitions];
    Run { stream: Stream::open(name, &files, 256, &vec![]).unwrap(), files, offsets: Vec::new() }
}

impl Run {
    fn append(&mut self, key: &[u8], payload: &[u8]) -> (usize, u64) {
        let (p, req) = self.stream.append_keyed(key, 1, payload);
        self.files[p].extend_from_slice(&req.framed);
        let offset = self.stream.publish(p, payload.to_vec(), Ok(req.offset)).unwrap();
        (p, offset)
    }

    fn poll(&mut self, group: &str, p: usize) -> Vec<(u64, Vec<u8>)> {
        let image = Ok(self.files[p].clone());
        let records = self.stream.poll(group, p, image).unwrap();
        records.iter().map(|r| (r.offset, r.payload.to_vec())).collect()
    }

    fn commit(&mut self, group: &str, p: usize, offset: u64) {
        let w = self.stream.commit(group, p, offset).unwrap();
        self.offsets.retain(|f| f.0 != w.name);
        self.offsets.push((w.name, w.bytes));
    }

    fn reopen(self, name: &str) -> Run {
        let kept: Vec<OffsetFile> = self
            .offsets
            .iter()
            .map(|f| OffsetFile { name: f.0.clone(), bytes: Some(f.1.clone()) })
            .collect();
        let stream = Stream::open(name, &self.files, 256, &kept).unwrap();
        Run { stream, files: self.files, offsets: self.offsets }
    }
}

#[test]
fn group_name_encoding_round_trips() {
    for g in ["orders", "group/with:slash", "analytics-1", "grp.1", "a b"] {
        let dec = decode_group(&encode_group(g)).expect("decode");
        assert_eq!(dec, g, "round-trip failed for {g:?}");
    }
    assert_eq!(encode_group(""), "default");
}

#[test]
fn same_key_same_partition() {
    let s = open("s", 8).stream;
    let a = s.partition_for(b"user:42");
    let b = s.partition_for(b"user:42");
    assert_eq!(a, b);
    assert!(a < 8);
}

#[test]
fn same_key_is_ordered_on_one_partition() {
    let mut s = open("orders", 8);
    let mut partitions = std::collections::HashSet::new();
    for i in 0..5u64 {
        let (p, off) = s.append(b"cust:1", format!("evt{i}").as_bytes());
        partitions.insert(p);
        assert_eq!(off, i + 1);
    }
    assert_eq!(partitions.len(), 1, "one key must map to one partition");
    let p = s.stream.partition_for(b"cust:1");
    let records = s.stream.replay(p, 1, Ok(s.files[p].clone())).unwrap();
    let payloads: Vec<_> = records.iter().map(|r| r.payload.to_vec()).collect();
    assert_eq!(payloads, (0..5).map(|i| format!("evt{i}").into_bytes()).collect::<Vec<_>>());
}

#[test]
fn consumer_group_commits_and_resumes_across_reopen() {
    let mut s = open("clicks", 4);
    let p = s.stream.partition_for(b"session:9");
    for i in 0..4 {
        s.append(b"session:9", format!("c{i}").as_bytes());
    }
    let batch = s.poll("analytics", p);
    assert_eq!(batch.len(), 4);
    s.commit("analytics", p, batch[1].0);
    let mut s = s.reopen("clicks");
    let payloads: Vec<_> = s.poll("analytics", p).into_iter().map(|r| r.1).collect();
    assert_eq!(payloads, vec![b"c2".to_vec(), b"c3".to_vec()]);
    assert_eq!(s.poll("audit", p).len(), 4);
    assert_eq!(s.stream.committed_offset("analytics", p), 2);
    assert_eq!(s.stream.committed_offset("audit", p), 0);
}

#[test]
fn live_tail_receives_new_records() {
    let mut s = open("live", 1);
    let mut rx = s.stream.subscribe(0).unwrap();
    let req = s.stream.append_to(0, 1, b"hello").unwrap();
    s.stream.publish(0, b"hello".to_vec(), Ok(req.offset)).unwrap();
    let got = rx.try_recv().unwrap();
    assert_eq!(got.payload.to_vec(), b"hello".to_vec());
    assert_eq!(got.offset, 1);
    assert_eq!(got.partition, 0);
}

#[test]
fn a_commit_never_goes_back() {
    let mut s = open("s", 1);
    for i in 0..3u8 {
        s.append(b"k", &[i]);
    }
    s.commit("g", 0, 3);
    s.commit("g", 0, 1);
    assert_eq!(s.stream.committed_offset("g", 0), 3);
    assert!(s.poll("g", 0).is_empty());
    assert_eq!(s.stream.group_next_offset("g", 0), 4);
}

#[test]
fn polling_without_a_commit_gives_the_same_again() {
    let mut s = open("s", 1);
    s.append(b"k", b"x");
    assert_eq!(s.poll("g", 0), s.poll("g", 0));
    assert_eq!(s.poll("g", 0).len(), 1);
}

#[test]
fn partitions_out_of_range_are_refused() {
    let mut s = open("s", 2);
    let out = |e: MessagingError| match e {
        MessagingError::PartitionOutOfRange(p, n) => (p, n),
        other => panic!("{other:?}"),
    };
    assert_eq!(out(s.stream.append_to(2, 0, b"x").unwrap_err()), (2, 2));
    assert_eq!(out(s.stream.subscribe(5).map(|_| ()).unwrap_err()), (5, 2));
    assert_eq!(out(s.stream.replay(2, 1, Ok(vec![])).map(|_| ()).unwrap_err()), (2, 2));
    assert_eq!(out(s.stream.commit("g", 2, 1).map(|_| ()).unwrap_err()), (2, 2));
}

#[test]
fn fnv_of_known_inputs() {
    assert_eq!(fnv1a(b""), 0xcbf29ce484222325);
    assert_eq!(fnv1a(b"a"), 0xaf63dc4c8601ec8c);
    assert_eq!(fnv1a(b"foobar"), 0x85944171f73967e8);
}

#[test]
fn keys_are_spread_by_their_hash() {
    let s = open("s", 8).stream;
    assert_eq!(s.partition_for(b"a"), (0xaf63dc4c8601ec8c_u64 % 8) as usize);
    assert_eq!(s.partition_count(), 8);
    assert_eq!(s.name(), "s");
}

#[test]
fn an_offsets_file_is_a_count_and_the_offsets() {
    let file = encode_offsets(&[1, 258]);
    assert_eq!(file, vec![0, 0, 0, 2, 0, 0, 0, 0, 0, 0, 0, 1, 0, 0, 0, 0, 0, 0, 1, 2]);
    assert_eq!(parse_offsets(&encode_offsets(&[1, 258, u64::MAX]), 3), Some(vec![1, 258, u64::MAX]));
}

#[test]
fn offsets_follow_a_change_of_the_partition_count() {
    let file = encode_offsets(&[5, 6, 7]);
    assert_eq!(parse_offsets(&file, 2), Some(vec![5, 6]));
    assert_eq!(parse_offsets(&file, 5), Some(vec![5, 6, 7, 0, 0]));
}

#[test]
fn a_cut_offsets_file_is_not_taken() {
    let whole = encode_offsets(&[5, 6]);
    assert_eq!(parse_offsets(&whole[..19], 2), None);
    assert_eq!(parse_offsets(&whole[..3], 2), None);
}

#[test]
fn files_that_are_no_offsets_are_passed_over() {
    let odd = vec![
        OffsetFile { name: "partition_0.log".to_string(), bytes: Some(vec![1]) },
        OffsetFile { name: "group_g.off".to_string(), bytes: None },
        OffsetFile { name: "group_%4.off".to_string(), bytes: Some(encode_offsets(&[9])) },
        OffsetFile { name: "group_h%2fi.off".to_string(), bytes: Some(encode_offsets(&[4])) },
    ];
    let s = Stream::open("s", &vec![vec![]], 16, &odd).unwrap();
    assert_eq!(s.committed_offset("g", 0), 0);
    assert_eq!(s.committed_offset("h/i", 0), 4);
}

#[test]
fn group_names_are_encoded_for_files() {
    assert_eq!(encode_group("orders"), "orders");
    assert_eq!(encode_group("a/b"), "a%2fb");
    assert_eq!(decode_group("a%2Fb"), Some("a/b".to_string()));
    assert_eq!(decode_group("a%2"), None);
    assert_eq!(decode_group("a%zz"), None);
    assert_eq!(decode_group("%ff"), None);
    assert_eq!(group_file("a/b"), "group_a%2fb.off");
    assert_ne!(group_file("a"), group_file("b"));
}

#[test]
fn stream_files() {
    assert_eq!(stream_dir("events"), "stream_events");
    assert_eq!(partition_file(3), "partition_3.log");
    assert_eq!(partition_count_of(0), 1);
    assert_eq!(partition_count_of(7), 7);
}

#[test]
fn a_failed_stream_append_is_not_delivered() {
    let mut s = open("s", 1).stream;
    let mut rx = s.subscribe(0).unwrap();
    assert!(s.publish(0, b"x".to_vec(), Err(MessagingError::Io("full".to_string()))).is_err());
    assert!(rx.try_recv().is_err());
    assert_eq!(record_of(4, b"x".to_vec(), Ok(2)).unwrap().partition, 4);
}

#[test]
fn a_withdrawn_stream_append_frees_its_offset() {
    let mut s = open("s", 1).stream;
    let req = s.append_to(0, 0, b"lost").unwrap();
    s.withdraw(0, &req);
    assert_eq!(s.append_to(0, 0, b"kept").unwrap().offset, 1);
}

#[test]
fn a_tail_hears_its_own_partition_from_then_on() {
    let mut s = open("s", 2).stream;
    s.publish(0, b"before".to_vec(), Ok(1)).unwrap();
    let mut rx = s.subscribe(0).unwrap();
    s.publish(1, b"elsewhere".to_vec(), Ok(1)).unwrap();
    s.publish(0, b"after".to_vec(), Ok(2)).unwrap();
    let got = rx.try_recv().unwrap();
    assert_eq!((got.partition, got.offset, got.payload.to_vec()), (0, 2, b"after".to_vec()));
    assert!(rx.try_recv().is_err());
}

#[test]
fn a_new_partition_has_room() {
    let s = open("s", 2).stream;
    assert!(s.has_room(0));
    assert!(s.has_room(1));
}

#[test]
fn commits_of_many_groups_survive_a_restart() {
    let mut s = open("s", 2).stream;
    let mut files = vec![OffsetFile { name: "notes.txt".to_string(), bytes: Some(vec![1]) }];
    for (group, partition, offset) in [("a", 0, 3), ("b", 1, 9), ("a", 1, 5), ("a", 0, 2)] {
        let w = s.commit(group, partition, offset).unwrap();
        files.retain(|f| f.name != w.name);
        files.insert(0, OffsetFile { name: w.name, bytes: Some(w.bytes) });
    }
    files.push(OffsetFile { name: "group_c.off".to_string(), bytes: None });
    let again = Stream::open("s", &vec![Vec::new(), Vec::new()], 16, &files).unwrap();
    assert_eq!(again.committed_offset("a", 0), 3);
    assert_eq!(again.committed_offset("a", 1), 5);
    assert_eq!(again.committed_offset("b", 0), 0);
    assert_eq!(again.committed_offset("b", 1), 9);
    assert_eq!(again.committed_offset("c", 0), 0);
}
