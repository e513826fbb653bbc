use falcon::queue::{queue_file, Queue};

const MS: u128 = 1_000_000;

/// A queue with the file that its writer keeps.
struct Run {
    queue: Queue,
    file: Vec<u8>,
}

fn open(ack_ms: u128) -> Run {
    Run { queue: Queue::open("jobs", &[], 0, ack_ms * MS).unwrap(), file: Vec::new() }
}

impl Run {
    fn push(&mut self, payload: &[u8]) -> u64 {
        let req = self.queue.push(1_000, payload);
        self.file.extend_from_slice(&req.framed);
        req.offset
    }

    fn pop(&mut self, group: &str, now_ms: u128) -> Option<(u64, Vec<u8>)> {
        let now = now_ms * MS;
        self.queue.pop(group, now, Ok(self.file.clone()), now).unwrap().map(|m| (m.offset, m.payload))
    }
}

#[test]
fn different_groups_each_see_every_job() {
    let mut q = open(30_000);
    for i in 0..10 {
        q.push(format!("job-{i}").as_bytes());
    }
    for group in ["a", "b"] {
        let mut count = 0;
        while let Some((offset, _)) = q.pop(group, 0) {
            q.queue.ack(group, offset);
            count += 1;
        }
        assert_eq!(count, 10, "group {group} did not see all jobs");
    }
}

#[test]
fn queue_delivers_each_message_once_when_acked() {
    let mut q = open(5000);
    for i in 0..5 {
        q.push(format!("job-{i}").as_bytes());
    }
    let mut received = Vec::new();
    for _ in 0..5 {
        let (offset, payload) = q.pop("workers", 0).expect("expected a message");
        received.push(String::from_utf8(payload).unwrap());
        q.queue.ack("workers", offset);
    }
    assert!(q.pop("workers", 0).is_none());
    received.sort();
    assert_eq!(received, vec!["job-0", "job-1", "job-2", "job-3", "job-4"]);
}

#[test]
fn queue_redelivers_unacked_after_timeout() {
    let mut q = open(100);
    q.push(b"task");
    let first = q.pop("g", 0).expect("first delivery");
    assert_eq!(&first.1, b"task");
    assert_eq!(q.queue.in_flight_count("g"), 1);
    assert!(q.pop("g", 50).is_none());
    let again = q.pop("g", 150).expect("redelivery after timeout");
    assert_eq!(again, first);
    q.queue.ack("g", again.0);
    assert_eq!(q.queue.in_flight_count("g"), 0);
    assert!(q.pop("g", 1_000).is_none());
}

#[test]
fn queue_distributes_work_across_competing_consumers_in_a_group() {
    let mut q = open(5000);
    for i in 0..10 {
        q.push(format!("j{i}").as_bytes());
    }
    let mut seen = std::collections::HashSet::new();
    for _ in 0..10 {
        let (offset, _) = q.pop("workers", 0).expect("message");
        assert!(seen.insert(offset), "offset {} delivered twice", offset);
        q.queue.ack("workers", offset);
    }
    assert_eq!(seen.len(), 10);
}

#[test]
fn queue_different_groups_each_get_full_stream() {
    let mut q = open(5000);
    q.push(b"only");
    let a = q.pop("A", 0).expect("A gets it");
    let b = q.pop("B", 0).expect("B also gets it");
    assert_eq!(&a.1, b"only");
    assert_eq!(&b.1, b"only");
}

#[test]
fn unacked_jobs_of_one_group_are_never_handed_out_twice() {
    let mut q = open(30_000);
    for i in 0..500 {
        q.push(format!("job-{i}").as_bytes());
    }
    let mut all = Vec::new();
    while let Some((offset, _)) = q.pop("workers", 0) {
        all.push(offset);
    }
    assert_eq!(all, (1..=500).collect::<Vec<u64>>());
    assert_eq!(q.queue.in_flight_count("workers"), 500);
    assert_eq!(q.queue.in_flight_count("others"), 0);
}

#[test]
fn an_acknowledged_job_stays_done_after_its_timeout() {
    let mut q = open(10);
    q.push(b"a");
    q.push(b"b");
    let (a, _) = q.pop("g", 0).unwrap();
    q.queue.ack("g", a);
    assert_eq!(q.pop("g", 100).unwrap().1, b"b");
    assert!(q.pop("g", 105).is_none());
    assert_eq!(q.pop("g", 200).unwrap().1, b"b");
}

#[test]
fn a_reopened_queue_goes_on_numbering() {
    let mut q = open(10);
    assert_eq!(q.push(b"a"), 1);
    assert_eq!(q.push(b"b"), 2);
    let mut again = Queue::open("jobs", &q.file, 0, 10).unwrap();
    assert_eq!(again.push(0, b"c").offset, 3);
    assert_eq!(again.name(), "jobs");
}

#[test]
fn depth_counts_what_was_pushed() {
    let mut q = open(10);
    assert_eq!(q.queue.depth(), 0);
    q.push(b"a");
    q.push(b"b");
    assert_eq!(q.queue.depth(), 2);
}

#[test]
fn a_withdrawn_push_frees_its_offset() {
    let mut q = Queue::open("jobs", &[], 0, 10).unwrap();
    let req = q.push(0, b"lost");
    q.withdraw(&req);
    assert_eq!(q.push(0, b"kept").offset, 1);
}

#[test]
fn a_log_that_cannot_be_read_is_an_error() {
    let mut q = Queue::open("jobs", &[], 0, 10).unwrap();
    let e = q.pop("g", 0, Err("disk gone".to_string()), 0).unwrap_err();
    assert!(e.message().contains("disk gone"));
}

#[test]
fn queue_files_are_named_after_the_queue() {
    assert_eq!(queue_file("jobs"), "queue_jobs.log");
}

#[test]
fn a_late_job_does_not_bring_others_back_early() {
    let mut q = open(100);
    q.push(b"a");
    q.push(b"b");
    assert_eq!(q.pop("g", 0).unwrap().0, 1);
    assert_eq!(q.pop("g", 60).unwrap().0, 2);
    assert_eq!(q.pop("g", 100), Some((1, b"a".to_vec())));
    assert_eq!(q.pop("g", 159), None);
    assert_eq!(q.pop("g", 160), Some((2, b"b".to_vec())));
}
