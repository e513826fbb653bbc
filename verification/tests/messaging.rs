use falcon::messaging::{
    build_plan, offsets_dir, partition_files, Messaging, QueueSpec, StreamSpec, TopicSpec,
};
use falcon::topic::TopicMode;

fn topic(name: &str) -> TopicSpec {
    TopicSpec { name: name.to_string(), mode: TopicMode::Durable, capacity: 16 }
}

fn queue(name: &str) -> QueueSpec {
    QueueSpec { name: name.to_string(), ack_timeout: 30_000_000_000 }
}

fn stream(name: &str) -> StreamSpec {
    StreamSpec { name: name.to_string(), partitions: 1, capacity: 16, interval_fsync_ms: 0 }
}

#[test]
fn products_use_separate_storage_directories() {
    let plan = build_plan("data", &vec![topic("events")], &vec![queue("jobs")], &vec![stream("events")]);
    let m = Messaging::build(
        vec![("events".to_string(), 1)],
        vec![("jobs".to_string(), 2)],
        vec![("events".to_string(), 3)],
    );
    assert!(m.topic("events").is_some());
    assert!(m.stream("events").is_some());
    assert_eq!(plan.topic_files, vec!["data/pubsub/topic_events.log"]);
    assert_eq!(plan.queue_files, vec!["data/queue/queue_jobs.log"]);
    assert_eq!(plan.stream_dirs, vec!["data/stream/stream_events"]);
    for dir in ["data/pubsub", "data/queue", "data/stream"] {
        assert!(plan.dirs.iter().any(|d| d == dir), "{dir} is created");
    }
}

#[test]
fn older_files_are_moved_to_their_product() {
    let plan = build_plan("data", &vec![], &vec![queue("jobs")], &vec![]);
    let moves: Vec<(String, String)> = plan.moves.into_iter().map(|m| (m.from, m.to)).collect();
    assert!(moves.contains(&(
        "data/messaging/queue_jobs.log".to_string(),
        "data/queue/queue_jobs.log".to_string()
    )));
}

#[test]
fn a_stream_has_a_file_per_partition() {
    assert_eq!(
        partition_files("data/stream/stream_s", 2),
        vec!["data/stream/stream_s/partition_0.log", "data/stream/stream_s/partition_1.log"]
    );
    assert_eq!(partition_files("d", 0), vec!["d/partition_0.log"]);
}

#[test]
fn handles_are_found_by_name() {
    let m = Messaging::build(
        vec![("a".to_string(), 1), ("b".to_string(), 2), ("a".to_string(), 3)],
        vec![("q".to_string(), 4)],
        Vec::<(String, u8)>::new(),
    );
    assert_eq!(m.topic("a"), Some(&3));
    assert_eq!(m.topic("b"), Some(&2));
    assert_eq!(m.topic("q"), None);
    assert_eq!(m.queue("q"), Some(&4));
    assert_eq!(m.stream("a"), None);
    let mut names = m.topic_names();
    names.sort();
    assert_eq!(names, vec!["a", "b"]);
    assert_eq!(m.queue_names(), vec!["q"]);
    assert!(m.stream_names().is_empty());
    assert!(!m.is_empty());
    let none: Messaging<u8, u8, u8> = Messaging::build(vec![], vec![], vec![]);
    assert!(none.is_empty());
}

#[test]
fn offset_files_have_a_directory_of_their_own() {
    assert_eq!(offsets_dir("data/stream/stream_events"), "data/stream/stream_events/offsets");
}
