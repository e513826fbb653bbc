use falcon::writer::{CommitStep, FileSlots, GroupCommit, IntervalCommit, SharedWriter};

/// Runs a batch with files that all work; returns the writes and syncs.
fn run(targets: Vec<usize>, slots: &FileSlots) -> (Vec<(usize, usize)>, Vec<usize>, Result<(), String>) {
    let mut batch = GroupCommit::new(targets);
    let mut writes = Vec::new();
    let mut syncs = Vec::new();
    loop {
        match batch.step(slots) {
            CommitStep::Refresh => batch.refreshed(),
            CommitStep::Write { request, file } => {
                writes.push((request, file));
                batch.write_done(Ok(()));
            }
            CommitStep::Sync { file } => {
                syncs.push(file);
                batch.sync_done(file, Ok(()));
            }
            CommitStep::Reply(answer) => return (writes, syncs, answer),
        }
    }
}

fn slots(ids: &[usize]) -> FileSlots {
    let mut s = FileSlots::new();
    for id in ids {
        s.register(*id);
    }
    s
}

#[test]
fn a_batch_writes_all_and_syncs_each_file_once() {
    let (writes, syncs, answer) = run(vec![2, 0, 2, 2, 0], &slots(&[0, 1, 2]));
    assert_eq!(writes, vec![(0, 2), (1, 0), (2, 2), (3, 2), (4, 0)]);
    assert_eq!(syncs, vec![0, 2]);
    assert_eq!(answer, Ok(()));
}

#[test]
fn an_unknown_file_fails_the_batch() {
    let (writes, syncs, answer) = run(vec![0, 5], &slots(&[0]));
    assert_eq!(writes, vec![(0, 0)]);
    assert!(syncs.is_empty());
    assert_eq!(answer, Err("unknown log file id 5".to_string()));
}

#[test]
fn new_files_are_looked_for_before_a_file_is_unknown() {
    let mut files = slots(&[0]);
    let mut batch = GroupCommit::new(vec![1]);
    assert!(matches!(batch.step(&files), CommitStep::Refresh));
    files.register(1);
    batch.refreshed();
    assert!(matches!(batch.step(&files), CommitStep::Write { request: 0, file: 1 }));
}

#[test]
fn a_gap_below_a_file_is_unknown_at_once() {
    let files = slots(&[3]);
    let batch = GroupCommit::new(vec![1]);
    match batch.step(&files) {
        CommitStep::Reply(Err(e)) => assert_eq!(e, "unknown log file id 1"),
        other => panic!("{other:?}"),
    }
}

#[test]
fn a_failed_write_answers_all_with_it() {
    let files = slots(&[0]);
    let mut batch = GroupCommit::new(vec![0, 0]);
    batch.write_done(Err("full".to_string()));
    match batch.step(&files) {
        CommitStep::Reply(Err(e)) => assert_eq!(e, "full"),
        other => panic!("{other:?}"),
    }
}

#[test]
fn a_failed_sync_answers_all_with_it() {
    let files = slots(&[0, 1]);
    let mut batch = GroupCommit::new(vec![0, 1]);
    batch.write_done(Ok(()));
    batch.write_done(Ok(()));
    assert!(matches!(batch.step(&files), CommitStep::Sync { file: 0 }));
    batch.sync_done(0, Err("io".to_string()));
    assert!(matches!(batch.step(&files), CommitStep::Reply(Err(_))));
}

#[test]
fn an_interval_writer_waits_for_its_timer() {
    let mut c = IntervalCommit::new(1_000, 5);
    assert_eq!(c.wait(1_000), 5_000_000);
    assert_eq!(c.wait(5_001_000), 0);
    assert!(!c.is_due(5_000_999));
    assert!(c.is_due(5_001_000));
    c.rearm(6_000_000, 1);
    assert_eq!(c.wait(6_000_000), 1_000_000);
}

#[test]
fn an_interval_writer_syncs_dirty_files_and_answers_all() {
    let mut c = IntervalCommit::new(0, 5);
    assert!(c.to_sync().is_empty());
    c.written(3, 10);
    c.written(1, 11);
    c.written(3, 12);
    assert_eq!(c.to_sync(), vec![1, 3]);
    let (answered, result) = c.flushed(&vec![Ok(()), Ok(())]);
    assert_eq!(answered, vec![10, 11, 12]);
    assert_eq!(result, Ok(()));
    assert!(c.to_sync().is_empty());
    assert!(c.flushed(&vec![]).0.is_empty());
}

#[test]
fn the_last_failed_sync_is_the_answer() {
    let mut c = IntervalCommit::new(0, 5);
    c.written(0, 1);
    c.written(1, 2);
    let (answered, result) =
        c.flushed(&vec![Err("first".to_string()), Err("second".to_string()), Ok(())]);
    assert_eq!(answered, vec![1, 2]);
    assert_eq!(result, Err("second".to_string()));
}

#[test]
fn shared_writers_number_their_files() {
    let mut w = SharedWriter::new();
    assert_eq!(w.interval_ms(), 0);
    assert_eq!((w.register_file(), w.register_file(), w.register_file()), (0, 1, 2));
    assert_eq!(SharedWriter::with_fsync_interval(20).interval_ms(), 20);
}
