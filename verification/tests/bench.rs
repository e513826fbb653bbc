use falcon::bench::{
    addr, at_least, at_most, batch, bench_kv, bench_multiregion, bench_pubsub, bench_queue, bench_realtime,
    bench_stream, converged, follower_config, interval_config, kv_readable, kv_survived, leader_config,
    per_conn, percentiles, pubsub_config, queue_config, ready_step, realtime_config, realtime_expected, reply_header,
    reply_message, reply_stored, share, stream_config, stream_ordered, wait_for_update, Convergence,
    QueueRun, ReadyStep, SocketEvent, WaitStep,
};

#[test]
fn percentiles_are_of_the_nearest_rank() {
    assert_eq!(percentiles(vec![]), (0, 0, 0));
    assert_eq!(percentiles(vec![7]), (7, 7, 7));
    assert_eq!(percentiles(vec![9, 1]), (9, 9, 9));
    assert_eq!(percentiles(vec![3, 1, 2]), (2, 3, 3));
    let hundred: Vec<u64> = (1..=100).rev().collect();
    assert_eq!(percentiles(hundred), (51, 99, 100));
    let many: Vec<u64> = (0..1001).collect();
    assert_eq!(percentiles(many), (500, 990, 1000));
}

#[test]
fn percentiles_agree_with_rounded_fractions() {
    for n in 1usize..400 {
        let sorted: Vec<u64> = (0..n as u64).map(|i| i * i).collect();
        let at = |p: f64| sorted[((((n - 1) as f64) * p).round() as usize).min(n - 1)];
        let mut shuffled = sorted.clone();
        shuffled.reverse();
        assert_eq!(percentiles(shuffled), (at(0.50), at(0.99), sorted[n - 1]), "{n}");
    }
}

#[test]
fn loads_are_shared_out() {
    assert_eq!(addr(20_100), (20_100, "127.0.0.1:20101".to_string()));
    assert_eq!(share(2000, 16), 125);
    assert_eq!((batch(0, 125, 64), batch(64, 125, 64), batch(125, 125, 64)), (64, 61, 0));
    assert_eq!((at_least(10, 2000), at_least(3000, 2000)), (2000, 3000));
    assert_eq!((at_most(10, 500), at_most(3000, 500)), (10, 500));
    assert_eq!((per_conn(100, 32), per_conn(3200, 32)), (20, 100));
    assert_eq!((realtime_expected(0), realtime_expected(3200)), (640, 3200));
}

#[test]
fn the_stores_benchmark() {
    let r = bench_kv(10, 10, 10, vec![1, 2, 3]).unwrap();
    assert_eq!((r.name, r.ops), ("Falcon KV Store (KV, durable writes)", 10));
    assert_eq!((r.p50_us, r.p99_us, r.max_us), (2, 3, 3));
    assert_eq!(
        r.verdict_lines(),
        vec![
            "  RELIABLE : stable (sequential durable writes)",
            "  SAFE     : 10/10 readable",
            "  DURABLE  : 10/10 survived restart",
        ]
    );
    assert_eq!(
        bench_kv(10, 9, 8, vec![]).unwrap_err(),
        "KV safe check failed: only 9/10 readable"
    );
    assert_eq!(
        bench_kv(10, 10, 8, vec![]).unwrap_err(),
        "KV durability check failed: only 8/10 survived restart"
    );
    assert!(kv_readable(1, 1).is_ok());
    assert!(kv_survived(0, 1).is_err());
}

#[test]
fn the_topics_benchmark() {
    let r = bench_pubsub(5, true, vec![]).unwrap();
    assert_eq!(r.durable, "5 published; durable log persisted (survives restart)");
    assert_eq!(r.safe, "5/5 published");
    assert_eq!(
        bench_pubsub(5, false, vec![]).unwrap_err(),
        "pub/sub durability check failed: topic not present after restart"
    );
}

#[test]
fn the_queues_benchmark() {
    let mut run = QueueRun::new();
    for job in ["a", "b", "a"] {
        run.popped(Some(job.as_bytes().to_vec())).unwrap();
    }
    assert_eq!(
        run.popped(None).unwrap_err(),
        "queue delivered fewer jobs than pushed (at-least-once violated)"
    );
    assert_eq!(
        bench_queue(3, &run, false, true, vec![]).unwrap_err(),
        "queue reliability check failed: 2 distinct jobs delivered, expected 3"
    );
    assert_eq!(
        bench_queue(2, &run, true, true, vec![]).unwrap_err(),
        "queue safe check failed: acked jobs were redelivered"
    );
    assert_eq!(
        bench_queue(2, &run, false, false, vec![]).unwrap_err(),
        "queue durability check failed: queue not present after restart"
    );
    let r = bench_queue(2, &run, false, true, vec![4]).unwrap();
    assert_eq!((r.ops, r.reliable.as_str()), (2, "2/2 delivered, none lost"));
}

#[test]
fn the_streams_benchmark() {
    let good = vec![(0, 1), (0, 2), (0, 5)];
    let r = bench_stream(3, &good, 3, 0, vec![]).unwrap();
    assert_eq!(r.safe, "3/3 polled back");
    assert_eq!(
        r.durable,
        "resumed after commit: 0 of 3 redelivered, exactly as committed"
    );
    assert_eq!(
        stream_ordered(&vec![(0, 1), (1, 2)]).unwrap_err(),
        "stream ordering check failed: key spread across partitions"
    );
    assert_eq!(
        stream_ordered(&vec![(0, 2), (0, 2)]).unwrap_err(),
        "stream ordering check failed: offset 2 not > 2"
    );
    assert_eq!(
        stream_ordered(&vec![(0, 0)]).unwrap_err(),
        "stream ordering check failed: offset 0 not > 0"
    );
    assert_eq!(
        bench_stream(3, &good, 2, 1, vec![]).unwrap_err(),
        "stream safe check failed: read 2/3"
    );
    assert_eq!(
        bench_stream(3, &good, 3, 1, vec![]).unwrap_err(),
        "stream durability check failed: after restart, 1 redelivered, expected 0 (committed offset not durable)"
    );
}

#[test]
fn the_live_update_benchmark() {
    let text = |t: &str| SocketEvent::Text(t.to_string());
    assert_eq!(wait_for_update(text("{\"type\":\"update\"}"), false), Ok(WaitStep::Notified));
    assert_eq!(wait_for_update(text("{\"type\":\"subscribed\"}"), false), Ok(WaitStep::KeepWaiting));
    assert_eq!(wait_for_update(SocketEvent::Other, true), Ok(WaitStep::KeepWaiting));
    let failed = || SocketEvent::Failed("reset".to_string());
    assert_eq!(wait_for_update(failed(), false).unwrap_err(), "ws error: reset");
    assert_eq!(wait_for_update(SocketEvent::Closed, false).unwrap_err(), "ws closed early");
    assert_eq!(
        wait_for_update(SocketEvent::Timeout, false).unwrap_err(),
        "realtime reliability check failed: no notify within 2s"
    );
    for e in [failed(), SocketEvent::Closed, SocketEvent::Timeout] {
        assert_eq!(wait_for_update(e, true).unwrap_err(), "no notify within 3s under load");
    }
    let r = bench_realtime(3200, 3200, vec![]).unwrap();
    assert_eq!(r.reliable, "3200/3200 writes notified (32 concurrent subs)");
    assert_eq!(
        bench_realtime(0, 639, vec![]).unwrap_err(),
        "realtime reliability check failed: 639/640 notifies delivered"
    );
}

#[test]
fn the_replication_benchmark() {
    assert_eq!(converged(5, 5, 99_999), Ok(Convergence::Done));
    assert_eq!(converged(4, 5, 30_000), Ok(Convergence::Wait { ms: 5 }));
    assert_eq!(
        converged(4, 5, 30_001).unwrap_err(),
        "multi-region reliability check failed: only 4/5 converged in 30s"
    );
    let r = bench_multiregion(1600, 9, 9, 1234, "1");
    assert_eq!((r.ops, r.max_us), (1600, 1234));
    assert_eq!(
        r.reliable,
        "9/9 converged, none lost (16 concurrent writers; batch converged in 1ms)"
    );
}

#[test]
fn configurations_of_the_benchmarks() {
    assert!(pubsub_config().contains("mode = \"durable\""));
    assert!(queue_config().contains("name = \"perf\""));
    assert!(stream_config().contains("partitions = 1"));
    assert!(realtime_config().starts_with("[subscriptions]\nenabled = true\n"));
    assert!(leader_config(20_170).contains("grpc_bind = \"127.0.0.1:20170\"\n"));
    let f = follower_config(20_170);
    assert!(f.contains("grpc_bind = \"127.0.0.1:20270\"\n"));
    assert!(f.contains("leader_addr = \"http://127.0.0.1:20170\"\n"));
    assert_eq!(
        interval_config("b", "w", "d", 5),
        "[http]\nbind = \"b\"\n[wire]\nbind = \"w\"\n[storage]\ndata_dir = \"d\"\n[[keyspace]]\nname = \"default\"\ntier = \"warm\"\ninterval_fsync_ms = 5\n"
    );
}

#[test]
fn replies_of_the_wire_protocol() {
    assert_eq!(reply_header(&[3, 1, 2, 0, 0]), (3, 513));
    assert_eq!(reply_header(&[0, 255, 255, 255, 255]), (0, u32::MAX));
    let mut message = 0x0102_0304_0506_0708_u64.to_le_bytes().to_vec();
    message.extend_from_slice(b"job");
    assert_eq!(reply_message(&message), (0x0102_0304_0506_0708, b"job".to_vec()));
    let mut stored = 7u32.to_le_bytes().to_vec();
    stored.extend_from_slice(&u64::MAX.to_le_bytes());
    assert_eq!(reply_stored(&stored), (7, u64::MAX));
}

#[test]
fn a_node_that_never_answers_is_given_up() {
    assert_eq!(ready_step(0, true, "u"), Ok(ReadyStep::Ready));
    assert_eq!(ready_step(0, false, "u"), Ok(ReadyStep::Again { ms: 100 }));
    assert_eq!(ready_step(48, false, "u"), Ok(ReadyStep::Again { ms: 100 }));
    assert_eq!(
        ready_step(49, false, "http://x"),
        Err("kvstored did not become ready at http://x in time".to_string())
    );
}
