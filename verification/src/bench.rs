//! Benchmarks of a running node: what each one sets up, what it checks, and
//! what it reports.
//!
//! A benchmark that finds a wrong answer fails, whatever it measured.

use crate::bytes::{get_le, le_value};
use crate::expiry::key_views;
use crate::text::{concat3, contains, decimal, is_blank, occurs, show, views};
use vstd::prelude::*;
use vstd::relations::{sorted_by, total_ordering};
use vstd::slice::{slice_subrange, slice_to_vec};
use vstd::string::StringExecFns;

verus! {

/// What a benchmark found, times aside.
#[derive(Debug)]
pub struct SubResult {
    pub name: &'static str,
    pub ops: u64,
    pub p50_us: u64,
    pub p99_us: u64,
    pub max_us: u64,
    pub reliable: String,
    pub safe: String,
    pub durable: String,
}

/// Sorts numbers in ascending order (`slice::sort_unstable`): afterwards they
/// stand in order, and are the same numbers, each as often.
#[verifier::external_body]
fn sort_numbers(v: &mut Vec<u64>)
    ensures
        forall|i: int, j: int| 0 <= i < j < final(v)@.len() ==> final(v)@[i] <= final(v)@[j],
        final(v)@.to_multiset() == old(v)@.to_multiset(),
{
    v.sort_unstable();
}

/// Numbers in ascending order.
pub open spec fn in_order(v: Seq<u64>) -> Seq<u64> {
    v.sort_by(|a: u64, b: u64| a <= b)
}

/// The number at a percentile: that of the nearest rank, 0 where there are
/// none.
pub open spec fn percentile(v: Seq<u64>, percent: nat) -> u64 {
    if v.len() == 0 {
        0
    } else {
        in_order(v)[((v.len() - 1) * percent + 50) / 100]
    }
}

/// The largest number, 0 where there are none.
pub open spec fn largest(v: Seq<u64>) -> u64 {
    if v.len() == 0 {
        0
    } else {
        in_order(v).last()
    }
}

proof fn lemma_order_is_unique(a: Seq<u64>, b: Seq<u64>)
    requires
        a.to_multiset() == b.to_multiset(),
        forall|i: int, j: int| 0 <= i < j < a.len() ==> a[i] <= a[j],
        forall|i: int, j: int| 0 <= i < j < b.len() ==> b[i] <= b[j],
    ensures
        a == b,
    decreases a.len(),
{
    broadcast use vstd::seq_lib::group_to_multiset_ensures;

    assert(a.len() == b.len()) by {
        a.to_multiset_ensures();
        b.to_multiset_ensures();
    }
    if a.len() > 0 {
        let (x, y) = (a.last(), b.last());
        assert(a.contains(x)) by {
            assert(a[a.len() - 1] == x);
        }
        assert(b.contains(y)) by {
            assert(b[b.len() - 1] == y);
        }
        a.to_multiset_ensures();
        b.to_multiset_ensures();
        assert(b.to_multiset().count(x) > 0);
        assert(a.to_multiset().count(y) > 0);
        assert(b.contains(x));
        assert(a.contains(y));
        let i = b.index_of(x);
        let j = a.index_of(y);
        assert(b[i] <= y);
        assert(a[j] <= x);
        assert(x == y);
        let (c, d) = (a.drop_last(), b.drop_last());
        assert(a =~= c.push(x));
        assert(b =~= d.push(y));
        c.to_multiset_ensures();
        d.to_multiset_ensures();
        assert(c.to_multiset() =~= a.to_multiset().remove(x));
        assert(d.to_multiset() =~= b.to_multiset().remove(y));
        assert forall|i: int, j: int| 0 <= i < j < c.len() implies c[i] <= c[j] by {
            assert(a[i] <= a[j]);
        }
        assert forall|i: int, j: int| 0 <= i < j < d.len() implies d[i] <= d[j] by {
            assert(b[i] <= b[j]);
        }
        lemma_order_is_unique(c, d);
    } else {
        assert(a =~= b);
    }
}

proof fn lemma_in_order(v: Seq<u64>)
    ensures
        forall|i: int, j: int| 0 <= i < j < in_order(v).len() ==> in_order(v)[i] <= in_order(v)[j],
        in_order(v).to_multiset() == v.to_multiset(),
        in_order(v).len() == v.len(),
{
    let leq = |a: u64, b: u64| a <= b;
    assert(total_ordering(leq));
    v.lemma_sort_by_ensures(leq);
    let s = in_order(v);
    assert(sorted_by(s, leq));
    s.to_multiset_ensures();
    v.to_multiset_ensures();
    assert forall|i: int, j: int| 0 <= i < j < s.len() implies s[i] <= s[j] by {
        assert(leq(s[i], s[j]));
    }
}

/// The index of a percentile's rank among so many numbers.
fn rank(len: usize, percent: u64) -> (i: usize)
    requires
        len > 0,
        percent <= 100,
    ensures
        i == ((len - 1) * percent + 50) / 100,
        i < len,
{
    let n: u128 = (len - 1) as u128;
    assert(n * percent <= n * 100) by (nonlinear_arith)
        requires
            percent <= 100,
    ;
    let scaled: u128 = n * (percent as u128) + 50;
    let i: u128 = scaled / 100;
    i as usize
}

/// The median, the 99th percentile and the largest of some measurements.
pub fn percentiles(lat_us: Vec<u64>) -> (r: (u64, u64, u64))
    ensures
        r.0 == percentile(lat_us@, 50),
        r.1 == percentile(lat_us@, 99),
        r.2 == largest(lat_us@),
{
    let ghost given = lat_us@;
    let mut sorted = lat_us;
    if sorted.len() == 0 {
        return (0, 0, 0);
    }
    sort_numbers(&mut sorted);
    proof {
        lemma_in_order(given);
        lemma_order_is_unique(sorted@, in_order(given));
    }
    let p50: u64 = sorted[rank(sorted.len(), 50)];
    let p99: u64 = sorted[rank(sorted.len(), 99)];
    let max: u64 = sorted[sorted.len() - 1];
    (p50, p99, max)
}

/// Percentiles are in order, and are measurements.
pub proof fn law_percentiles_are_ordered(v: Seq<u64>)
    requires
        v.len() > 0,
    ensures
        percentile(v, 50) <= percentile(v, 99) <= largest(v),
        v.contains(percentile(v, 50)),
        v.contains(percentile(v, 99)),
        v.contains(largest(v)),
        forall|i: int| 0 <= i < v.len() ==> #[trigger] v[i] <= largest(v),
{
    lemma_in_order(v);
    let s = in_order(v);
    let n = v.len() - 1;
    let i = (n * 50 + 50) / 100;
    let j = (n * 99 + 50) / 100;
    assert(0 <= i <= j <= n);
    v.to_multiset_ensures();
    s.to_multiset_ensures();
    assert forall|k: int| 0 <= k < s.len() implies v.contains(#[trigger] s[k]) by {
        assert(s.contains(s[k]));
        assert(s.to_multiset().count(s[k]) > 0);
    }
    assert forall|k: int| 0 <= k < v.len() implies #[trigger] v[k] <= largest(v) by {
        assert(v.contains(v[k]));
        assert(v.to_multiset().count(v[k]) > 0);
        assert(s.contains(v[k]));
        let m = s.index_of(v[k]);
        if m < n {
            assert(s[m] <= s[n]);
        }
    }
    if i < j {
        assert(s[i] <= s[j]);
    }
    if j < n {
        assert(s[j] <= s[n]);
    }
}

/// The addresses of a node on a port of this machine: HTTP on the port, the
/// wire protocol on the next.
pub fn addr(base: u16) -> (a: (u16, String))
    requires
        base < u16::MAX,
    ensures
        a.0 == base,
        a.1@ == "127.0.0.1:"@ + decimal((base + 1) as nat),
{
    (base, "127.0.0.1:".to_owned().concat(show((base + 1) as u128).as_str()))
}

/// How many requests each of some connections makes.
pub fn share(total: usize, conns: usize) -> (n: usize)
    requires
        conns > 0,
    ensures
        n == total / conns,
{
    total / conns
}

/// How many requests the next batch holds.
pub fn batch(done: usize, per_conn: usize, depth: usize) -> (n: usize)
    requires
        done <= per_conn,
    ensures
        n == if depth < per_conn - done {
            depth as int
        } else {
            per_conn - done
        },
{
    if depth < per_conn - done {
        depth
    } else {
        per_conn - done
    }
}

/// At least so many.
pub fn at_least(n: usize, floor: usize) -> (m: usize)
    ensures
        m == if n > floor {
            n
        } else {
            floor
        },
{
    if n > floor {
        n
    } else {
        floor
    }
}

/// At most so many.
pub fn at_most(n: usize, cap: usize) -> (m: usize)
    ensures
        m == if n < cap {
            n
        } else {
            cap
        },
{
    if n < cap {
        n
    } else {
        cap
    }
}

/// Two numbers with a stroke between them.
pub open spec fn ratio(a: nat, b: nat) -> Seq<char> {
    decimal(a) + "/"@ + decimal(b)
}

fn show_ratio(a: usize, b: usize) -> (s: String)
    ensures
        s@ == ratio(a as nat, b as nat),
{
    concat3(show(a as u128).as_str(), "/", show(b as u128).as_str())
}

/// The store: whether every key that was written can be read.
pub fn kv_readable(ok: usize, records: usize) -> (r: Result<String, String>)
    ensures
        match r {
            Ok(s) => ok == records && s@ == ratio(ok as nat, records as nat) + " readable"@,
            Err(m) => ok != records && m@ == "KV safe check failed: only "@ + ratio(
                ok as nat,
                records as nat,
            ) + " readable"@,
        },
{
    let counted = show_ratio(ok, records);
    if ok == records {
        Ok(counted.concat(" readable"))
    } else {
        Err(concat3("KV safe check failed: only ", counted.as_str(), " readable"))
    }
}

/// The store: whether every key outlived a restart.
pub fn kv_survived(survived: usize, records: usize) -> (r: Result<String, String>)
    ensures
        match r {
            Ok(s) => survived == records && s@ == ratio(survived as nat, records as nat)
                + " survived restart"@,
            Err(m) => survived != records && m@ == "KV durability check failed: only "@ + ratio(
                survived as nat,
                records as nat,
            ) + " survived restart"@,
        },
{
    let counted = show_ratio(survived, records);
    if survived == records {
        Ok(counted.concat(" survived restart"))
    } else {
        Err(concat3("KV durability check failed: only ", counted.as_str(), " survived restart"))
    }
}

/// Whether a report has the given latencies' percentiles.
pub open spec fn times_of(r: SubResult, lat: Seq<u64>) -> bool {
    &&& r.p50_us == percentile(lat, 50)
    &&& r.p99_us == percentile(lat, 99)
    &&& r.max_us == largest(lat)
}

/// The store's benchmark: `ok` keys could be read and `survived` were there
/// after a restart, of `records`.
pub fn bench_kv(records: usize, ok: usize, survived: usize, lat: Vec<u64>) -> (r: Result<
    SubResult,
    String,
>)
    ensures
        match r {
            Ok(s) => {
                &&& ok == records
                &&& survived == records
                &&& s.name@ == "Falcon KV Store (KV, durable writes)"@
                &&& s.ops == records
                &&& times_of(s, lat@)
                &&& s.reliable@ == "stable (sequential durable writes)"@
                &&& s.safe@ == ratio(records as nat, records as nat) + " readable"@
                &&& s.durable@ == ratio(records as nat, records as nat) + " survived restart"@
            },
            Err(m) => if ok != records {
                m@ == "KV safe check failed: only "@ + ratio(ok as nat, records as nat)
                    + " readable"@
            } else {
                survived != records && m@ == "KV durability check failed: only "@ + ratio(
                    survived as nat,
                    records as nat,
                ) + " survived restart"@
            },
        },
{
    let safe = match kv_readable(ok, records) {
        Ok(s) => s,
        Err(m) => {
            return Err(m);
        },
    };
    let durable = match kv_survived(survived, records) {
        Ok(s) => s,
        Err(m) => {
            return Err(m);
        },
    };
    let (p50, p99, max) = percentiles(lat);
    Ok(
        SubResult {
            name: "Falcon KV Store (KV, durable writes)",
            ops: records as u64,
            p50_us: p50,
            p99_us: p99,
            max_us: max,
            reliable: "stable (sequential durable writes)".to_owned(),
            safe,
            durable,
        },
    )
}

/// The configuration of the topic benchmark's node.
pub fn pubsub_config() -> (c: &'static str)
    ensures
        c@ == "[[topic]]\nname = \"bench\"\nmode = \"durable\"\ncapacity = 4096\n"@,
{
    "[[topic]]\nname = \"bench\"\nmode = \"durable\"\ncapacity = 4096\n"
}

/// The topic's benchmark: `present` says whether the node had the topic after
/// a restart.
pub fn bench_pubsub(messages: usize, present: bool, lat: Vec<u64>) -> (r: Result<SubResult, String>)
    ensures
        match r {
            Ok(s) => {
                &&& present
                &&& s.name@ == "Falcon Pub/Sub (durable topic)"@
                &&& s.ops == messages
                &&& times_of(s, lat@)
                &&& s.reliable@ == "ordered append log"@
                &&& s.safe@ == ratio(messages as nat, messages as nat) + " published"@
                &&& s.durable@ == decimal(messages as nat)
                    + " published; durable log persisted (survives restart)"@
            },
            Err(m) => !present && m@
                == "pub/sub durability check failed: topic not present after restart"@,
        },
{
    if !present {
        return Err(
            "pub/sub durability check failed: topic not present after restart".to_owned(),
        );
    }
    let (p50, p99, max) = percentiles(lat);
    Ok(
        SubResult {
            name: "Falcon Pub/Sub (durable topic)",
            ops: messages as u64,
            p50_us: p50,
            p99_us: p99,
            max_us: max,
            reliable: "ordered append log".to_owned(),
            safe: show_ratio(messages, messages).concat(" published"),
            durable: show(messages as u128).concat(
                " published; durable log persisted (survives restart)",
            ),
        },
    )
}

/// The configuration of the queue benchmark's node: a queue for the checks
/// and one for the load.
pub fn queue_config() -> (c: &'static str)
    ensures
        c@
            == "[[queue]]\nname = \"jobs\"\nack_timeout_secs = 30\n[[queue]]\nname = \"perf\"\nack_timeout_secs = 30\n"@,
{
    "[[queue]]\nname = \"jobs\"\nack_timeout_secs = 30\n[[queue]]\nname = \"perf\"\nack_timeout_secs = 30\n"
}

/// The jobs that a queue's benchmark has got so far, each once.
#[derive(Debug)]
pub struct QueueRun {
    seen: Vec<Vec<u8>>,
}

/// A list after adding an item: at the end where it is new, else unchanged.
pub open spec fn with_job(seen: Seq<Seq<u8>>, job: Seq<u8>) -> Seq<Seq<u8>> {
    if seen.contains(job) {
        seen
    } else {
        seen.push(job)
    }
}

impl View for QueueRun {
    type V = Seq<Seq<u8>>;

    closed spec fn view(&self) -> Seq<Seq<u8>> {
        key_views(self.seen@)
    }
}

impl QueueRun {
    pub fn new() -> (q: Self)
        ensures
            q@ == Seq::<Seq<u8>>::empty(),
    {
        let seen: Vec<Vec<u8>> = Vec::new();
        assert(key_views(seen@) =~= Seq::empty());
        QueueRun { seen }
    }

    fn has(&self, job: &Vec<u8>) -> (r: bool)
        ensures
            r == self@.contains(job@),
    {
        let mut i: usize = 0;
        while i < self.seen.len()
            invariant
                i <= self.seen.len(),
                forall|j: int| 0 <= j < i ==> (#[trigger] self.seen@[j])@ != job@,
            decreases self.seen.len() - i,
        {
            if crate::text::same_bytes(self.seen[i].as_slice(), job.as_slice()) {
                assert(self@[i as int] == job@);
                return true;
            }
            i = i + 1;
        }
        assert forall|j: int| 0 <= j < self@.len() implies self@[j] != job@ by {
            assert(self.seen@[j]@ != job@);
        }
        false
    }

    /// What a pop gave. None before every job came is a failure.
    pub fn popped(&mut self, job: Option<Vec<u8>>) -> (r: Result<(), String>)
        ensures
            match job {
                Some(p) => r is Ok && final(self)@ == with_job(old(self)@, p@),
                None => (r matches Err(m) && m@
                    == "queue delivered fewer jobs than pushed (at-least-once violated)"@)
                    && final(self)@ == old(self)@,
            },
    {
        match job {
            Some(p) => {
                if !self.has(&p) {
                    let ghost before = self@;
                    let ghost pv = p@;
                    self.seen.push(p);
                    assert(self@ =~= before.push(pv));
                }
                Ok(())
            },
            None => Err(
                "queue delivered fewer jobs than pushed (at-least-once violated)".to_owned(),
            ),
        }
    }

    /// Whether every job came, and none again (`leftover` says whether one
    /// more pop gave something).
    pub fn delivered(&self, jobs: usize, leftover: bool) -> (r: Result<(), String>)
        ensures
            match r {
                Ok(()) => self@.len() == jobs && !leftover,
                Err(m) => if self@.len() != jobs {
                    m@ == "queue reliability check failed: "@ + decimal(self@.len())
                        + " distinct jobs delivered, expected "@ + decimal(jobs as nat)
                } else {
                    leftover && m@ == "queue safe check failed: acked jobs were redelivered"@
                },
            },
    {
        if self.seen.len() != jobs {
            return Err(
                concat3(
                    "queue reliability check failed: ",
                    show(self.seen.len() as u128).as_str(),
                    " distinct jobs delivered, expected ",
                ).concat(show(jobs as u128).as_str()),
            );
        }
        if leftover {
            return Err("queue safe check failed: acked jobs were redelivered".to_owned());
        }
        Ok(())
    }
}

/// The queue's benchmark: `present` says whether the node had the queue after
/// a restart.
pub fn bench_queue(
    jobs: usize,
    run: &QueueRun,
    leftover: bool,
    present: bool,
    lat: Vec<u64>,
) -> (r: Result<SubResult, String>)
    ensures
        match r {
            Ok(s) => {
                &&& run@.len() == jobs
                &&& !leftover
                &&& present
                &&& s.name@ == "Falcon Queue (durable, at-least-once)"@
                &&& s.ops == jobs
                &&& times_of(s, lat@)
                &&& s.reliable@ == ratio(jobs as nat, jobs as nat) + " delivered, none lost"@
                &&& s.safe@ == "acked jobs not redelivered"@
                &&& s.durable@ == "durable job log persisted (survives restart)"@
            },
            Err(m) => if run@.len() != jobs {
                m@ == "queue reliability check failed: "@ + decimal(run@.len())
                    + " distinct jobs delivered, expected "@ + decimal(jobs as nat)
            } else if leftover {
                m@ == "queue safe check failed: acked jobs were redelivered"@
            } else {
                !present && m@
                    == "queue durability check failed: queue not present after restart"@
            },
        },
{
    match run.delivered(jobs, leftover) {
        Ok(()) => {},
        Err(m) => {
            return Err(m);
        },
    }
    if !present {
        return Err("queue durability check failed: queue not present after restart".to_owned());
    }
    let (p50, p99, max) = percentiles(lat);
    Ok(
        SubResult {
            name: "Falcon Queue (durable, at-least-once)",
            ops: jobs as u64,
            p50_us: p50,
            p99_us: p99,
            max_us: max,
            reliable: show_ratio(jobs, jobs).concat(" delivered, none lost"),
            safe: "acked jobs not redelivered".to_owned(),
            durable: "durable job log persisted (survives restart)".to_owned(),
        },
    )
}

/// A queue's benchmark passes only where as many different jobs came as were
/// pushed: what came more than once counts once.
pub proof fn law_repeated_jobs_count_once(seen: Seq<Seq<u8>>, job: Seq<u8>)
    requires
        seen.no_duplicates(),
    ensures
        with_job(seen, job).no_duplicates(),
        with_job(with_job(seen, job), job) == with_job(seen, job),
        with_job(seen, job).contains(job),
{
    let w = with_job(seen, job);
    if !seen.contains(job) {
        assert(w[seen.len() as int] == job);
    }
}

/// The configuration of the stream benchmark's node: a stream for the checks
/// and one for the load.
pub fn stream_config() -> (c: &'static str)
    ensures
        c@
            == "[[stream]]\nname = \"events\"\npartitions = 1\ncapacity = 4096\n[[stream]]\nname = \"perf1\"\npartitions = 1\ncapacity = 4096\n"@,
{
    "[[stream]]\nname = \"events\"\npartitions = 1\ncapacity = 4096\n[[stream]]\nname = \"perf1\"\npartitions = 1\ncapacity = 4096\n"
}

/// The offset that a record has to exceed: that of the record before it, or
/// 0.
pub open spec fn offset_before(offsets: Seq<(u32, u64)>, i: int) -> u64 {
    if i == 0 {
        0
    } else {
        offsets[i - 1].1
    }
}

/// Whether a record is where it should be: on the partition of the first, and
/// after the one before it.
pub open spec fn in_place(offsets: Seq<(u32, u64)>, i: int) -> bool {
    offsets[i].0 == offsets[0].0 && offsets[i].1 > offset_before(offsets, i)
}

/// What is said of the first record that is not in place.
pub open spec fn misplaced(offsets: Seq<(u32, u64)>, i: int) -> Seq<char> {
    if offsets[i].0 != offsets[0].0 {
        "stream ordering check failed: key spread across partitions"@
    } else {
        "stream ordering check failed: offset "@ + decimal(offsets[i].1 as nat) + " not > "@
            + decimal(offset_before(offsets, i) as nat)
    }
}

/// The stream: whether the records of one key went to one partition, at
/// growing offsets.
pub fn stream_ordered(offsets: &Vec<(u32, u64)>) -> (r: Result<(), String>)
    requires
        offsets@.len() > 0,
    ensures
        match r {
            Ok(()) => forall|i: int| 0 <= i < offsets@.len() ==> #[trigger] in_place(offsets@, i),
            Err(m) => exists|i: int|
                0 <= i < offsets@.len() && !(#[trigger] in_place(offsets@, i)) && m@ == misplaced(
                    offsets@,
                    i,
                ) && forall|j: int| 0 <= j < i ==> #[trigger] in_place(offsets@, j),
        },
{
    let partition: u32 = offsets[0].0;
    let mut prev: u64 = 0;
    let mut i: usize = 0;
    while i < offsets.len()
        invariant
            i <= offsets.len(),
            offsets@.len() > 0,
            partition == offsets@[0].0,
            prev == offset_before(offsets@, i as int),
            forall|j: int| 0 <= j < i ==> #[trigger] in_place(offsets@, j),
        decreases offsets.len() - i,
    {
        let p: u32 = offsets[i].0;
        let off: u64 = offsets[i].1;
        if p != partition {
            assert(!in_place(offsets@, i as int));
            return Err("stream ordering check failed: key spread across partitions".to_owned());
        }
        if off <= prev {
            assert(!in_place(offsets@, i as int));
            return Err(
                concat3(
                    "stream ordering check failed: offset ",
                    show(off as u128).as_str(),
                    " not > ",
                ).concat(show(prev as u128).as_str()),
            );
        }
        assert(in_place(offsets@, i as int));
        prev = off;
        i = i + 1;
    }
    Ok(())
}

/// Where every record is in place, a later record has a larger offset.
pub proof fn law_ordered_stream_grows(offsets: Seq<(u32, u64)>, i: int, j: int)
    requires
        forall|k: int| 0 <= k < offsets.len() ==> #[trigger] in_place(offsets, k),
        0 <= i < j < offsets.len(),
    ensures
        offsets[i].1 < offsets[j].1,
        offsets[i].0 == offsets[j].0,
    decreases j - i,
{
    assert(in_place(offsets, j));
    assert(in_place(offsets, i));
    if i < j - 1 {
        law_ordered_stream_grows(offsets, i, j - 1);
    }
}

/// The stream: whether everything that was appended was read.
pub fn stream_read(got: usize, records: usize) -> (r: Result<String, String>)
    ensures
        match r {
            Ok(s) => got == records && s@ == ratio(got as nat, records as nat) + " polled back"@,
            Err(m) => got != records && m@ == "stream safe check failed: read "@ + ratio(
                got as nat,
                records as nat,
            ),
        },
{
    let counted = show_ratio(got, records);
    if got == records {
        Ok(counted.concat(" polled back"))
    } else {
        Err("stream safe check failed: read ".to_owned().concat(counted.as_str()))
    }
}

/// The stream: whether nothing that was read came again after a restart.
pub fn stream_resumed(remaining: usize, records: usize) -> (r: Result<String, String>)
    ensures
        match r {
            Ok(s) => remaining == 0 && s@ == "resumed after commit: 0 of "@ + decimal(
                records as nat,
            ) + " redelivered, exactly as committed"@,
            Err(m) => remaining != 0 && m@ == "stream durability check failed: after restart, "@
                + decimal(remaining as nat)
                + " redelivered, expected 0 (committed offset not durable)"@,
        },
{
    if remaining != 0 {
        Err(
            concat3(
                "stream durability check failed: after restart, ",
                show(remaining as u128).as_str(),
                " redelivered, expected 0 (committed offset not durable)",
            ),
        )
    } else {
        Ok(
            concat3(
                "resumed after commit: 0 of ",
                show(records as u128).as_str(),
                " redelivered, exactly as committed",
            ),
        )
    }
}

/// The stream's benchmark, from where its records went, how many were read
/// and how many came again after a restart.
pub fn bench_stream(
    records: usize,
    offsets: &Vec<(u32, u64)>,
    got: usize,
    remaining: usize,
    lat: Vec<u64>,
) -> (r: Result<SubResult, String>)
    requires
        offsets@.len() > 0,
    ensures
        match r {
            Ok(s) => {
                &&& forall|i: int| 0 <= i < offsets@.len() ==> #[trigger] in_place(offsets@, i)
                &&& got == records
                &&& remaining == 0
                &&& s.name@ == "Falcon Event Stream (partitioned)"@
                &&& s.ops == records
                &&& times_of(s, lat@)
                &&& s.reliable@
                    == "per-key ordered, no loss (1 partition; more partitions = parallelism, fewer fsyncs/partition)"@
                &&& s.safe@ == ratio(records as nat, records as nat) + " polled back"@
                &&& s.durable@ == "resumed after commit: 0 of "@ + decimal(records as nat)
                    + " redelivered, exactly as committed"@
            },
            Err(m) => if exists|i: int|
                0 <= i < offsets@.len() && !(#[trigger] in_place(offsets@, i)) {
                exists|i: int|
                    0 <= i < offsets@.len() && !(#[trigger] in_place(offsets@, i)) && m@
                        == misplaced(offsets@, i) && forall|j: int|
                        0 <= j < i ==> #[trigger] in_place(offsets@, j)
            } else if got != records {
                m@ == "stream safe check failed: read "@ + ratio(got as nat, records as nat)
            } else {
                remaining != 0 && m@ == "stream durability check failed: after restart, "@
                    + decimal(remaining as nat)
                    + " redelivered, expected 0 (committed offset not durable)"@
            },
        },
{
    match stream_ordered(offsets) {
        Ok(()) => {},
        Err(m) => {
            return Err(m);
        },
    }
    let safe = match stream_read(got, records) {
        Ok(s) => s,
        Err(m) => {
            return Err(m);
        },
    };
    let durable = match stream_resumed(remaining, records) {
        Ok(s) => s,
        Err(m) => {
            return Err(m);
        },
    };
    let (p50, p99, max) = percentiles(lat);
    Ok(
        SubResult {
            name: "Falcon Event Stream (partitioned)",
            ops: records as u64,
            p50_us: p50,
            p99_us: p99,
            max_us: max,
            reliable:
                "per-key ordered, no loss (1 partition; more partitions = parallelism, fewer fsyncs/partition)".to_owned(),
            safe,
            durable,
        },
    )
}

/// The configuration of the live-update benchmark's node.
pub fn realtime_config() -> (c: &'static str)
    ensures
        c@
            == "[subscriptions]\nenabled = true\n[[keyspace]]\nname = \"default\"\ntier = \"warm\"\nsubscriptions = true\n"@,
{
    "[subscriptions]\nenabled = true\n[[keyspace]]\nname = \"default\"\ntier = \"warm\"\nsubscriptions = true\n"
}

/// What a subscriber gets while it waits for an update.
#[derive(Debug)]
pub enum SocketEvent {
    Text(String),
    /// Any other frame.
    Other,
    Failed(String),
    Closed,
    Timeout,
}

/// What a subscriber does next.
#[derive(Clone, Copy, Debug, PartialEq, Eq, Structural)]
pub enum WaitStep {
    Notified,
    KeepWaiting,
}

/// What a benchmark does while its node starts.
#[derive(Clone, Copy, Debug, PartialEq, Eq, Structural)]
pub enum ReadyStep {
    Ready,
    /// Ask again after this time.
    Again { ms: u64 },
}

/// How often a node that starts is asked whether it is up.
pub const READY_TRIES: usize = 50;

/// What follows the `attempt`-th question, counted from 0, whether the node
/// `answered` that it is up. A node that does not is given up in the end.
pub fn ready_step(attempt: usize, answered: bool, base_url: &str) -> (r: Result<ReadyStep, String>)
    ensures
        if answered {
            r == Ok::<ReadyStep, String>(ReadyStep::Ready)
        } else if attempt + 1 < READY_TRIES {
            r == Ok::<ReadyStep, String>(ReadyStep::Again { ms: 100 })
        } else {
            r matches Err(m) && m@ == "kvstored did not become ready at "@ + base_url@ + " in time"@
        },
{
    if answered {
        Ok(ReadyStep::Ready)
    } else if attempt < READY_TRIES - 1 {
        Ok(ReadyStep::Again { ms: 100 })
    } else {
        Err(concat3("kvstored did not become ready at ", base_url, " in time"))
    }
}

/// Whether an event ends a subscriber's wait. `under_load` says whether
/// others are waiting too.
pub fn wait_for_update(event: SocketEvent, under_load: bool) -> (r: Result<WaitStep, String>)
    ensures
        match event {
            SocketEvent::Text(t) => r == Ok::<WaitStep, String>(
                if occurs(t@, "update"@) {
                    WaitStep::Notified
                } else {
                    WaitStep::KeepWaiting
                },
            ),
            SocketEvent::Other => r == Ok::<WaitStep, String>(WaitStep::KeepWaiting),
            SocketEvent::Failed(e) => r matches Err(m) && m@ == if under_load {
                "no notify within 3s under load"@
            } else {
                "ws error: "@ + e@
            },
            SocketEvent::Closed => r matches Err(m) && m@ == if under_load {
                "no notify within 3s under load"@
            } else {
                "ws closed early"@
            },
            SocketEvent::Timeout => r matches Err(m) && m@ == if under_load {
                "no notify within 3s under load"@
            } else {
                "realtime reliability check failed: no notify within 2s"@
            },
        },
{
    match event {
        SocketEvent::Text(t) => if contains(t.as_str(), "update") {
            Ok(WaitStep::Notified)
        } else {
            Ok(WaitStep::KeepWaiting)
        },
        SocketEvent::Other => Ok(WaitStep::KeepWaiting),
        SocketEvent::Failed(e) => if under_load {
            Err("no notify within 3s under load".to_owned())
        } else {
            Err("ws error: ".to_owned().concat(e.as_str()))
        },
        SocketEvent::Closed => if under_load {
            Err("no notify within 3s under load".to_owned())
        } else {
            Err("ws closed early".to_owned())
        },
        SocketEvent::Timeout => if under_load {
            Err("no notify within 3s under load".to_owned())
        } else {
            Err("realtime reliability check failed: no notify within 2s".to_owned())
        },
    }
}

/// Subscribers of the live-update benchmark.
pub const REALTIME_CONNS: usize = 32;

/// Writers of the replication benchmark.
pub const REGION_CONNS: usize = 16;

/// How many requests each connection makes of so many, at least 20.
pub open spec fn share_of(total: nat, conns: nat) -> nat {
    if total / conns > 20 {
        total / conns
    } else {
        20
    }
}

pub fn per_conn(total: usize, conns: usize) -> (n: usize)
    requires
        conns > 0,
    ensures
        n == share_of(total as nat, conns as nat),
{
    at_least(share(total, conns), 20)
}

/// How many updates the live-update benchmark expects.
pub fn realtime_expected(events: usize) -> (n: usize)
    ensures
        n == share_of(events as nat, 32) * 32,
{
    per_conn(events, REALTIME_CONNS) * REALTIME_CONNS
}

/// The live-update benchmark, from how many updates came.
pub fn bench_realtime(events: usize, notified: usize, lat: Vec<u64>) -> (r: Result<
    SubResult,
    String,
>)
    ensures
        ({
            let expected = share_of(events as nat, 32) * 32;
            match r {
                Ok(s) => {
                    &&& notified == expected
                    &&& s.name@ == "Falcon KV Store real-time (WebSocket notify)"@
                    &&& s.ops == expected
                    &&& times_of(s, lat@)
                    &&& s.reliable@ == ratio(notified as nat, expected)
                        + " writes notified (32 concurrent subs)"@
                    &&& s.safe@ == "no dropped/duplicated notifications"@
                    &&& s.durable@ == "n/a (live notify; underlying KV write is durable)"@
                },
                Err(m) => notified != expected && m@ == "realtime reliability check failed: "@
                    + ratio(notified as nat, expected) + " notifies delivered"@,
            }
        }),
{
    let expected: usize = realtime_expected(events);
    let counted = show_ratio(notified, expected);
    if notified != expected {
        return Err(
            concat3("realtime reliability check failed: ", counted.as_str(), " notifies delivered"),
        );
    }
    let (p50, p99, max) = percentiles(lat);
    Ok(
        SubResult {
            name: "Falcon KV Store real-time (WebSocket notify)",
            ops: expected as u64,
            p50_us: p50,
            p99_us: p99,
            max_us: max,
            reliable: counted.concat(" writes notified (32 concurrent subs)"),
            safe: "no dropped/duplicated notifications".to_owned(),
            durable: "n/a (live notify; underlying KV write is durable)".to_owned(),
        },
    )
}

/// The configuration of a leader that serves replication on a port.
pub fn leader_config(grpc: u16) -> (c: String)
    ensures
        c@ == "[replication]\nenabled = true\nrole = \"leader\"\ngrpc_bind = \"127.0.0.1:"@
            + decimal(grpc as nat)
            + "\"\n[[keyspace]]\nname = \"default\"\ntier = \"warm\"\nreplication = true\n"@,
{
    concat3(
        "[replication]\nenabled = true\nrole = \"leader\"\ngrpc_bind = \"127.0.0.1:",
        show(grpc as u128).as_str(),
        "\"\n[[keyspace]]\nname = \"default\"\ntier = \"warm\"\nreplication = true\n",
    )
}

/// The configuration of a follower of that leader; its own port lies a
/// hundred further.
pub fn follower_config(leader_grpc: u16) -> (c: String)
    requires
        leader_grpc + 100 <= u16::MAX,
    ensures
        c@ == "[replication]\nenabled = true\nrole = \"follower\"\ngrpc_bind = \"127.0.0.1:"@
            + decimal((leader_grpc + 100) as nat) + "\"\nleader_addr = \"http://127.0.0.1:"@
            + decimal(leader_grpc as nat)
            + "\"\n[[keyspace]]\nname = \"default\"\ntier = \"warm\"\nreplication = true\n"@,
{
    concat3(
        "[replication]\nenabled = true\nrole = \"follower\"\ngrpc_bind = \"127.0.0.1:",
        show((leader_grpc + 100) as u128).as_str(),
        "\"\nleader_addr = \"http://127.0.0.1:",
    ).concat(show(leader_grpc as u128).as_str()).concat(
        "\"\n[[keyspace]]\nname = \"default\"\ntier = \"warm\"\nreplication = true\n",
    )
}

/// The configuration of a node that syncs its store at intervals.
pub fn interval_config(bind: &str, wire: &str, data_dir: &str, interval_ms: u64) -> (c: String)
    ensures
        c@ == "[http]\nbind = \""@ + bind@ + "\"\n[wire]\nbind = \""@ + wire@
            + "\"\n[storage]\ndata_dir = \""@ + data_dir@
            + "\"\n[[keyspace]]\nname = \"default\"\ntier = \"warm\"\ninterval_fsync_ms = "@
            + decimal(interval_ms as nat) + "\n"@,
{
    concat3("[http]\nbind = \"", bind, "\"\n[wire]\nbind = \"").concat(wire).concat(
        "\"\n[storage]\ndata_dir = \"",
    ).concat(data_dir).concat(
        "\"\n[[keyspace]]\nname = \"default\"\ntier = \"warm\"\ninterval_fsync_ms = ",
    ).concat(show(interval_ms as u128).as_str()).concat("\n")
}

/// What to do about a follower that is catching up.
#[derive(Clone, Copy, Debug, PartialEq, Eq, Structural)]
pub enum Convergence {
    Done,
    /// Look again after this many milliseconds.
    Wait { ms: u64 },
}

/// Whether a follower has what its leader has; it is given thirty seconds.
pub fn converged(count: usize, leader_count: usize, elapsed_ms: u64) -> (r: Result<
    Convergence,
    String,
>)
    ensures
        if count >= leader_count {
            r == Ok::<Convergence, String>(Convergence::Done)
        } else if elapsed_ms > 30_000 {
            r matches Err(m) && m@ == "multi-region reliability check failed: only "@ + ratio(
                count as nat,
                leader_count as nat,
            ) + " converged in 30s"@
        } else {
            r == Ok::<Convergence, String>(Convergence::Wait { ms: 5 })
        },
{
    if count >= leader_count {
        Ok(Convergence::Done)
    } else if elapsed_ms > 30_000 {
        Err(
            concat3(
                "multi-region reliability check failed: only ",
                show_ratio(count, leader_count).as_str(),
                " converged in 30s",
            ),
        )
    } else {
        Ok(Convergence::Wait { ms: 5 })
    }
}

/// The replication benchmark, once the follower has caught up. `took_ms` is
/// the time that took, as it is shown.
pub fn bench_multiregion(
    writes: usize,
    count: usize,
    leader_count: usize,
    convergence_us: u64,
    took_ms: &str,
) -> (s: SubResult)
    ensures
        s.name@ == "Multi-region replication (leader→follower)"@,
        s.ops == share_of(writes as nat, 16) * 16,
        s.p50_us == 0,
        s.p99_us == 0,
        s.max_us == convergence_us,
        s.reliable@ == ratio(count as nat, leader_count as nat)
            + " converged, none lost (16 concurrent writers; batch converged in "@ + took_ms@
            + "ms)"@,
        s.safe@ == "follower matches leader value"@,
        s.durable@ == "both nodes persist the WAL independently"@,
{
    let total: usize = per_conn(writes, REGION_CONNS) * REGION_CONNS;
    SubResult {
        name: "Multi-region replication (leader→follower)",
        ops: total as u64,
        p50_us: 0,
        p99_us: 0,
        max_us: convergence_us,
        reliable: show_ratio(count, leader_count).concat(
            " converged, none lost (16 concurrent writers; batch converged in ",
        ).concat(took_ms).concat("ms)"),
        safe: "follower matches leader value".to_owned(),
        durable: "both nodes persist the WAL independently".to_owned(),
    }
}

impl SubResult {
    /// The lines of a report after those with times in them.
    pub open spec fn verdicts(&self) -> Seq<Seq<char>> {
        verdict("  RELIABLE : "@, self.reliable@) + verdict("  SAFE     : "@, self.safe@) + verdict(
            "  DURABLE  : "@,
            self.durable@,
        )
    }

    pub fn verdict_lines(&self) -> (lines: Vec<String>)
        ensures
            views(lines@) == self.verdicts(),
    {
        let mut out: Vec<String> = Vec::new();
        assert(views(out@) =~= Seq::empty());
        push_verdict(&mut out, "  RELIABLE : ", &self.reliable);
        push_verdict(&mut out, "  SAFE     : ", &self.safe);
        push_verdict(&mut out, "  DURABLE  : ", &self.durable);
        assert(views(out@) =~= self.verdicts());
        out
    }
}

/// A line of a report; none where there is nothing to say.
pub open spec fn verdict(label: Seq<char>, text: Seq<char>) -> Seq<Seq<char>> {
    if text.len() == 0 {
        Seq::empty()
    } else {
        seq![label + text]
    }
}

fn push_verdict(out: &mut Vec<String>, label: &str, text: &String)
    ensures
        views(final(out)@) == views(old(out)@) + verdict(label@, text@),
{
    let ghost before = views(out@);
    if !is_blank(text) {
        out.push(label.to_owned().concat(text.as_str()));
    }
    assert(views(out@) =~= before + verdict(label@, text@));
}

/// A reply of the wire protocol.
#[derive(Debug)]
pub struct Reply {
    pub status: u8,
    pub payload: Vec<u8>,
}

/// A reply's status and the length of what follows, from its first five
/// bytes.
pub fn reply_header(header: &[u8]) -> (r: (u8, u32))
    requires
        header@.len() == 5,
    ensures
        r.0 == header@[0],
        r.1 == le_value(header@.subrange(1, 5)),
{
    proof {
        crate::bytes::lemma_be_value(header@.subrange(1, 5).reverse());
        crate::bytes::lemma_be_limits();
    }
    let len: u128 = get_le(header, 1, 4);
    (header[0], len as u32)
}

/// A message of a queue from a reply that carries one: its offset and what it
/// holds.
pub fn reply_message(payload: &[u8]) -> (r: (u64, Vec<u8>))
    requires
        payload@.len() >= 8,
    ensures
        r.0 == le_value(payload@.subrange(0, 8)),
        r.1@ == payload@.skip(8),
{
    proof {
        crate::bytes::lemma_be_value(payload@.subrange(0, 8).reverse());
        crate::bytes::lemma_be_limits();
    }
    let offset: u128 = get_le(payload, 0, 8);
    let rest = slice_to_vec(slice_subrange(payload, 8, payload.len()));
    assert(rest@ =~= payload@.skip(8));
    (offset as u64, rest)
}

/// Where a stream stored a record, from the reply to an append: its partition
/// and offset.
pub fn reply_stored(payload: &[u8]) -> (r: (u32, u64))
    requires
        payload@.len() >= 12,
    ensures
        r.0 == le_value(payload@.subrange(0, 4)),
        r.1 == le_value(payload@.subrange(4, 12)),
{
    proof {
        crate::bytes::lemma_be_value(payload@.subrange(0, 4).reverse());
        crate::bytes::lemma_be_value(payload@.subrange(4, 12).reverse());
        crate::bytes::lemma_be_limits();
    }
    let partition: u128 = get_le(payload, 0, 4);
    let offset: u128 = get_le(payload, 4, 8);
    (partition as u32, offset as u64)
}

/// A percentile is the value at its rank, to the nearest, of all the values in
/// order, and the largest the last of them.
pub proof fn law_percentile_is_the_value_at_its_rank(v: Seq<u64>, sorted: Seq<u64>, percent: nat)
    requires
        v.len() > 0,
        percent <= 100,
        sorted.to_multiset() == v.to_multiset(),
        forall|i: int, j: int| 0 <= i < j < sorted.len() ==> sorted[i] <= sorted[j],
    ensures
        percentile(v, percent) == sorted[((v.len() - 1) * percent + 50) / 100],
        largest(v) == sorted.last(),
{
    lemma_in_order(v);
    lemma_order_is_unique(in_order(v), sorted);
}

/// Without any values, percentiles and the largest are nothing.
pub proof fn law_no_values_no_percentiles(percent: nat)
    ensures
        percentile(Seq::empty(), percent) == 0,
        largest(Seq::empty()) == 0,
{
}

/// A result has the median, the 99th percentile and the largest of its times.
pub proof fn law_times_of_a_result(r: SubResult, lat: Seq<u64>)
    ensures
        times_of(r, lat) <==> r.p50_us == percentile(lat, 50) && r.p99_us == percentile(lat, 99)
            && r.max_us == largest(lat),
{
}

/// Records of one key are in place where all are in one partition and each
/// offset is larger than the one before it; else the failure says which.
pub proof fn law_records_in_place(offsets: Seq<(u32, u64)>, i: int)
    requires
        0 <= i < offsets.len(),
    ensures
        in_place(offsets, i) <==> offsets[i].0 == offsets[0].0 && (if i == 0 {
            offsets[0].1 > 0
        } else {
            offsets[i].1 > offsets[i - 1].1
        }),
        offsets[i].0 != offsets[0].0 ==> misplaced(offsets, i)
            == "stream ordering check failed: key spread across partitions"@,
        offsets[i].0 == offsets[0].0 && i > 0 ==> misplaced(offsets, i)
            == "stream ordering check failed: offset "@ + decimal(offsets[i].1 as nat) + " not > "@
            + decimal(offsets[i - 1].1 as nat),
        offset_before(offsets, 0) == 0,
{
}

/// A job is counted where it was not counted yet, and the others stay.
pub proof fn law_jobs_are_counted_once(seen: Seq<Seq<u8>>, job: Seq<u8>)
    ensures
        seen.contains(job) ==> with_job(seen, job) == seen,
        !seen.contains(job) ==> with_job(seen, job) == seen.push(job),
{
}

/// Work is shared out evenly, with at least twenty to each connection.
pub proof fn law_work_is_shared_out(total: nat, conns: nat)
    requires
        conns > 0,
    ensures
        share_of(total, conns) >= 20,
        share_of(total, conns) >= total / conns,
        share_of(total, conns) == 20 || share_of(total, conns) == total / conns,
        READY_TRIES == 50,
        REALTIME_CONNS == 32,
        REGION_CONNS == 16,
{
}

/// A result shows what it has to say of each of the three, and nothing of what
/// it says nothing of; a count is shown as so many of so many.
pub proof fn law_verdicts_are_shown(r: SubResult, label: Seq<char>, text: Seq<char>, a: nat, b: nat)
    ensures
        text.len() == 0 ==> verdict(label, text).len() == 0,
        text.len() > 0 ==> verdict(label, text) == seq![label + text],
        r.verdicts() == verdict("  RELIABLE : "@, r.reliable@) + verdict("  SAFE     : "@, r.safe@)
            + verdict("  DURABLE  : "@, r.durable@),
        ratio(a, b) == decimal(a) + "/"@ + decimal(b),
{
}

} // verus!
