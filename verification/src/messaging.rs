//! The messaging of a node: its topics, queues and streams, and where their
//! files lie.

use crate::named::{by_name, Named};
use crate::queue::{queue_file, queue_file_name};
use crate::stream::{partition_count_of, partition_file, stream_dir};
use crate::text::{path_join, path_joined, views};
use crate::topic::{topic_file, topic_file_name, TopicMode};
use vstd::prelude::*;

verus! {

/// What a topic is set up with.
#[derive(Clone, Debug)]
pub struct TopicSpec {
    pub name: String,
    pub mode: TopicMode,
    pub capacity: usize,
}

/// What a queue is set up with.
#[derive(Clone, Debug)]
pub struct QueueSpec {
    pub name: String,
    /// Nanoseconds until an unacknowledged message is delivered again.
    pub ack_timeout: u128,
}

/// What a stream is set up with.
#[derive(Clone, Debug)]
pub struct StreamSpec {
    pub name: String,
    pub partitions: usize,
    pub capacity: usize,
    /// 0 syncs every append; else appends are synced in this interval.
    pub interval_fsync_ms: u64,
}

/// The directory of all topics.
pub open spec fn topics_dir(data_dir: Seq<char>) -> Seq<char> {
    path_joined(data_dir, "pubsub"@)
}

/// The directory of all queues.
pub open spec fn queues_dir(data_dir: Seq<char>) -> Seq<char> {
    path_joined(data_dir, "queue"@)
}

/// The directory of all streams.
pub open spec fn streams_dir(data_dir: Seq<char>) -> Seq<char> {
    path_joined(data_dir, "stream"@)
}

/// The directory in which older nodes kept all messaging files.
pub open spec fn legacy_dir(data_dir: Seq<char>) -> Seq<char> {
    path_joined(data_dir, "messaging"@)
}

pub open spec fn topic_path(data_dir: Seq<char>, name: Seq<char>) -> Seq<char> {
    path_joined(topics_dir(data_dir), topic_file_name(name))
}

pub open spec fn queue_path(data_dir: Seq<char>, name: Seq<char>) -> Seq<char> {
    path_joined(queues_dir(data_dir), queue_file_name(name))
}

pub open spec fn stream_path(data_dir: Seq<char>, name: Seq<char>) -> Seq<char> {
    path_joined(streams_dir(data_dir), "stream_"@ + name)
}

/// A file or directory of an older node, and where it belongs now. It is
/// moved where it exists and the new place is free.
#[derive(Debug)]
pub struct Move {
    pub from: String,
    pub to: String,
}

impl View for Move {
    type V = (Seq<char>, Seq<char>);

    open spec fn view(&self) -> (Seq<char>, Seq<char>) {
        (self.from@, self.to@)
    }
}

/// What is done with the file system before messaging starts.
#[derive(Debug)]
pub struct BuildPlan {
    /// Directories to create.
    pub dirs: Vec<String>,
    /// Files and directories of an older node to move.
    pub moves: Vec<Move>,
    /// The log file of each topic.
    pub topic_files: Vec<String>,
    /// The log file of each queue.
    pub queue_files: Vec<String>,
    /// The directory of each stream.
    pub stream_dirs: Vec<String>,
}

pub open spec fn move_views(v: Seq<Move>) -> Seq<(Seq<char>, Seq<char>)> {
    v.map_values(|m: Move| m@)
}

/// The moves that upgrade an older node with the given topics, queues and
/// streams.
pub open spec fn upgrade_moves(
    data_dir: Seq<char>,
    topics: Seq<TopicSpec>,
    queues: Seq<QueueSpec>,
    streams: Seq<StreamSpec>,
) -> Seq<(Seq<char>, Seq<char>)> {
    let legacy = legacy_dir(data_dir);
    topics.map_values(
        |t: TopicSpec|
            (path_joined(legacy, topic_file_name(t.name@)), topic_path(data_dir, t.name@)),
    ) + queues.map_values(
        |q: QueueSpec|
            (path_joined(legacy, queue_file_name(q.name@)), queue_path(data_dir, q.name@)),
    ) + streams.map_values(
        |s: StreamSpec|
            (path_joined(legacy, "stream_"@ + s.name@), stream_path(data_dir, s.name@)),
    )
}

/// Where the files of messaging lie. Each product has a directory of its own,
/// so that a topic and a stream of one name never share a file.
pub fn build_plan(
    data_dir: &str,
    topics: &Vec<TopicSpec>,
    queues: &Vec<QueueSpec>,
    streams: &Vec<StreamSpec>,
) -> (p: BuildPlan)
    ensures
        views(p.dirs@) == seq![
            topics_dir(data_dir@),
            queues_dir(data_dir@),
            streams_dir(data_dir@),
        ],
        move_views(p.moves@) == upgrade_moves(data_dir@, topics@, queues@, streams@),
        views(p.topic_files@) == topics@.map_values(|t: TopicSpec| topic_path(data_dir@, t.name@)),
        views(p.queue_files@) == queues@.map_values(|q: QueueSpec| queue_path(data_dir@, q.name@)),
        views(p.stream_dirs@) == streams@.map_values(
            |s: StreamSpec| stream_path(data_dir@, s.name@),
        ),
{
    let topic_dir = path_join(data_dir, "pubsub");
    let queue_dir = path_join(data_dir, "queue");
    let streams_root = path_join(data_dir, "stream");
    let legacy = path_join(data_dir, "messaging");
    let mut moves: Vec<Move> = Vec::new();
    let mut topic_files: Vec<String> = Vec::new();
    let mut queue_files: Vec<String> = Vec::new();
    let mut stream_dirs: Vec<String> = Vec::new();
    let ghost all = upgrade_moves(data_dir@, topics@, queues@, streams@);

    let mut i: usize = 0;
    while i < topics.len()
        invariant
            i <= topics.len(),
            topic_dir@ == topics_dir(data_dir@),
            legacy@ == legacy_dir(data_dir@),
            all == upgrade_moves(data_dir@, topics@, queues@, streams@),
            moves@.len() == i,
            topic_files@.len() == i,
            forall|j: int| 0 <= j < i ==> (#[trigger] moves@[j])@ == all[j],
            forall|j: int|
                0 <= j < i ==> (#[trigger] topic_files@[j])@ == topic_path(
                    data_dir@,
                    topics@[j].name@,
                ),
        decreases topics.len() - i,
    {
        let file = topic_file(topics[i].name.as_str());
        let to = path_join(topic_dir.as_str(), file.as_str());
        topic_files.push(to.clone());
        moves.push(Move { from: path_join(legacy.as_str(), file.as_str()), to });
        i = i + 1;
    }
    let ghost n = topics@.len();
    let mut i: usize = 0;
    while i < queues.len()
        invariant
            i <= queues.len(),
            n == topics@.len(),
            queue_dir@ == queues_dir(data_dir@),
            legacy@ == legacy_dir(data_dir@),
            all == upgrade_moves(data_dir@, topics@, queues@, streams@),
            moves@.len() == n + i,
            queue_files@.len() == i,
            forall|j: int| 0 <= j < n + i ==> (#[trigger] moves@[j])@ == all[j],
            forall|j: int|
                0 <= j < i ==> (#[trigger] queue_files@[j])@ == queue_path(
                    data_dir@,
                    queues@[j].name@,
                ),
        decreases queues.len() - i,
    {
        let file = queue_file(queues[i].name.as_str());
        let to = path_join(queue_dir.as_str(), file.as_str());
        queue_files.push(to.clone());
        moves.push(Move { from: path_join(legacy.as_str(), file.as_str()), to });
        i = i + 1;
    }
    let ghost m = topics@.len() + queues@.len();
    let mut i: usize = 0;
    while i < streams.len()
        invariant
            i <= streams.len(),
            m == topics@.len() + queues@.len(),
            streams_root@ == streams_dir(data_dir@),
            legacy@ == legacy_dir(data_dir@),
            all == upgrade_moves(data_dir@, topics@, queues@, streams@),
            moves@.len() == m + i,
            stream_dirs@.len() == i,
            forall|j: int| 0 <= j < m + i ==> (#[trigger] moves@[j])@ == all[j],
            forall|j: int|
                0 <= j < i ==> (#[trigger] stream_dirs@[j])@ == stream_path(
                    data_dir@,
                    streams@[j].name@,
                ),
        decreases streams.len() - i,
    {
        let file = stream_dir(streams[i].name.as_str());
        let to = path_join(streams_root.as_str(), file.as_str());
        stream_dirs.push(to.clone());
        moves.push(Move { from: path_join(legacy.as_str(), file.as_str()), to });
        i = i + 1;
    }
    let mut dirs: Vec<String> = Vec::new();
    dirs.push(topic_dir);
    dirs.push(queue_dir);
    dirs.push(streams_root);
    let p = BuildPlan { dirs, moves, topic_files, queue_files, stream_dirs };
    proof {
        assert(views(p.dirs@) =~= seq![
            topics_dir(data_dir@),
            queues_dir(data_dir@),
            streams_dir(data_dir@),
        ]);
        assert(move_views(p.moves@) =~= all);
        assert(views(p.topic_files@) =~= topics@.map_values(
            |t: TopicSpec| topic_path(data_dir@, t.name@),
        ));
        assert(views(p.queue_files@) =~= queues@.map_values(
            |q: QueueSpec| queue_path(data_dir@, q.name@),
        ));
        assert(views(p.stream_dirs@) =~= streams@.map_values(
            |s: StreamSpec| stream_path(data_dir@, s.name@),
        ));
    }
    p
}

/// The directory of the groups' offset files, in the stream's directory.
pub fn offsets_dir(stream_dir: &str) -> (d: String)
    ensures
        d@ == path_joined(stream_dir@, "offsets"@),
{
    path_join(stream_dir, "offsets")
}

/// The log files of a stream's partitions, in order, in its directory.
pub fn partition_files(dir: &str, partitions: usize) -> (out: Vec<String>)
    ensures
        out@.len() == if partitions == 0 {
            1
        } else {
            partitions as nat
        },
        forall|i: int|
            0 <= i < out@.len() ==> (#[trigger] out@[i])@ == path_joined(
                dir@,
                "partition_"@ + crate::text::decimal(i as nat) + ".log"@,
            ),
{
    let n: usize = partition_count_of(partitions);
    let mut out: Vec<String> = Vec::new();
    let mut i: usize = 0;
    while i < n
        invariant
            i <= n,
            out@.len() == i,
            forall|j: int|
                0 <= j < i ==> (#[trigger] out@[j])@ == path_joined(
                    dir@,
                    "partition_"@ + crate::text::decimal(j as nat) + ".log"@,
                ),
        decreases n - i,
    {
        out.push(path_join(dir, partition_file(i).as_str()));
        i = i + 1;
    }
    out
}

/// The topics, queues and streams of a node under their names, as handles of
/// whatever sort the node shares them by.
#[verifier::reject_recursive_types(T)]
#[verifier::reject_recursive_types(Q)]
#[verifier::reject_recursive_types(S)]
pub struct Messaging<T, Q, S> {
    topics: Named<T>,
    queues: Named<Q>,
    streams: Named<S>,
}

impl<T, Q, S> Messaging<T, Q, S> {
    pub closed spec fn topics(&self) -> Map<Seq<char>, T> {
        self.topics@
    }

    pub closed spec fn queues(&self) -> Map<Seq<char>, Q> {
        self.queues@
    }

    pub closed spec fn streams(&self) -> Map<Seq<char>, S> {
        self.streams@
    }

    /// What stays true: the names that are listed are the names there are.
    pub closed spec fn wf(&self) -> bool {
        self.topics.wf() && self.queues.wf() && self.streams.wf()
    }

    pub fn build(
        topics: Vec<(String, T)>,
        queues: Vec<(String, Q)>,
        streams: Vec<(String, S)>,
    ) -> (m: Self)
        ensures
            m.wf(),
            m.topics() == by_name(topics@),
            m.queues() == by_name(queues@),
            m.streams() == by_name(streams@),
    {
        Messaging {
            topics: Named::of(topics),
            queues: Named::of(queues),
            streams: Named::of(streams),
        }
    }

    pub fn topic(&self, name: &str) -> (r: Option<&T>)
        ensures
            match r {
                Some(t) => self.topics().contains_key(name@) && *t == self.topics()[name@],
                None => !self.topics().contains_key(name@),
            },
    {
        self.topics.get(name)
    }

    pub fn queue(&self, name: &str) -> (r: Option<&Q>)
        ensures
            match r {
                Some(q) => self.queues().contains_key(name@) && *q == self.queues()[name@],
                None => !self.queues().contains_key(name@),
            },
    {
        self.queues.get(name)
    }

    pub fn stream(&self, name: &str) -> (r: Option<&S>)
        ensures
            match r {
                Some(s) => self.streams().contains_key(name@) && *s == self.streams()[name@],
                None => !self.streams().contains_key(name@),
            },
    {
        self.streams.get(name)
    }

    /// The names of the topics, each once.
    pub fn topic_names(&self) -> (out: Vec<String>)
        requires
            self.wf(),
        ensures
            views(out@).no_duplicates(),
            forall|n: Seq<char>| #[trigger]
                views(out@).contains(n) <==> self.topics().contains_key(n),
    {
        self.topics.names()
    }

    /// The names of the queues, each once.
    pub fn queue_names(&self) -> (out: Vec<String>)
        requires
            self.wf(),
        ensures
            views(out@).no_duplicates(),
            forall|n: Seq<char>| #[trigger]
                views(out@).contains(n) <==> self.queues().contains_key(n),
    {
        self.queues.names()
    }

    /// The names of the streams, each once.
    pub fn stream_names(&self) -> (out: Vec<String>)
        requires
            self.wf(),
        ensures
            views(out@).no_duplicates(),
            forall|n: Seq<char>| #[trigger]
                views(out@).contains(n) <==> self.streams().contains_key(n),
    {
        self.streams.names()
    }

    pub fn is_empty(&self) -> (r: bool)
        ensures
            r == (self.topics().is_empty() && self.queues().is_empty() && self.streams().is_empty()),
    {
        self.topics.is_empty() && self.queues.is_empty() && self.streams.is_empty()
    }
}

/// What a directory's path puts before the paths in it.
spec fn base(dir: Seq<char>) -> Seq<char> {
    if dir.len() == 0 || dir.last() == '/' {
        dir
    } else {
        dir.push('/')
    }
}

proof fn lemma_below(dir: Seq<char>, first: Seq<char>, second: Seq<char>)
    requires
        first.len() > 0,
        first[0] != '/',
        second.len() > 0,
        second[0] != '/',
    ensures
        ({
            let p = path_joined(path_joined(dir, first), second);
            &&& p.len() > base(dir).len()
            &&& p[base(dir).len() as int] == first[0]
            &&& p == base(path_joined(dir, first)) + second
        }),
{
    assert(path_joined(dir, first) =~= base(dir) + first);
}

/// Topics, queues and streams never share a file, whatever their names.
pub proof fn law_products_use_separate_files(
    data_dir: Seq<char>,
    topic: Seq<char>,
    queue: Seq<char>,
    stream: Seq<char>,
)
    ensures
        topic_path(data_dir, topic) != queue_path(data_dir, queue),
        topic_path(data_dir, topic) != stream_path(data_dir, stream),
        queue_path(data_dir, queue) != stream_path(data_dir, stream),
{
    reveal_strlit("pubsub");
    reveal_strlit("queue");
    reveal_strlit("stream");
    reveal_strlit("topic_");
    reveal_strlit("queue_");
    reveal_strlit("stream_");
    assert(topic_file_name(topic)[0] == 't');
    assert(queue_file_name(queue)[0] == 'q');
    assert(("stream_"@ + stream)[0] == 's');
    lemma_below(data_dir, "pubsub"@, topic_file_name(topic));
    lemma_below(data_dir, "queue"@, queue_file_name(queue));
    lemma_below(data_dir, "stream"@, "stream_"@ + stream);
}

/// Topics of different names have different files, and so have queues and
/// streams.
pub proof fn law_names_have_own_files(data_dir: Seq<char>, a: Seq<char>, b: Seq<char>)
    requires
        a != b,
    ensures
        topic_path(data_dir, a) != topic_path(data_dir, b),
        queue_path(data_dir, a) != queue_path(data_dir, b),
        stream_path(data_dir, a) != stream_path(data_dir, b),
{
    reveal_strlit("pubsub");
    reveal_strlit("queue");
    reveal_strlit("stream");
    reveal_strlit("topic_");
    reveal_strlit("queue_");
    reveal_strlit("stream_");
    assert(topic_file_name(a)[0] == 't' && topic_file_name(b)[0] == 't');
    assert(queue_file_name(a)[0] == 'q' && queue_file_name(b)[0] == 'q');
    assert(("stream_"@ + a)[0] == 's' && ("stream_"@ + b)[0] == 's');
    lemma_below(data_dir, "pubsub"@, topic_file_name(a));
    lemma_below(data_dir, "pubsub"@, topic_file_name(b));
    lemma_below(data_dir, "queue"@, queue_file_name(a));
    lemma_below(data_dir, "queue"@, queue_file_name(b));
    lemma_below(data_dir, "stream"@, "stream_"@ + a);
    lemma_below(data_dir, "stream"@, "stream_"@ + b);
    lemma_middle(base(topics_dir(data_dir)) + "topic_"@, a, b, ".log"@);
    lemma_middle(base(queues_dir(data_dir)) + "queue_"@, a, b, ".log"@);
    lemma_middle(base(streams_dir(data_dir)) + "stream_"@, a, b, Seq::empty());
    assert(base(topics_dir(data_dir)) + topic_file_name(a) =~= base(topics_dir(data_dir))
        + "topic_"@ + a + ".log"@);
    assert(base(topics_dir(data_dir)) + topic_file_name(b) =~= base(topics_dir(data_dir))
        + "topic_"@ + b + ".log"@);
    assert(base(queues_dir(data_dir)) + queue_file_name(a) =~= base(queues_dir(data_dir))
        + "queue_"@ + a + ".log"@);
    assert(base(queues_dir(data_dir)) + queue_file_name(b) =~= base(queues_dir(data_dir))
        + "queue_"@ + b + ".log"@);
    assert(base(streams_dir(data_dir)) + ("stream_"@ + a) =~= base(streams_dir(data_dir))
        + "stream_"@ + a + Seq::<char>::empty());
    assert(base(streams_dir(data_dir)) + ("stream_"@ + b) =~= base(streams_dir(data_dir))
        + "stream_"@ + b + Seq::<char>::empty());
}

proof fn lemma_middle(head: Seq<char>, a: Seq<char>, b: Seq<char>, tail: Seq<char>)
    requires
        a != b,
    ensures
        head + a + tail != head + b + tail,
{
    let x = head + a + tail;
    let y = head + b + tail;
    if x == y {
        assert(x.len() == head.len() + a.len() + tail.len());
        assert(y.len() == head.len() + b.len() + tail.len());
        assert(x.subrange(head.len() as int, (head.len() + a.len()) as int) =~= a);
        assert(y.subrange(head.len() as int, (head.len() + b.len()) as int) =~= b);
    }
}

/// Each product's files lie in the product's own directory, under the name of
/// what they hold.
pub proof fn law_messaging_paths(data_dir: Seq<char>, name: Seq<char>)
    ensures
        topics_dir(data_dir) == path_joined(data_dir, "pubsub"@),
        queues_dir(data_dir) == path_joined(data_dir, "queue"@),
        streams_dir(data_dir) == path_joined(data_dir, "stream"@),
        topic_path(data_dir, name) == path_joined(
            path_joined(data_dir, "pubsub"@),
            "topic_"@ + name + ".log"@,
        ),
        queue_path(data_dir, name) == path_joined(
            path_joined(data_dir, "queue"@),
            "queue_"@ + name + ".log"@,
        ),
        stream_path(data_dir, name) == path_joined(
            path_joined(data_dir, "stream"@),
            "stream_"@ + name,
        ),
{
}

/// Everything that an older node kept in one directory is moved to where it is
/// looked for: every topic, queue and stream.
pub proof fn law_older_files_are_moved(
    data_dir: Seq<char>,
    topics: Seq<TopicSpec>,
    queues: Seq<QueueSpec>,
    streams: Seq<StreamSpec>,
    i: int,
)
    ensures
        ({
            let all = upgrade_moves(data_dir, topics, queues, streams);
            let old_dir = path_joined(data_dir, "messaging"@);
            &&& all.len() == topics.len() + queues.len() + streams.len()
            &&& 0 <= i < topics.len() ==> all[i] == (
                path_joined(old_dir, "topic_"@ + topics[i].name@ + ".log"@),
                topic_path(data_dir, topics[i].name@),
            )
            &&& 0 <= i < queues.len() ==> all[topics.len() + i] == (
                path_joined(old_dir, "queue_"@ + queues[i].name@ + ".log"@),
                queue_path(data_dir, queues[i].name@),
            )
            &&& 0 <= i < streams.len() ==> all[topics.len() + queues.len() + i] == (
                path_joined(old_dir, "stream_"@ + streams[i].name@),
                stream_path(data_dir, streams[i].name@),
            )
        }),
{
}

/// Moves stand for what they hold, one by one.
pub proof fn law_moves_are_what_they_hold(v: Seq<Move>)
    ensures
        move_views(v).len() == v.len(),
        forall|i: int| 0 <= i < v.len() ==> #[trigger] move_views(v)[i] == (v[i].from@, v[i].to@),
{
}

} // verus!
