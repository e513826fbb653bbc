//! The composition of a node: which engine each keyspace opens and where,
//! what messaging is set up with, and the rules of its background work.

use crate::config::{
    Config, KeyspaceConfig, QueueConfig, RemoteBackendConfig, StorageBackend, StreamConfig,
    TierName, TopicConfig, TopicModeConfig, WriteMode,
};
use crate::error::MessagingError;
use crate::named::{by_name, Named};
use crate::messaging::{move_views, Move, QueueSpec, StreamSpec, TopicSpec};
use crate::text::{concat3, is_blank, path_join, path_joined, same, views};
use crate::topic::TopicMode;
use vstd::prelude::*;
use vstd::string::StringExecFns;

verus! {

pub const BYTES_PER_MB: usize = 1_048_576;

pub const NANOS_PER_SEC: u128 = 1_000_000_000;

/// When a log is synced: with every commit, or in an interval.
#[derive(Clone, Copy, Debug, PartialEq, Eq, Structural)]
pub enum SyncPolicy {
    Always,
    IntervalMs(u64),
}

/// Where a sharded store keeps its objects.
#[derive(Debug)]
pub enum ShardStore {
    Local(String),
    Remote(RemoteBackendConfig),
}

/// The engine that a keyspace opens.
#[derive(Debug)]
pub enum EnginePlan {
    Hot,
    Warm { path: String, policy: SyncPolicy },
    Cold { path: String },
    Tiered { path: String, capacity_bytes: usize, evict_sample: usize },
    Sharded { store: ShardStore, buckets: usize, policy: SyncPolicy },
}

/// How a keyspace is set up.
#[derive(Debug)]
pub struct KeyspacePlan {
    pub name: String,
    pub region: String,
    pub engine: EnginePlan,
    /// Whether changes are published.
    pub needs_bus: bool,
    pub default_ttl_secs: u64,
    /// The tie-break of this node's stamps, where several regions write.
    pub multi_leader: Option<String>,
}

pub open spec fn sync_policy(interval_ms: u64) -> SyncPolicy {
    if interval_ms > 0 {
        SyncPolicy::IntervalMs(interval_ms)
    } else {
        SyncPolicy::Always
    }
}

fn policy_of(interval_ms: u64) -> (p: SyncPolicy)
    ensures
        p == sync_policy(interval_ms),
{
    if interval_ms > 0 {
        SyncPolicy::IntervalMs(interval_ms)
    } else {
        SyncPolicy::Always
    }
}

/// The directory of a keyspace's files: its own below the data directory, or
/// the data directory where it has none.
pub open spec fn keyspace_dir(data_dir: Seq<char>, subdir: Seq<char>) -> Seq<char> {
    if subdir.len() == 0 {
        data_dir
    } else {
        path_joined(data_dir, subdir)
    }
}

/// The path of a keyspace's file or directory with the given ending.
pub open spec fn keyspace_path(c: Config, k: KeyspaceConfig, ending: Seq<char>) -> Seq<char> {
    path_joined(keyspace_dir(c.storage.data_dir@, k.storage_subdir@), k.name@ + ending)
}

/// Whether `e` is the engine that a keyspace of a configuration opens.
pub open spec fn is_engine_for(c: Config, k: KeyspaceConfig, e: EnginePlan) -> bool {
    match k.tier {
        TierName::Hot => e is Hot,
        TierName::Warm => e matches EnginePlan::Warm { path, policy } && path@ == keyspace_path(
            c,
            k,
            ".wal"@,
        ) && policy == sync_policy(k.interval_fsync_ms),
        TierName::Cold => e matches EnginePlan::Cold { path } && path@ == keyspace_path(
            c,
            k,
            "_cold"@,
        ),
        TierName::Tiered => e matches EnginePlan::Tiered { path, capacity_bytes, evict_sample }
            && path@ == keyspace_path(c, k, "_tiered"@) && capacity_bytes == k.hot_capacity_mb
            * BYTES_PER_MB && evict_sample == k.evict_sample,
        TierName::Sharded => e matches EnginePlan::Sharded { store, buckets, policy } && buckets
            == k.shard_buckets && policy == sync_policy(k.shard_flush_ms) && match (
            store,
            c.storage.backend,
        ) {
            (ShardStore::Local(path), StorageBackend::Local) => path@ == keyspace_path(
                c,
                k,
                "_shards"@,
            ),
            (ShardStore::Remote(r), StorageBackend::Remote(b)) => {
                &&& r.endpoint_url@ == b.endpoint_url@
                &&& r.region@ == b.region@
                &&& r.bucket@ == b.bucket@
                &&& r.access_key_id@ == b.access_key_id@
                &&& r.secret_access_key@ == b.secret_access_key@
                &&& r.prefix@ == b.prefix@
            },
            _ => false,
        },
    }
}

/// Whether `p` is how a keyspace of a configuration is set up.
pub open spec fn is_plan_for(c: Config, k: KeyspaceConfig, p: KeyspacePlan) -> bool {
    &&& p.name@ == k.name@
    &&& p.region@ == c.node.region@
    &&& is_engine_for(c, k, p.engine)
    &&& p.needs_bus == (c.subscriptions.enabled || k.subscriptions || k.replication)
    &&& p.default_ttl_secs == k.default_ttl_secs
    &&& match p.multi_leader {
        Some(id) => k.write_mode == WriteMode::MultiLeader && id@ == c.node.id@,
        None => k.write_mode != WriteMode::MultiLeader,
    }
}

/// Whether the hot capacity of a tiered keyspace can be counted in bytes.
pub open spec fn capacity_fits(k: KeyspaceConfig) -> bool {
    k.tier == TierName::Tiered ==> k.hot_capacity_mb * BYTES_PER_MB <= usize::MAX
}

pub fn capacity_ok(k: &KeyspaceConfig) -> (r: bool)
    ensures
        r == capacity_fits(*k),
{
    k.tier != TierName::Tiered || k.hot_capacity_mb <= usize::MAX / BYTES_PER_MB
}

/// How a keyspace of a configuration is set up.
pub fn build_keyspace(k: &KeyspaceConfig, c: &Config) -> (p: KeyspacePlan)
    requires
        capacity_fits(*k),
    ensures
        is_plan_for(*c, *k, p),
{
    let dir = if is_blank(&k.storage_subdir) {
        c.storage.data_dir.clone()
    } else {
        path_join(c.storage.data_dir.as_str(), k.storage_subdir.as_str())
    };
    let engine = match k.tier {
        TierName::Hot => EnginePlan::Hot,
        TierName::Warm => EnginePlan::Warm {
            path: path_join(dir.as_str(), k.name.clone().concat(".wal").as_str()),
            policy: policy_of(k.interval_fsync_ms),
        },
        TierName::Cold => EnginePlan::Cold {
            path: path_join(dir.as_str(), k.name.clone().concat("_cold").as_str()),
        },
        TierName::Tiered => EnginePlan::Tiered {
            path: path_join(dir.as_str(), k.name.clone().concat("_tiered").as_str()),
            capacity_bytes: k.hot_capacity_mb * BYTES_PER_MB,
            evict_sample: k.evict_sample,
        },
        TierName::Sharded => EnginePlan::Sharded {
            store: match &c.storage.backend {
                StorageBackend::Local => ShardStore::Local(
                    path_join(dir.as_str(), k.name.clone().concat("_shards").as_str()),
                ),
                StorageBackend::Remote(b) => ShardStore::Remote(
                    RemoteBackendConfig {
                        endpoint_url: b.endpoint_url.clone(),
                        region: b.region.clone(),
                        bucket: b.bucket.clone(),
                        access_key_id: b.access_key_id.clone(),
                        secret_access_key: b.secret_access_key.clone(),
                        prefix: b.prefix.clone(),
                    },
                ),
            },
            buckets: k.shard_buckets,
            policy: policy_of(k.shard_flush_ms),
        },
    };
    KeyspacePlan {
        name: k.name.clone(),
        region: c.node.region.clone(),
        engine,
        needs_bus: c.subscriptions.enabled || k.subscriptions || k.replication,
        default_ttl_secs: k.default_ttl_secs,
        multi_leader: if k.write_mode == WriteMode::MultiLeader {
            Some(c.node.id.clone())
        } else {
            None
        },
    }
}

/// The ending of the file or directory that a keyspace keeps on disk, where it
/// keeps one.
pub open spec fn file_ending(c: Config, k: KeyspaceConfig) -> Option<Seq<char>> {
    match k.tier {
        TierName::Hot => None,
        TierName::Warm => Some(".wal"@),
        TierName::Cold => Some("_cold"@),
        TierName::Tiered => Some("_tiered"@),
        TierName::Sharded => match c.storage.backend {
            StorageBackend::Local => Some("_shards"@),
            StorageBackend::Remote(_) => None,
        },
    }
}

/// Where an older node, which had no directory for each product, kept the data
/// of a keyspace, and where it belongs now.
pub open spec fn upgrade_move(c: Config, k: KeyspaceConfig) -> Option<(Seq<char>, Seq<char>)> {
    match file_ending(c, k) {
        Some(ending) => if k.storage_subdir@.len() > 0 {
            Some(
                (
                    path_joined(c.storage.data_dir@, k.name@ + ending),
                    keyspace_path(c, k, ending),
                ),
            )
        } else {
            None
        },
        None => None,
    }
}

/// The moves of a list of keyspaces, in order.
pub open spec fn upgrade_moves(c: Config, ks: Seq<KeyspaceConfig>) -> Seq<(Seq<char>, Seq<char>)>
    decreases ks.len(),
{
    if ks.len() == 0 {
        Seq::empty()
    } else {
        let front = upgrade_moves(c, ks.drop_last());
        match upgrade_move(c, ks.last()) {
            Some(m) => front.push(m),
            None => front,
        }
    }
}

fn ending_of(c: &Config, k: &KeyspaceConfig) -> (r: Option<&'static str>)
    ensures
        match r {
            Some(e) => file_ending(*c, *k) == Some(e@),
            None => file_ending(*c, *k) is None,
        },
{
    match k.tier {
        TierName::Hot => None,
        TierName::Warm => Some(".wal"),
        TierName::Cold => Some("_cold"),
        TierName::Tiered => Some("_tiered"),
        TierName::Sharded => match &c.storage.backend {
            StorageBackend::Local => Some("_shards"),
            StorageBackend::Remote(_) => None,
        },
    }
}

/// The moves that bring the keyspaces of an older node to their directories,
/// before they are opened.
pub fn keyspace_moves(c: &Config) -> (moves: Vec<Move>)
    ensures
        move_views(moves@) == upgrade_moves(*c, c.keyspaces@),
{
    let mut moves: Vec<Move> = Vec::new();
    let data_dir = c.storage.data_dir.as_str();
    let mut i: usize = 0;
    assert(move_views(moves@) =~= upgrade_moves(*c, c.keyspaces@.take(0)));
    while i < c.keyspaces.len()
        invariant
            i <= c.keyspaces.len(),
            data_dir@ == c.storage.data_dir@,
            move_views(moves@) == upgrade_moves(*c, c.keyspaces@.take(i as int)),
        decreases c.keyspaces.len() - i,
    {
        assert(c.keyspaces@.take(i + 1).drop_last() =~= c.keyspaces@.take(i as int));
        let k = &c.keyspaces[i];
        if let Some(ending) = ending_of(c, k) {
            if !is_blank(&k.storage_subdir) {
                let file = k.name.clone().concat(ending);
                let dir = path_join(data_dir, k.storage_subdir.as_str());
                let m = Move {
                    from: path_join(data_dir, file.as_str()),
                    to: path_join(dir.as_str(), file.as_str()),
                };
                let ghost before = move_views(moves@);
                let ghost mv = m@;
                moves.push(m);
                assert(move_views(moves@) =~= before.push(mv));
            }
        }
        i = i + 1;
    }
    assert(c.keyspaces@.take(i as int) =~= c.keyspaces@);
    moves
}

/// An upgraded keyspace is opened where its older data was moved to.
pub proof fn law_moved_data_is_found(c: Config, k: KeyspaceConfig, e: EnginePlan)
    requires
        is_engine_for(c, k, e),
        upgrade_move(c, k) is Some,
    ensures
        match e {
            EnginePlan::Hot => false,
            EnginePlan::Warm { path, .. } => path@ == (upgrade_move(c, k)->0).1,
            EnginePlan::Cold { path } => path@ == (upgrade_move(c, k)->0).1,
            EnginePlan::Tiered { path, .. } => path@ == (upgrade_move(c, k)->0).1,
            EnginePlan::Sharded { store, .. } => store matches ShardStore::Local(path) && path@ == (
            upgrade_move(c, k)->0).1,
        },
{
}

/// What messaging is set up with.
pub struct MessagingSpecs {
    pub topics: Vec<TopicSpec>,
    pub queues: Vec<QueueSpec>,
    pub streams: Vec<StreamSpec>,
}

pub open spec fn is_topic_spec(t: TopicConfig, s: TopicSpec) -> bool {
    &&& s.name@ == t.name@
    &&& s.mode == match t.mode {
        TopicModeConfig::Ephemeral => TopicMode::Ephemeral,
        TopicModeConfig::Durable => TopicMode::Durable,
    }
    &&& s.capacity == t.capacity
}

pub open spec fn is_queue_spec(q: QueueConfig, s: QueueSpec) -> bool {
    s.name@ == q.name@ && s.ack_timeout == q.ack_timeout_secs * NANOS_PER_SEC
}

pub open spec fn is_stream_spec(t: StreamConfig, s: StreamSpec) -> bool {
    &&& s.name@ == t.name@
    &&& s.partitions == t.partitions
    &&& s.capacity == t.capacity
    &&& s.interval_fsync_ms == t.interval_fsync_ms
}

/// What the messaging of a configuration is set up with: one topic, queue or
/// stream for each that it lists, in order.
pub fn messaging_specs(c: &Config) -> (m: MessagingSpecs)
    ensures
        are_specs_for(*c, m),
{
    let mut topics: Vec<TopicSpec> = Vec::new();
    let mut i: usize = 0;
    while i < c.topics.len()
        invariant
            i <= c.topics.len(),
            topics@.len() == i,
            forall|j: int| 0 <= j < i ==> is_topic_spec(c.topics@[j], #[trigger] topics@[j]),
        decreases c.topics.len() - i,
    {
        topics.push(
            TopicSpec {
                name: c.topics[i].name.clone(),
                mode: match c.topics[i].mode {
                    TopicModeConfig::Ephemeral => TopicMode::Ephemeral,
                    TopicModeConfig::Durable => TopicMode::Durable,
                },
                capacity: c.topics[i].capacity,
            },
        );
        i = i + 1;
    }
    let mut queues: Vec<QueueSpec> = Vec::new();
    let mut i: usize = 0;
    while i < c.queues.len()
        invariant
            i <= c.queues.len(),
            queues@.len() == i,
            forall|j: int| 0 <= j < i ==> is_queue_spec(c.queues@[j], #[trigger] queues@[j]),
        decreases c.queues.len() - i,
    {
        queues.push(
            QueueSpec {
                name: c.queues[i].name.clone(),
                ack_timeout: c.queues[i].ack_timeout_secs as u128 * NANOS_PER_SEC,
            },
        );
        i = i + 1;
    }
    let mut streams: Vec<StreamSpec> = Vec::new();
    let mut i: usize = 0;
    while i < c.streams.len()
        invariant
            i <= c.streams.len(),
            streams@.len() == i,
            forall|j: int| 0 <= j < i ==> is_stream_spec(c.streams@[j], #[trigger] streams@[j]),
        decreases c.streams.len() - i,
    {
        streams.push(
            StreamSpec {
                name: c.streams[i].name.clone(),
                partitions: c.streams[i].partitions,
                capacity: c.streams[i].capacity,
                interval_fsync_ms: c.streams[i].interval_fsync_ms,
            },
        );
        i = i + 1;
    }
    MessagingSpecs { topics, queues, streams }
}

/// How a node is set up.
pub struct NodePlan {
    /// One for each keyspace of the configuration, in order.
    pub keyspaces: Vec<KeyspacePlan>,
    pub messaging: MessagingSpecs,
}

/// Whether `m` is what the messaging of a configuration is set up with.
pub open spec fn are_specs_for(c: Config, m: MessagingSpecs) -> bool {
    &&& m.topics@.len() == c.topics@.len()
    &&& forall|i: int|
        0 <= i < c.topics@.len() ==> is_topic_spec(c.topics@[i], #[trigger] m.topics@[i])
    &&& m.queues@.len() == c.queues@.len()
    &&& forall|i: int|
        0 <= i < c.queues@.len() ==> is_queue_spec(c.queues@[i], #[trigger] m.queues@[i])
    &&& m.streams@.len() == c.streams@.len()
    &&& forall|i: int|
        0 <= i < c.streams@.len() ==> is_stream_spec(c.streams@[i], #[trigger] m.streams@[i])
}

/// How the node of a configuration is set up; `None` where the hot capacity
/// of a keyspace cannot be counted in bytes.
pub fn build(c: &Config) -> (r: Option<NodePlan>)
    ensures
        match r {
            Some(p) => {
                &&& p.keyspaces@.len() == c.keyspaces@.len()
                &&& forall|i: int|
                    0 <= i < c.keyspaces@.len() ==> is_plan_for(
                        *c,
                        c.keyspaces@[i],
                        #[trigger] p.keyspaces@[i],
                    )
                &&& are_specs_for(*c, p.messaging)
            },
            None => exists|i: int|
                0 <= i < c.keyspaces@.len() && !capacity_fits(#[trigger] c.keyspaces@[i]),
        },
{
    let mut keyspaces: Vec<KeyspacePlan> = Vec::new();
    let mut i: usize = 0;
    while i < c.keyspaces.len()
        invariant
            i <= c.keyspaces.len(),
            keyspaces@.len() == i,
            forall|j: int|
                0 <= j < i ==> is_plan_for(*c, c.keyspaces@[j], #[trigger] keyspaces@[j]),
        decreases c.keyspaces.len() - i,
    {
        if !capacity_ok(&c.keyspaces[i]) {
            assert(!capacity_fits(c.keyspaces@[i as int]));
            return None;
        }
        keyspaces.push(build_keyspace(&c.keyspaces[i], c));
        i = i + 1;
    }
    Some(NodePlan { keyspaces, messaging: messaging_specs(c) })
}

/// A node: its configuration, its keyspaces under their names and its
/// messaging, as handles of whatever sort they are shared by.
#[verifier::reject_recursive_types(K)]
pub struct Node<K, M> {
    config: Config,
    keyspaces: Named<K>,
    messaging: M,
}

impl<K, M> Node<K, M> {
    pub closed spec fn settings(&self) -> Config {
        self.config
    }

    pub closed spec fn keyspaces(&self) -> Map<Seq<char>, K> {
        self.keyspaces@
    }

    pub closed spec fn messages(&self) -> M {
        self.messaging
    }

    /// What stays true: the names that are listed are the names there are.
    pub closed spec fn wf(&self) -> bool {
        self.keyspaces.wf()
    }

    /// A node with keyspaces under their names; of two with one name the
    /// later.
    pub fn new(config: Config, keyspaces: Vec<(String, K)>, messaging: M) -> (n: Self)
        ensures
            n.wf(),
            n.settings() == config,
            n.keyspaces() == by_name(keyspaces@),
            n.messages() == messaging,
    {
        Node { config, keyspaces: Named::of(keyspaces), messaging }
    }

    pub fn config(&self) -> (c: &Config)
        ensures
            *c == self.settings(),
    {
        &self.config
    }

    pub fn messaging(&self) -> (m: &M)
        ensures
            *m == self.messages(),
    {
        &self.messaging
    }

    pub fn keyspace(&self, name: &str) -> (r: Option<&K>)
        ensures
            match r {
                Some(k) => self.keyspaces().contains_key(name@) && *k == self.keyspaces()[name@],
                None => !self.keyspaces().contains_key(name@),
            },
    {
        self.keyspaces.get(name)
    }

    pub fn require_keyspace(&self, name: &str) -> (r: Result<&K, NodeError>)
        ensures
            match r {
                Ok(k) => self.keyspaces().contains_key(name@) && *k == self.keyspaces()[name@],
                Err(e) => !self.keyspaces().contains_key(name@) && (e matches NodeError::UnknownKeyspace(
                    n,
                ) && n@ == name@),
            },
    {
        match self.keyspaces.get(name) {
            Some(k) => Ok(k),
            None => Err(NodeError::UnknownKeyspace(name.to_owned())),
        }
    }

    /// The names of the keyspaces, each once.
    pub fn keyspace_names(&self) -> (out: Vec<String>)
        requires
            self.wf(),
        ensures
            views(out@).no_duplicates(),
            forall|n: Seq<char>| #[trigger]
                views(out@).contains(n) <==> self.keyspaces().contains_key(n),
    {
        self.keyspaces.names()
    }

    /// The keyspaces that a compaction rewrites, given what each takes up on
    /// disk: those that are not replicated and have grown enough.
    pub fn compactable(&self, sizes: &Vec<(String, u64)>) -> (out: Vec<String>)
        requires
            self.wf(),
        ensures
            views(out@).no_duplicates(),
            forall|n: Seq<char>| #[trigger]
                views(out@).contains(n) <==> self.keyspaces().contains_key(n) && is_rewritten(
                    self.settings(),
                    sizes@,
                    n,
                ),
    {
        let names = self.keyspaces.names();
        let mut out: Vec<String> = Vec::new();
        let mut i: usize = 0;
        while i < names.len()
            invariant
                i <= names.len(),
                views(names@).no_duplicates(),
                views(out@).no_duplicates(),
                forall|n: Seq<char>| #[trigger]
                    views(out@).contains(n) <==> views(names@).take(i as int).contains(n)
                        && is_rewritten(self.config, sizes@, n),
            decreases names.len() - i,
        {
            let ghost before = views(out@);
            let ghost nv = names@[i as int]@;
            let ghost upto = views(names@).take(i as int);
            let ghost next = views(names@).take(i + 1);
            assert(views(names@)[i as int] == nv);
            assert(next =~= upto.push(nv));
            proof {
                if upto.contains(nv) {
                    let k = upto.index_of(nv);
                    assert(views(names@)[k] == views(names@)[i as int]);
                }
                assert forall|n: Seq<char>| #[trigger]
                    next.contains(n) <==> upto.contains(n) || n == nv by {
                    if upto.contains(n) {
                        let k = upto.index_of(n);
                        assert(next[k] == n);
                    }
                    if n == nv {
                        assert(next[i as int] == n);
                    }
                }
            }
            if may_compact(&self.config, names[i].as_str()) && has_grown(
                &self.config,
                sizes,
                names[i].as_str(),
            ) {
                assert(!before.contains(nv));
                out.push(names[i].clone());
                assert(views(out@) =~= before.push(nv));
                assert forall|n: Seq<char>| #[trigger]
                    views(out@).contains(n) <==> before.contains(n) || n == nv by {
                    if before.contains(n) {
                        let k = before.index_of(n);
                        assert(views(out@)[k] == n);
                    }
                    if n == nv {
                        assert(views(out@)[before.len() as int] == n);
                    }
                }
            }
            assert forall|n: Seq<char>| #[trigger]
                views(out@).contains(n) <==> next.contains(n) && is_rewritten(
                    self.config,
                    sizes@,
                    n,
                ) by {
                assert(before.contains(n) <==> upto.contains(n) && is_rewritten(
                    self.config,
                    sizes@,
                    n,
                ));
            }
            i = i + 1;
        }
        assert(views(names@).take(i as int) =~= views(names@));
        out
    }
}

/// Why a node cannot start or answer.
#[derive(Debug)]
pub enum NodeError {
    Storage(String),
    Messaging(MessagingError),
    UnknownKeyspace(String),
}

impl NodeError {
    pub open spec fn text(&self) -> Seq<char> {
        match self {
            NodeError::Storage(m) => "storage error: "@ + m@,
            NodeError::Messaging(e) => "messaging error: "@ + e.text(),
            NodeError::UnknownKeyspace(n) => "unknown keyspace '"@ + n@ + "'"@,
        }
    }

    /// The message shown for this error.
    pub fn message(&self) -> (s: String)
        ensures
            s@ == self.text(),
    {
        match self {
            NodeError::Storage(m) => "storage error: ".to_owned().concat(m.as_str()),
            NodeError::Messaging(e) => "messaging error: ".to_owned().concat(e.message().as_str()),
            NodeError::UnknownKeyspace(n) => concat3("unknown keyspace '", n.as_str(), "'"),
        }
    }
}

/// Whether any keyspace of the given name is replicated.
pub open spec fn is_replicated(ks: Seq<KeyspaceConfig>, name: Seq<char>) -> bool {
    exists|i: int| 0 <= i < ks.len() && (#[trigger] ks[i]).name@ == name && ks[i].replication
}

/// Whether a keyspace's log may be compacted. Compaction gives the records
/// new sequence numbers, on which the followers of a replicated keyspace
/// rely; so those are left alone.
pub fn may_compact(c: &Config, name: &str) -> (r: bool)
    ensures
        r == !is_replicated(c.keyspaces@, name@),
{
    let mut i: usize = 0;
    while i < c.keyspaces.len()
        invariant
            i <= c.keyspaces.len(),
            forall|j: int|
                0 <= j < i ==> !((#[trigger] c.keyspaces@[j]).name@ == name@
                    && c.keyspaces@[j].replication),
        decreases c.keyspaces.len() - i,
    {
        if c.keyspaces[i].replication && same(c.keyspaces[i].name.as_str(), name) {
            assert(is_replicated(c.keyspaces@, name@));
            return false;
        }
        i = i + 1;
    }
    true
}

/// Whether the size of a keyspace is among those that are worth a compaction.
pub open spec fn is_large(c: Config, sizes: Seq<(String, u64)>, name: Seq<char>) -> bool {
    exists|i: int|
        0 <= i < sizes.len() && (#[trigger] sizes[i]).0@ == name && sizes[i].1
            >= c.ops.compaction_min_bytes
}

/// Whether a compaction rewrites the log of a keyspace.
pub open spec fn is_rewritten(c: Config, sizes: Seq<(String, u64)>, name: Seq<char>) -> bool {
    !is_replicated(c.keyspaces@, name) && is_large(c, sizes, name)
}

fn has_grown(c: &Config, sizes: &Vec<(String, u64)>, name: &str) -> (r: bool)
    ensures
        r == is_large(*c, sizes@, name@),
{
    let mut i: usize = 0;
    while i < sizes.len()
        invariant
            i <= sizes.len(),
            forall|j: int|
                0 <= j < i ==> !((#[trigger] sizes@[j]).0@ == name@ && sizes@[j].1
                    >= c.ops.compaction_min_bytes),
        decreases sizes.len() - i,
    {
        if worth_compacting(c, sizes[i].1) && same(sizes[i].0.as_str(), name) {
            assert(is_large(*c, sizes@, name@));
            return true;
        }
        i = i + 1;
    }
    false
}

/// The sum of sizes.
pub open spec fn sum_of(sizes: Seq<u64>) -> nat
    decreases sizes.len(),
{
    if sizes.len() == 0 {
        0
    } else {
        sum_of(sizes.drop_last()) + sizes.last() as nat
    }
}

proof fn lemma_sum_grows(sizes: Seq<u64>, i: int)
    requires
        0 <= i <= sizes.len(),
    ensures
        sum_of(sizes.take(i)) <= sum_of(sizes),
    decreases sizes.len() - i,
{
    if i < sizes.len() {
        lemma_sum_grows(sizes, i + 1);
        assert(sizes.take(i + 1).drop_last() =~= sizes.take(i));
    } else {
        assert(sizes.take(i) =~= sizes);
    }
}

/// The size on disk of all keyspaces together.
pub fn total_durable_bytes(sizes: &Vec<u64>) -> (n: u64)
    requires
        sum_of(sizes@) <= u64::MAX,
    ensures
        n == sum_of(sizes@),
{
    let mut n: u64 = 0;
    let mut i: usize = 0;
    while i < sizes.len()
        invariant
            i <= sizes.len(),
            sum_of(sizes@) <= u64::MAX,
            n == sum_of(sizes@.take(i as int)),
        decreases sizes.len() - i,
    {
        proof {
            assert(sizes@.take(i + 1).drop_last() =~= sizes@.take(i as int));
            lemma_sum_grows(sizes@, i + 1);
        }
        n = n + sizes[i];
        i = i + 1;
    }
    assert(sizes@.take(i as int) =~= sizes@);
    n
}

/// When background compaction looks at the keyspaces: not at all, or every so
/// many seconds, at least one.
pub fn compaction_interval(c: &Config) -> (secs: Option<u64>)
    ensures
        secs == if !c.ops.compaction_enabled {
            None
        } else if c.ops.compaction_interval_secs == 0 {
            Some(1u64)
        } else {
            Some(c.ops.compaction_interval_secs)
        },
{
    if !c.ops.compaction_enabled {
        None
    } else if c.ops.compaction_interval_secs == 0 {
        Some(1)
    } else {
        Some(c.ops.compaction_interval_secs)
    }
}

/// Whether the log of a keyspace is large enough to compact.
pub fn worth_compacting(c: &Config, bytes: u64) -> (r: bool)
    ensures
        r == (bytes >= c.ops.compaction_min_bytes),
{
    bytes >= c.ops.compaction_min_bytes
}

/// Keyspaces in different directories of their own have different files,
/// whatever their names.
pub proof fn law_keyspaces_use_separate_files(
    c: Config,
    a: KeyspaceConfig,
    b: KeyspaceConfig,
    ending: Seq<char>,
    other: Seq<char>,
)
    requires
        plain_name(a.storage_subdir@),
        plain_name(b.storage_subdir@),
        a.storage_subdir@ != b.storage_subdir@,
        plain_name(a.name@ + ending),
        plain_name(b.name@ + other),
    ensures
        keyspace_path(c, a, ending) != keyspace_path(c, b, other),
{
    let d = c.storage.data_dir@;
    let base = if d.len() == 0 || d.last() == '/' {
        d
    } else {
        d.push('/')
    };
    let (x, y) = (a.storage_subdir@, b.storage_subdir@);
    let (f, g) = (a.name@ + ending, b.name@ + other);
    let p = keyspace_path(c, a, ending);
    let q = keyspace_path(c, b, other);
    assert(path_joined(d, x) =~= base + x);
    assert(path_joined(d, y) =~= base + y);
    assert(path_joined(d, x).last() == x.last());
    assert(path_joined(d, y).last() == y.last());
    assert(p =~= base + x + seq!['/'] + f);
    assert(q =~= base + y + seq!['/'] + g);
    if p == q {
        let n = base.len();
        assert(p[(n + x.len()) as int] == '/');
        assert(q[(n + y.len()) as int] == '/');
        if x.len() < y.len() {
            assert(q[(n + x.len()) as int] == y[x.len() as int]);
        } else if y.len() < x.len() {
            assert(p[(n + y.len()) as int] == x[y.len() as int]);
        } else {
            assert(x =~= p.subrange(n as int, (n + x.len()) as int));
            assert(y =~= q.subrange(n as int, (n + y.len()) as int));
        }
    }
}

/// A single part of a path.
pub open spec fn plain_name(s: Seq<char>) -> bool {
    s.len() > 0 && forall|i: int| 0 <= i < s.len() ==> #[trigger] s[i] != '/'
}

/// What a keyspace is built from: its name and time to live, the node's region,
/// a bus where anybody may want its changes, and the node's id where several
/// regions write to it.
pub proof fn law_keyspace_is_built_as_configured(c: Config, k: KeyspaceConfig, p: KeyspacePlan)
    requires
        is_plan_for(c, k, p),
    ensures
        p.name@ == k.name@,
        p.region@ == c.node.region@,
        p.default_ttl_secs == k.default_ttl_secs,
        p.needs_bus <==> c.subscriptions.enabled || k.subscriptions || k.replication,
        p.multi_leader is Some <==> k.write_mode == WriteMode::MultiLeader,
        p.multi_leader matches Some(id) ==> id@ == c.node.id@,
{
}

/// Each tier has its engine, with the settings of its keyspace, below the data
/// directory and the keyspace's own directory in it.
pub proof fn law_tier_has_its_engine(c: Config, k: KeyspaceConfig, e: EnginePlan)
    requires
        is_engine_for(c, k, e),
    ensures
        e is Hot <==> k.tier == TierName::Hot,
        e is Warm <==> k.tier == TierName::Warm,
        e is Cold <==> k.tier == TierName::Cold,
        e is Tiered <==> k.tier == TierName::Tiered,
        e is Sharded <==> k.tier == TierName::Sharded,
        ({
            let dir = if k.storage_subdir@.len() == 0 {
                c.storage.data_dir@
            } else {
                path_joined(c.storage.data_dir@, k.storage_subdir@)
            };
            match e {
                EnginePlan::Hot => true,
                EnginePlan::Warm { path, policy } => path@ == path_joined(dir, k.name@ + ".wal"@)
                    && policy == (if k.interval_fsync_ms > 0 {
                    SyncPolicy::IntervalMs(k.interval_fsync_ms)
                } else {
                    SyncPolicy::Always
                }),
                EnginePlan::Cold { path } => path@ == path_joined(dir, k.name@ + "_cold"@),
                EnginePlan::Tiered { path, capacity_bytes, evict_sample } => path@ == path_joined(
                    dir,
                    k.name@ + "_tiered"@,
                ) && capacity_bytes == k.hot_capacity_mb * 1048576 && evict_sample
                    == k.evict_sample,
                EnginePlan::Sharded { store, buckets, policy } => buckets == k.shard_buckets
                    && policy == (if k.shard_flush_ms > 0 {
                    SyncPolicy::IntervalMs(k.shard_flush_ms)
                } else {
                    SyncPolicy::Always
                }) && (c.storage.backend is Local <==> store is Local) && (store matches ShardStore::Local(
                    path,
                ) ==> path@ == path_joined(dir, k.name@ + "_shards"@)) && (store matches ShardStore::Remote(
                    r,
                ) ==> (c.storage.backend matches StorageBackend::Remote(b) && r.endpoint_url@
                    == b.endpoint_url@ && r.region@ == b.region@ && r.bucket@ == b.bucket@
                    && r.access_key_id@ == b.access_key_id@ && r.secret_access_key@
                    == b.secret_access_key@ && r.prefix@ == b.prefix@)),
            }
        }),
{
}

/// Topics, queues and streams are opened as configured: all of them, each with
/// its own settings. A queue's time to acknowledge is in nanoseconds.
pub proof fn law_messaging_is_opened_as_configured(c: Config, m: MessagingSpecs, i: int)
    requires
        are_specs_for(c, m),
    ensures
        m.topics@.len() == c.topics@.len(),
        m.queues@.len() == c.queues@.len(),
        m.streams@.len() == c.streams@.len(),
        0 <= i < c.topics@.len() ==> m.topics@[i].name@ == c.topics@[i].name@ && m.topics@[i].capacity
            == c.topics@[i].capacity && (m.topics@[i].mode == TopicMode::Durable
            <==> c.topics@[i].mode == TopicModeConfig::Durable),
        0 <= i < c.queues@.len() ==> m.queues@[i].name@ == c.queues@[i].name@
            && m.queues@[i].ack_timeout == c.queues@[i].ack_timeout_secs * 1000000000,
        0 <= i < c.streams@.len() ==> m.streams@[i].name@ == c.streams@[i].name@
            && m.streams@[i].partitions == c.streams@[i].partitions && m.streams@[i].capacity
            == c.streams@[i].capacity && m.streams@[i].interval_fsync_ms
            == c.streams@[i].interval_fsync_ms,
{
    if 0 <= i < c.topics@.len() {
        assert(is_topic_spec(c.topics@[i], m.topics@[i]));
    }
    if 0 <= i < c.queues@.len() {
        assert(is_queue_spec(c.queues@[i], m.queues@[i]));
    }
    if 0 <= i < c.streams@.len() {
        assert(is_stream_spec(c.streams@[i], m.streams@[i]));
    }
}

/// A keyspace with files of its own and a directory of its own has them moved
/// there from the data directory; one without either stays.
pub proof fn law_files_move_below_their_directory(c: Config, k: KeyspaceConfig)
    ensures
        k.storage_subdir@.len() == 0 || k.tier == TierName::Hot ==> upgrade_move(c, k) is None,
        k.storage_subdir@.len() > 0 && k.tier == TierName::Warm ==> upgrade_move(c, k) == Some(
            (
                path_joined(c.storage.data_dir@, k.name@ + ".wal"@),
                path_joined(path_joined(c.storage.data_dir@, k.storage_subdir@), k.name@ + ".wal"@),
            ),
        ),
        k.storage_subdir@.len() > 0 && k.tier == TierName::Cold ==> upgrade_move(c, k) == Some(
            (
                path_joined(c.storage.data_dir@, k.name@ + "_cold"@),
                path_joined(path_joined(c.storage.data_dir@, k.storage_subdir@), k.name@ + "_cold"@),
            ),
        ),
        k.storage_subdir@.len() > 0 && k.tier == TierName::Tiered ==> upgrade_move(c, k) == Some(
            (
                path_joined(c.storage.data_dir@, k.name@ + "_tiered"@),
                path_joined(
                    path_joined(c.storage.data_dir@, k.storage_subdir@),
                    k.name@ + "_tiered"@,
                ),
            ),
        ),
        k.storage_subdir@.len() > 0 && k.tier == TierName::Sharded ==> upgrade_move(c, k) == (
        if c.storage.backend is Local {
            Some(
                (
                    path_joined(c.storage.data_dir@, k.name@ + "_shards"@),
                    path_joined(
                        path_joined(c.storage.data_dir@, k.storage_subdir@),
                        k.name@ + "_shards"@,
                    ),
                ),
            )
        } else {
            None
        }),
{
}

/// Every keyspace that has something to move is moved.
pub proof fn law_no_keyspace_is_left_behind(c: Config, ks: Seq<KeyspaceConfig>)
    ensures
        forall|i: int|
            0 <= i < ks.len() && upgrade_move(c, #[trigger] ks[i]) is Some ==> upgrade_moves(
                c,
                ks,
            ).contains(upgrade_move(c, ks[i])->0),
        forall|m: (Seq<char>, Seq<char>)| #[trigger]
            upgrade_moves(c, ks).contains(m) ==> exists|i: int|
                0 <= i < ks.len() && upgrade_move(c, #[trigger] ks[i]) == Some(m),
    decreases ks.len(),
{
    if ks.len() > 0 {
        let front = ks.drop_last();
        law_no_keyspace_is_left_behind(c, front);
        let rest = upgrade_moves(c, front);
        let all = upgrade_moves(c, ks);
        assert forall|i: int|
            0 <= i < ks.len() && upgrade_move(c, #[trigger] ks[i]) is Some implies all.contains(
            upgrade_move(c, ks[i])->0,
        ) by {
            if i < front.len() {
                assert(front[i] == ks[i]);
                let k = rest.index_of(upgrade_move(c, ks[i])->0);
                assert(all[k] == upgrade_move(c, ks[i])->0);
            } else {
                assert(all[all.len() - 1] == upgrade_move(c, ks[i])->0);
            }
        }
        assert forall|m: (Seq<char>, Seq<char>)| #[trigger] all.contains(m) implies exists|i: int|
            0 <= i < ks.len() && upgrade_move(c, #[trigger] ks[i]) == Some(m) by {
            let k = all.index_of(m);
            if k < rest.len() {
                assert(rest[k] == m);
                assert(rest.contains(m));
                let i = choose|i: int|
                    0 <= i < front.len() && upgrade_move(c, #[trigger] front[i]) == Some(m);
                assert(ks[i] == front[i]);
            } else {
                assert(upgrade_move(c, ks[ks.len() - 1]) == Some(m));
            }
        }
    }
}

/// A log is rewritten where its own size has reached the threshold and no
/// other node reads from it, whatever the sizes of the others.
pub proof fn law_log_is_rewritten_by_its_own_size(
    c: Config,
    sizes: Seq<(String, u64)>,
    name: Seq<char>,
)
    ensures
        is_rewritten(c, sizes, name) <==> {
            &&& exists|i: int|
                0 <= i < sizes.len() && (#[trigger] sizes[i]).0@ == name && sizes[i].1
                    >= c.ops.compaction_min_bytes
            &&& forall|i: int|
                0 <= i < c.keyspaces@.len() && (#[trigger] c.keyspaces@[i]).name@ == name
                    ==> !c.keyspaces@[i].replication
        },
        is_replicated(c.keyspaces@, name) <==> exists|i: int|
            0 <= i < c.keyspaces@.len() && (#[trigger] c.keyspaces@[i]).name@ == name
                && c.keyspaces@[i].replication,
{
}

/// The whole is the sum of the parts.
pub proof fn law_sizes_add_up(sizes: Seq<u64>, more: u64)
    ensures
        sum_of(Seq::empty()) == 0,
        sum_of(sizes.push(more)) == sum_of(sizes) + more,
{
    assert(sizes.push(more).drop_last() =~= sizes);
}

/// A capacity in megabytes fits where its bytes can be counted, and matters to
/// a tiered keyspace alone.
pub proof fn law_capacity_is_counted_in_bytes(k: KeyspaceConfig)
    ensures
        capacity_fits(k) <==> (k.tier == TierName::Tiered ==> k.hot_capacity_mb * 1048576
            <= usize::MAX),
{
}

/// What went wrong with a node, in words.
pub proof fn law_node_errors_in_words(e: NodeError)
    ensures
        match e {
            NodeError::Storage(m) => e.text() == "storage error: "@ + m@,
            NodeError::Messaging(m) => e.text() == "messaging error: "@ + m.text(),
            NodeError::UnknownKeyspace(n) => e.text() == "unknown keyspace '"@ + n@ + "'"@,
        },
{
}

} // verus!
