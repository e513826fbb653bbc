//! The runtime configuration of a node, its defaults, and its rules.

use crate::text::{concat3, contains, is_blank};
use vstd::prelude::*;
use vstd::string::StringExecFns;

verus! {

pub const DEFAULT_MAX_VALUE_BYTES: usize = 67_108_864;

pub const DEFAULT_COMPACTION_INTERVAL_SECS: u64 = 300;

pub const DEFAULT_COMPACTION_MIN_BYTES: u64 = 67_108_864;

pub const DEFAULT_SHUTDOWN_GRACE_SECS: u64 = 25;

pub const DEFAULT_HOT_CAPACITY_MB: usize = 256;

pub const DEFAULT_EVICT_SAMPLE: usize = 8;

pub const DEFAULT_SHARD_BUCKETS: usize = 4096;

/// Of a topic that names none: how many messages a subscriber may lag behind.
pub const DEFAULT_TOPIC_CAPACITY: usize = 1024;

pub const DEFAULT_ACK_TIMEOUT_SECS: u64 = 30;

pub const DEFAULT_STREAM_PARTITIONS: usize = 1;

pub const DEFAULT_STREAM_CAPACITY: usize = 1024;

#[derive(Clone, Debug)]
pub struct NodeConfig {
    pub id: String,
    pub region: String,
}

impl Default for NodeConfig {
    fn default() -> (c: Self)
        ensures
            c.id@ == "node-1"@,
            c.region@ == "local"@,
    {
        NodeConfig { id: "node-1".to_owned(), region: "local".to_owned() }
    }
}

/// Transport TLS, shared by every listener. Off by default.
#[derive(Clone, Debug)]
pub struct TlsConfig {
    pub enabled: bool,
    /// Path of the PEM certificate chain.
    pub cert_file: String,
    /// Path of the PEM private key.
    pub key_file: String,
}

impl Default for TlsConfig {
    fn default() -> (c: Self)
        ensures
            !c.enabled,
            c.cert_file@ == Seq::<char>::empty(),
            c.key_file@ == Seq::<char>::empty(),
    {
        TlsConfig { enabled: false, cert_file: String::new(), key_file: String::new() }
    }
}

impl TlsConfig {
    /// Whether TLS is on: switched on, with both files named.
    pub open spec fn on(&self) -> bool {
        self.enabled && self.cert_file@.len() > 0 && self.key_file@.len() > 0
    }

    pub fn is_enabled(&self) -> (r: bool)
        ensures
            r == self.on(),
    {
        self.enabled && !is_blank(&self.cert_file) && !is_blank(&self.key_file)
    }
}

#[derive(Clone, Debug)]
pub struct HttpConfig {
    pub bind: String,
}

impl Default for HttpConfig {
    fn default() -> (c: Self)
        ensures
            c.bind@ == "0.0.0.0:8080"@,
    {
        HttpConfig { bind: "0.0.0.0:8080".to_owned() }
    }
}

/// The shared API key. Where it is empty, authentication is off; else every
/// client on every path presents it.
#[derive(Clone, Debug)]
pub struct AuthConfig {
    pub api_key: String,
}

impl Default for AuthConfig {
    fn default() -> (c: Self)
        ensures
            c.api_key@ == Seq::<char>::empty(),
    {
        AuthConfig { api_key: String::new() }
    }
}

impl AuthConfig {
    pub fn is_enabled(&self) -> (r: bool)
        ensures
            r == (self.api_key@.len() > 0),
    {
        !is_blank(&self.api_key)
    }

    pub fn key(&self) -> (k: &str)
        ensures
            k@ == self.api_key@,
    {
        self.api_key.as_str()
    }
}

#[derive(Clone, Debug)]
pub struct WireConfig {
    pub enabled: bool,
    pub bind: String,
    /// 1 is strict sequential dispatch of a pipelined batch.
    pub pipeline_concurrency: usize,
}

impl Default for WireConfig {
    fn default() -> (c: Self)
        ensures
            c.enabled,
            c.bind@ == "0.0.0.0:6380"@,
            c.pipeline_concurrency == 1,
    {
        WireConfig { enabled: true, bind: "0.0.0.0:6380".to_owned(), pipeline_concurrency: 1 }
    }
}

#[derive(Clone, Debug)]
pub struct StorageConfig {
    pub data_dir: String,
    pub default_tier: TierName,
    /// The largest accepted value in bytes; 0 is no limit.
    pub max_value_bytes: usize,
    /// Where a sharded keyspace keeps its bucket objects.
    pub backend: StorageBackend,
}

impl Default for StorageConfig {
    fn default() -> (c: Self)
        ensures
            c.data_dir@ == "./data"@,
            c.default_tier == TierName::Warm,
            c.max_value_bytes == DEFAULT_MAX_VALUE_BYTES,
            c.backend is Local,
    {
        StorageConfig {
            data_dir: "./data".to_owned(),
            default_tier: TierName::Warm,
            max_value_bytes: DEFAULT_MAX_VALUE_BYTES,
            backend: StorageBackend::Local,
        }
    }
}

/// The backing store of the sharded tier: the node's own data directory, or a
/// remote object store that the operator fully specifies.
#[derive(Clone, Debug)]
pub enum StorageBackend {
    Local,
    Remote(RemoteBackendConfig),
}

impl Default for StorageBackend {
    fn default() -> (b: Self)
        ensures
            b is Local,
    {
        StorageBackend::Local
    }
}

/// Connection details of a remote object store. None has a default; the
/// region and the prefix may be empty.
#[derive(Clone, Debug)]
pub struct RemoteBackendConfig {
    pub endpoint_url: String,
    pub region: String,
    pub bucket: String,
    pub access_key_id: String,
    pub secret_access_key: String,
    pub prefix: String,
}

impl Default for RemoteBackendConfig {
    fn default() -> (c: Self)
        ensures
            c.endpoint_url@ == Seq::<char>::empty(),
            c.region@ == Seq::<char>::empty(),
            c.bucket@ == Seq::<char>::empty(),
            c.access_key_id@ == Seq::<char>::empty(),
            c.secret_access_key@ == Seq::<char>::empty(),
            c.prefix@ == Seq::<char>::empty(),
    {
        RemoteBackendConfig {
            endpoint_url: String::new(),
            region: String::new(),
            bucket: String::new(),
            access_key_id: String::new(),
            secret_access_key: String::new(),
            prefix: String::new(),
        }
    }
}

#[derive(Clone, Copy, Debug, PartialEq, Eq, Structural)]
pub enum TierName {
    Hot,
    Warm,
    Cold,
    Tiered,
    Sharded,
}

impl TierName {
    pub open spec fn name(self) -> Seq<char> {
        match self {
            TierName::Hot => "hot"@,
            TierName::Warm => "warm"@,
            TierName::Cold => "cold"@,
            TierName::Tiered => "tiered"@,
            TierName::Sharded => "sharded"@,
        }
    }

    pub fn as_str(self) -> (s: &'static str)
        ensures
            s@ == self.name(),
    {
        match self {
            TierName::Hot => "hot",
            TierName::Warm => "warm",
            TierName::Cold => "cold",
            TierName::Tiered => "tiered",
            TierName::Sharded => "sharded",
        }
    }
}

#[derive(Clone, Copy, Debug)]
pub struct SubscriptionsConfig {
    pub enabled: bool,
}

impl Default for SubscriptionsConfig {
    fn default() -> (c: Self)
        ensures
            !c.enabled,
    {
        SubscriptionsConfig { enabled: false }
    }
}

/// Metrics, background compaction and the drain on shutdown.
#[derive(Clone, Copy, Debug)]
pub struct OpsConfig {
    pub metrics_enabled: bool,
    pub compaction_enabled: bool,
    /// Seconds between two looks at each keyspace.
    pub compaction_interval_secs: u64,
    /// A log is compacted only once it is larger than this.
    pub compaction_min_bytes: u64,
    /// Seconds to wait for requests in flight on shutdown.
    pub shutdown_grace_secs: u64,
}

pub open spec fn default_ops() -> OpsConfig {
    OpsConfig {
        metrics_enabled: true,
        compaction_enabled: true,
        compaction_interval_secs: DEFAULT_COMPACTION_INTERVAL_SECS,
        compaction_min_bytes: DEFAULT_COMPACTION_MIN_BYTES,
        shutdown_grace_secs: DEFAULT_SHUTDOWN_GRACE_SECS,
    }
}

impl Default for OpsConfig {
    fn default() -> (c: Self)
        ensures
            c == default_ops(),
    {
        OpsConfig {
            metrics_enabled: true,
            compaction_enabled: true,
            compaction_interval_secs: DEFAULT_COMPACTION_INTERVAL_SECS,
            compaction_min_bytes: DEFAULT_COMPACTION_MIN_BYTES,
            shutdown_grace_secs: DEFAULT_SHUTDOWN_GRACE_SECS,
        }
    }
}

#[derive(Clone, Debug)]
pub struct ReplicationConfig {
    pub enabled: bool,
    pub role: ReplicationRole,
    pub grpc_bind: String,
    pub leader_addr: Option<String>,
    pub peers: Vec<PeerConfig>,
}

impl Default for ReplicationConfig {
    fn default() -> (c: Self)
        ensures
            !c.enabled,
            c.role == ReplicationRole::Leader,
            c.grpc_bind@ == "0.0.0.0:7070"@,
            c.leader_addr is None,
            c.peers@.len() == 0,
    {
        ReplicationConfig {
            enabled: false,
            role: ReplicationRole::Leader,
            grpc_bind: "0.0.0.0:7070".to_owned(),
            leader_addr: None,
            peers: Vec::new(),
        }
    }
}

#[derive(Clone, Copy, Debug, PartialEq, Eq, Structural)]
pub enum ReplicationRole {
    Leader,
    Follower,
}

#[derive(Clone, Debug)]
pub struct PeerConfig {
    pub node_id: String,
    pub addr: String,
}

impl View for PeerConfig {
    type V = (Seq<char>, Seq<char>);

    open spec fn view(&self) -> (Seq<char>, Seq<char>) {
        (self.node_id@, self.addr@)
    }
}

/// Who may write to a keyspace. With a single leader one region writes and
/// the others replicate. With several leaders any region writes, and the
/// write with the latest stamp wins. With a primary queue any region accepts
/// writes and forwards them to one primary, which commits them in order.
#[derive(Clone, Copy, Debug, PartialEq, Eq, Structural)]
pub enum WriteMode {
    SingleLeader,
    MultiLeader,
    PrimaryQueue,
}

#[derive(Clone, Debug)]
pub struct KeyspaceConfig {
    pub name: String,
    pub tier: TierName,
    pub subscriptions: bool,
    pub replication: bool,
    /// Tiered: megabytes of RAM for the hot cache before the store on disk.
    pub hot_capacity_mb: usize,
    /// Tiered: how many entries one eviction looks at.
    pub evict_sample: usize,
    /// Sharded: how many buckets keys hash into.
    pub shard_buckets: usize,
    /// Sharded: 0 flushes every write; else dirty buckets are flushed in this
    /// interval.
    pub shard_flush_ms: u64,
    /// Seconds until a key expires where its write names no time; 0 is never.
    pub default_ttl_secs: u64,
    /// Warm: 0 syncs every commit; else the log is synced in this interval.
    pub interval_fsync_ms: u64,
    pub write_mode: WriteMode,
    /// The directory under the data directory that holds the keyspace's
    /// files; empty is the data directory itself.
    pub storage_subdir: String,
}

/// A keyspace's configuration by its contents.
pub ghost struct KeyspaceSpec {
    pub name: Seq<char>,
    pub tier: TierName,
    pub subscriptions: bool,
    pub replication: bool,
    pub hot_capacity_mb: usize,
    pub evict_sample: usize,
    pub shard_buckets: usize,
    pub shard_flush_ms: u64,
    pub default_ttl_secs: u64,
    pub interval_fsync_ms: u64,
    pub write_mode: WriteMode,
    pub storage_subdir: Seq<char>,
}

impl View for KeyspaceConfig {
    type V = KeyspaceSpec;

    open spec fn view(&self) -> KeyspaceSpec {
        KeyspaceSpec {
            name: self.name@,
            tier: self.tier,
            subscriptions: self.subscriptions,
            replication: self.replication,
            hot_capacity_mb: self.hot_capacity_mb,
            evict_sample: self.evict_sample,
            shard_buckets: self.shard_buckets,
            shard_flush_ms: self.shard_flush_ms,
            default_ttl_secs: self.default_ttl_secs,
            interval_fsync_ms: self.interval_fsync_ms,
            write_mode: self.write_mode,
            storage_subdir: self.storage_subdir@,
        }
    }
}

/// The keyspace of a node that names none: warm, not replicated, in the data
/// directory itself.
pub open spec fn plain_keyspace() -> KeyspaceSpec {
    KeyspaceSpec {
        name: "default"@,
        tier: TierName::Warm,
        subscriptions: false,
        replication: false,
        hot_capacity_mb: DEFAULT_HOT_CAPACITY_MB,
        evict_sample: DEFAULT_EVICT_SAMPLE,
        shard_buckets: DEFAULT_SHARD_BUCKETS,
        shard_flush_ms: 0,
        default_ttl_secs: 0,
        interval_fsync_ms: 0,
        write_mode: WriteMode::SingleLeader,
        storage_subdir: Seq::empty(),
    }
}

impl KeyspaceConfig {
    pub fn default_keyspace() -> (c: Self)
        ensures
            c@ == plain_keyspace(),
    {
        let c = KeyspaceConfig {
            name: "default".to_owned(),
            tier: TierName::Warm,
            subscriptions: false,
            replication: false,
            hot_capacity_mb: DEFAULT_HOT_CAPACITY_MB,
            evict_sample: DEFAULT_EVICT_SAMPLE,
            shard_buckets: DEFAULT_SHARD_BUCKETS,
            shard_flush_ms: 0,
            default_ttl_secs: 0,
            interval_fsync_ms: 0,
            write_mode: WriteMode::SingleLeader,
            storage_subdir: String::new(),
        };
        assert(c.storage_subdir@ =~= Seq::<char>::empty());
        c
    }
}

#[derive(Clone, Copy, Debug, PartialEq, Eq, Structural)]
pub enum TopicModeConfig {
    Ephemeral,
    Durable,
}

#[derive(Clone, Debug)]
pub struct TopicConfig {
    pub name: String,
    pub mode: TopicModeConfig,
    pub capacity: usize,
}

impl View for TopicConfig {
    type V = (Seq<char>, TopicModeConfig, usize);

    open spec fn view(&self) -> (Seq<char>, TopicModeConfig, usize) {
        (self.name@, self.mode, self.capacity)
    }
}

#[derive(Clone, Debug)]
pub struct QueueConfig {
    pub name: String,
    /// Seconds until an unacknowledged message is delivered again.
    pub ack_timeout_secs: u64,
}

impl View for QueueConfig {
    type V = (Seq<char>, u64);

    open spec fn view(&self) -> (Seq<char>, u64) {
        (self.name@, self.ack_timeout_secs)
    }
}

/// One partitioned event stream.
#[derive(Clone, Debug)]
pub struct StreamConfig {
    pub name: String,
    pub partitions: usize,
    /// How many records a live subscriber of a partition can lag behind.
    pub capacity: usize,
    /// 0 syncs every append; else appends are synced in this interval.
    pub interval_fsync_ms: u64,
}

impl View for StreamConfig {
    type V = (Seq<char>, usize, usize, u64);

    open spec fn view(&self) -> (Seq<char>, usize, usize, u64) {
        (self.name@, self.partitions, self.capacity, self.interval_fsync_ms)
    }
}

#[derive(Clone, Debug)]
pub struct Config {
    pub node: NodeConfig,
    pub auth: AuthConfig,
    pub tls: TlsConfig,
    pub http: HttpConfig,
    pub wire: WireConfig,
    pub replication: ReplicationConfig,
    pub subscriptions: SubscriptionsConfig,
    pub storage: StorageConfig,
    pub ops: OpsConfig,
    pub keyspaces: Vec<KeyspaceConfig>,
    pub topics: Vec<TopicConfig>,
    pub queues: Vec<QueueConfig>,
    pub streams: Vec<StreamConfig>,
}

impl Default for Config {
    fn default() -> (c: Self)
        ensures
            c.node.id@ == "node-1"@,
            c.node.region@ == "local"@,
            c.auth.api_key@ == Seq::<char>::empty(),
            !c.tls.enabled,
            c.tls.cert_file@ == Seq::<char>::empty(),
            c.tls.key_file@ == Seq::<char>::empty(),
            c.http.bind@ == "0.0.0.0:8080"@,
            c.wire.enabled,
            c.wire.bind@ == "0.0.0.0:6380"@,
            c.wire.pipeline_concurrency == 1,
            !c.replication.enabled,
            c.replication.role == ReplicationRole::Leader,
            c.replication.grpc_bind@ == "0.0.0.0:7070"@,
            c.replication.leader_addr is None,
            c.replication.peers@.len() == 0,
            !c.subscriptions.enabled,
            c.storage.data_dir@ == "./data"@,
            c.storage.default_tier == TierName::Warm,
            c.storage.max_value_bytes == DEFAULT_MAX_VALUE_BYTES,
            c.storage.backend is Local,
            c.ops == default_ops(),
            c.keyspaces@.len() == 1,
            c.keyspaces@[0]@ == plain_keyspace(),
            c.topics@.len() == 0,
            c.queues@.len() == 0,
            c.streams@.len() == 0,
    {
        let mut keyspaces: Vec<KeyspaceConfig> = Vec::new();
        keyspaces.push(KeyspaceConfig::default_keyspace());
        Config {
            node: NodeConfig::default(),
            auth: AuthConfig::default(),
            tls: TlsConfig::default(),
            http: HttpConfig::default(),
            wire: WireConfig::default(),
            replication: ReplicationConfig::default(),
            subscriptions: SubscriptionsConfig::default(),
            storage: StorageConfig::default(),
            ops: OpsConfig::default(),
            keyspaces,
            topics: Vec::new(),
            queues: Vec::new(),
            streams: Vec::new(),
        }
    }
}

/// Why a configuration is refused.
#[derive(Debug)]
pub enum ConfigError {
    HotTierReplicationConflict(String),
    MissingLeaderAddr,
    MultiLeaderTier(String),
    MultiLeaderNeedsReplication(String),
    ShardedReplicationLeader(String),
    RemovedFilePerKey,
    TierNotCompiled { keyspace: String, tier: &'static str },
    RemoteStorageMissingField(&'static str),
    Parse(String),
    Io(String),
}

/// A refusal by its contents.
pub ghost enum Fault {
    HotTierReplicationConflict(Seq<char>),
    MissingLeaderAddr,
    MultiLeaderTier(Seq<char>),
    MultiLeaderNeedsReplication(Seq<char>),
    ShardedReplicationLeader(Seq<char>),
    RemovedFilePerKey,
    TierNotCompiled(Seq<char>, Seq<char>),
    RemoteStorageMissingField(Seq<char>),
    Parse(Seq<char>),
    Io(Seq<char>),
}

impl View for ConfigError {
    type V = Fault;

    open spec fn view(&self) -> Fault {
        match self {
            ConfigError::HotTierReplicationConflict(k) => Fault::HotTierReplicationConflict(k@),
            ConfigError::MissingLeaderAddr => Fault::MissingLeaderAddr,
            ConfigError::MultiLeaderTier(k) => Fault::MultiLeaderTier(k@),
            ConfigError::MultiLeaderNeedsReplication(k) => Fault::MultiLeaderNeedsReplication(k@),
            ConfigError::ShardedReplicationLeader(k) => Fault::ShardedReplicationLeader(k@),
            ConfigError::RemovedFilePerKey => Fault::RemovedFilePerKey,
            ConfigError::TierNotCompiled { keyspace, tier } => Fault::TierNotCompiled(
                keyspace@,
                tier@,
            ),
            ConfigError::RemoteStorageMissingField(f) => Fault::RemoteStorageMissingField(f@),
            ConfigError::Parse(m) => Fault::Parse(m@),
            ConfigError::Io(m) => Fault::Io(m@),
        }
    }
}

/// What is shown for a refusal.
pub open spec fn fault_text(f: Fault) -> Seq<char> {
    match f {
        Fault::HotTierReplicationConflict(k) => "keyspace '"@ + k
            + "': hot tier does not support replication"@,
        Fault::MissingLeaderAddr =>
            "replication is enabled with role=follower but no leader_addr is set"@,
        Fault::MultiLeaderTier(k) => "keyspace '"@ + k
            + "': multi-leader requires the warm tier (durable, HLC-persisted)"@,
        Fault::MultiLeaderNeedsReplication(k) => "keyspace '"@ + k
            + "': multi-leader requires replication = true"@,
        Fault::ShardedReplicationLeader(k) => "keyspace '"@ + k
            + "': sharded tier cannot be a replication leader (no ordered log)"@,
        Fault::RemovedFilePerKey =>
            "the 'file-per-key' tier was removed — use tier = \"sharded\" instead"@,
        Fault::TierNotCompiled(k, t) => "keyspace '"@ + k + "': tier '"@ + t
            + "' needs the 'cold' build feature (sled) — rebuild with it, or use a different tier"@,
        Fault::RemoteStorageMissingField(f) => "remote storage backend is missing required field '"@
            + f + "' (set it with `falcon config set`)"@,
        Fault::Parse(m) => "failed to parse config: "@ + m,
        Fault::Io(m) => "io error reading config: "@ + m,
    }
}

impl ConfigError {
    /// The message shown for this error.
    pub fn message(&self) -> (s: String)
        ensures
            s@ == fault_text(self@),
    {
        match self {
            ConfigError::HotTierReplicationConflict(k) => concat3(
                "keyspace '",
                k.as_str(),
                "': hot tier does not support replication",
            ),
            ConfigError::MissingLeaderAddr =>
                "replication is enabled with role=follower but no leader_addr is set".to_owned(),
            ConfigError::MultiLeaderTier(k) => concat3(
                "keyspace '",
                k.as_str(),
                "': multi-leader requires the warm tier (durable, HLC-persisted)",
            ),
            ConfigError::MultiLeaderNeedsReplication(k) => concat3(
                "keyspace '",
                k.as_str(),
                "': multi-leader requires replication = true",
            ),
            ConfigError::ShardedReplicationLeader(k) => concat3(
                "keyspace '",
                k.as_str(),
                "': sharded tier cannot be a replication leader (no ordered log)",
            ),
            ConfigError::RemovedFilePerKey =>
                "the 'file-per-key' tier was removed — use tier = \"sharded\" instead".to_owned(),
            ConfigError::TierNotCompiled { keyspace, tier } => {
                let mut s = concat3("keyspace '", keyspace.as_str(), "': tier '");
                s.append(tier);
                s.append(
                    "' needs the 'cold' build feature (sled) — rebuild with it, or use a different tier",
                );
                s
            },
            ConfigError::RemoteStorageMissingField(f) => concat3(
                "remote storage backend is missing required field '",
                f,
                "' (set it with `falcon config set`)",
            ),
            ConfigError::Parse(m) => {
                let mut s = "failed to parse config: ".to_owned();
                s.append(m.as_str());
                s
            },
            ConfigError::Io(m) => {
                let mut s = "io error reading config: ".to_owned();
                s.append(m.as_str());
                s
            },
        }
    }
}

/// The first rule that a keyspace breaks, in a node of the given role.
/// `cold` says whether the binary has the engines that keep their data on
/// disk in full.
pub open spec fn keyspace_fault(k: KeyspaceSpec, role: ReplicationRole, cold: bool) -> Option<
    Fault,
> {
    let shared = k.write_mode != WriteMode::SingleLeader;
    if k.tier == TierName::Hot && k.replication {
        Some(Fault::HotTierReplicationConflict(k.name))
    } else if !cold && (k.tier == TierName::Cold || k.tier == TierName::Tiered) {
        Some(Fault::TierNotCompiled(k.name, k.tier.name()))
    } else if k.tier == TierName::Sharded && k.replication && role == ReplicationRole::Leader {
        Some(Fault::ShardedReplicationLeader(k.name))
    } else if shared && k.tier != TierName::Warm {
        Some(Fault::MultiLeaderTier(k.name))
    } else if shared && !k.replication {
        Some(Fault::MultiLeaderNeedsReplication(k.name))
    } else {
        None
    }
}

/// The first rule that any of the keyspaces breaks.
pub open spec fn keyspaces_fault(
    ks: Seq<KeyspaceConfig>,
    role: ReplicationRole,
    cold: bool,
) -> Option<Fault>
    decreases ks.len(),
{
    if ks.len() == 0 {
        None
    } else {
        match keyspaces_fault(ks.drop_last(), role, cold) {
            Some(f) => Some(f),
            None => keyspace_fault(ks.last()@, role, cold),
        }
    }
}

/// The first required field that a remote store lacks.
pub open spec fn remote_fault(b: StorageBackend) -> Option<Fault> {
    match b {
        StorageBackend::Local => None,
        StorageBackend::Remote(r) => if r.endpoint_url@.len() == 0 {
            Some(Fault::RemoteStorageMissingField("endpoint_url"@))
        } else if r.bucket@.len() == 0 {
            Some(Fault::RemoteStorageMissingField("bucket"@))
        } else if r.access_key_id@.len() == 0 {
            Some(Fault::RemoteStorageMissingField("access_key_id"@))
        } else if r.secret_access_key@.len() == 0 {
            Some(Fault::RemoteStorageMissingField("secret_access_key"@))
        } else {
            None
        },
    }
}

impl ReplicationConfig {
    /// Whether a leader's address is set.
    pub open spec fn has_leader(&self) -> bool {
        self.leader_addr matches Some(a) && a@.len() > 0
    }
}

impl Config {
    /// The first rule that the configuration breaks.
    pub open spec fn fault(&self, cold: bool) -> Option<Fault> {
        match keyspaces_fault(self.keyspaces@, self.replication.role, cold) {
            Some(f) => Some(f),
            None => if self.replication.enabled && self.replication.role
                == ReplicationRole::Follower && !self.replication.has_leader() {
                Some(Fault::MissingLeaderAddr)
            } else {
                remote_fault(self.storage.backend)
            },
        }
    }

    /// Whether a configuration's text names the tier that is gone.
    pub open spec fn names_removed_tier(text: Seq<char>) -> bool {
        crate::text::occurs(text, "file-per-key"@) || crate::text::occurs(text, "fileperkey"@)
    }

    /// Checks the rules between settings. `cold` says whether the binary has
    /// the engines of the cold and tiered tiers.
    pub fn validate(&self, cold: bool) -> (r: Result<(), ConfigError>)
        ensures
            match r {
                Ok(()) => self.fault(cold) is None,
                Err(e) => self.fault(cold) == Some(e@),
            },
    {
        let mut i: usize = 0;
        while i < self.keyspaces.len()
            invariant
                i <= self.keyspaces.len(),
                keyspaces_fault(self.keyspaces@.take(i as int), self.replication.role, cold)
                    is None,
            decreases self.keyspaces.len() - i,
        {
            let ks = &self.keyspaces[i];
            let ghost upto = self.keyspaces@.take(i + 1);
            assert(upto.drop_last() =~= self.keyspaces@.take(i as int));
            assert(upto.last() == ks);
            proof {
                lemma_keyspaces_fault_stays(
                    self.keyspaces@,
                    i + 1,
                    self.replication.role,
                    cold,
                );
            }
            if ks.tier == TierName::Hot && ks.replication {
                return Err(ConfigError::HotTierReplicationConflict(ks.name.clone()));
            }
            if !cold && (ks.tier == TierName::Cold || ks.tier == TierName::Tiered) {
                return Err(
                    ConfigError::TierNotCompiled {
                        keyspace: ks.name.clone(),
                        tier: ks.tier.as_str(),
                    },
                );
            }
            if ks.tier == TierName::Sharded && ks.replication && self.replication.role
                == ReplicationRole::Leader {
                return Err(ConfigError::ShardedReplicationLeader(ks.name.clone()));
            }
            if ks.write_mode == WriteMode::MultiLeader || ks.write_mode == WriteMode::PrimaryQueue {
                if ks.tier != TierName::Warm {
                    return Err(ConfigError::MultiLeaderTier(ks.name.clone()));
                }
                if !ks.replication {
                    return Err(ConfigError::MultiLeaderNeedsReplication(ks.name.clone()));
                }
            }
            i = i + 1;
        }
        assert(self.keyspaces@.take(i as int) =~= self.keyspaces@);
        let has_leader = match &self.replication.leader_addr {
            Some(a) => !is_blank(a),
            None => false,
        };
        if self.replication.enabled && self.replication.role == ReplicationRole::Follower
            && !has_leader {
            return Err(ConfigError::MissingLeaderAddr);
        }
        if let StorageBackend::Remote(r) = &self.storage.backend {
            if is_blank(&r.endpoint_url) {
                return Err(ConfigError::RemoteStorageMissingField("endpoint_url"));
            }
            if is_blank(&r.bucket) {
                return Err(ConfigError::RemoteStorageMissingField("bucket"));
            }
            if is_blank(&r.access_key_id) {
                return Err(ConfigError::RemoteStorageMissingField("access_key_id"));
            }
            if is_blank(&r.secret_access_key) {
                return Err(ConfigError::RemoteStorageMissingField("secret_access_key"));
            }
        }
        Ok(())
    }

    /// A configuration from its text and what a TOML parser made of it (the
    /// value, or the parser's message). The removed tier has an error of its
    /// own, whatever the parser says.
    pub fn from_toml_str(
        text: &str,
        parsed: Result<Config, String>,
        cold: bool,
    ) -> (r: Result<Config, ConfigError>)
        ensures
            match r {
                Ok(c) => !Config::names_removed_tier(text@) && parsed == Ok::<Config, String>(c)
                    && c.fault(cold) is None,
                Err(e) => if Config::names_removed_tier(text@) {
                    e@ == Fault::RemovedFilePerKey
                } else {
                    match parsed {
                        Ok(c) => c.fault(cold) == Some(e@),
                        Err(m) => e@ == Fault::Parse(m@),
                    }
                },
            },
    {
        if contains(text, "file-per-key") || contains(text, "fileperkey") {
            return Err(ConfigError::RemovedFilePerKey);
        }
        match parsed {
            Ok(c) => match c.validate(cold) {
                Ok(()) => Ok(c),
                Err(e) => Err(e),
            },
            Err(m) => Err(ConfigError::Parse(m)),
        }
    }
}

proof fn lemma_keyspaces_fault_stays(
    ks: Seq<KeyspaceConfig>,
    i: int,
    role: ReplicationRole,
    cold: bool,
)
    requires
        0 <= i <= ks.len(),
    ensures
        keyspaces_fault(ks.take(i), role, cold) is Some ==> keyspaces_fault(ks, role, cold)
            == keyspaces_fault(ks.take(i), role, cold),
    decreases ks.len() - i,
{
    if i < ks.len() {
        lemma_keyspaces_fault_stays(ks, i + 1, role, cold);
        assert(ks.take(i + 1).drop_last() =~= ks.take(i));
    } else {
        assert(ks.take(i) =~= ks);
    }
}

/// In a configuration that passes, every keyspace that several regions write
/// to is warm and replicated.
pub proof fn law_valid_shared_writes(c: Config, cold: bool, i: int)
    requires
        c.fault(cold) is None,
        0 <= i < c.keyspaces@.len(),
        c.keyspaces@[i].write_mode != WriteMode::SingleLeader,
    ensures
        c.keyspaces@[i].tier == TierName::Warm,
        c.keyspaces@[i].replication,
{
    lemma_no_fault_each(c.keyspaces@, i, c.replication.role, cold);
}

/// In a configuration that passes, no hot keyspace is replicated, and a
/// leader replicates no sharded one.
pub proof fn law_valid_replicated_tiers(c: Config, cold: bool, i: int)
    requires
        c.fault(cold) is None,
        0 <= i < c.keyspaces@.len(),
        c.keyspaces@[i].replication,
    ensures
        c.keyspaces@[i].tier != TierName::Hot,
        c.replication.role == ReplicationRole::Leader ==> c.keyspaces@[i].tier
            != TierName::Sharded,
{
    lemma_no_fault_each(c.keyspaces@, i, c.replication.role, cold);
}

proof fn lemma_no_fault_each(
    ks: Seq<KeyspaceConfig>,
    i: int,
    role: ReplicationRole,
    cold: bool,
)
    requires
        keyspaces_fault(ks, role, cold) is None,
        0 <= i < ks.len(),
    ensures
        keyspace_fault(ks[i]@, role, cold) is None,
    decreases ks.len(),
{
    if i < ks.len() - 1 {
        lemma_no_fault_each(ks.drop_last(), i, role, cold);
    }
}

/// A configuration passes exactly where every keyspace can be served as asked
/// (a hot one is not replicated, a sharded one not from a leader, what several
/// regions write to is warm and replicated, and the build has its tier), a
/// follower has a leader, and a remote store has all it needs.
pub proof fn law_valid_configurations(c: Config, cold: bool)
    ensures
        c.fault(cold) is None <==> {
            &&& forall|i: int|
                0 <= i < c.keyspaces@.len() ==> {
                    let k = #[trigger] c.keyspaces@[i];
                    &&& k.tier == TierName::Hot ==> !k.replication
                    &&& k.tier == TierName::Cold || k.tier == TierName::Tiered ==> cold
                    &&& k.tier == TierName::Sharded && c.replication.role
                        == ReplicationRole::Leader ==> !k.replication
                    &&& k.write_mode != WriteMode::SingleLeader ==> k.tier == TierName::Warm
                        && k.replication
                }
            &&& c.replication.enabled && c.replication.role == ReplicationRole::Follower ==> (
            c.replication.leader_addr matches Some(a) && a@.len() > 0)
            &&& c.storage.backend matches StorageBackend::Remote(r) ==> r.endpoint_url@.len() > 0
                && r.bucket@.len() > 0 && r.access_key_id@.len() > 0 && r.secret_access_key@.len()
                > 0
        },
{
    let (ks, role) = (c.keyspaces@, c.replication.role);
    if keyspaces_fault(ks, role, cold) is None {
        assert forall|i: int| 0 <= i < ks.len() implies keyspace_fault(
            (#[trigger] ks[i])@,
            role,
            cold,
        ) is None by {
            lemma_no_fault_each(ks, i, role, cold);
        }
    } else {
        lemma_some_fault(ks, role, cold);
    }
}

proof fn lemma_some_fault(ks: Seq<KeyspaceConfig>, role: ReplicationRole, cold: bool)
    requires
        keyspaces_fault(ks, role, cold) is Some,
    ensures
        exists|i: int|
            0 <= i < ks.len() && keyspace_fault((#[trigger] ks[i])@, role, cold) is Some,
    decreases ks.len(),
{
    if ks.len() > 0 {
        let front = ks.drop_last();
        if keyspaces_fault(front, role, cold) is Some {
            lemma_some_fault(front, role, cold);
            let i = choose|i: int|
                0 <= i < front.len() && keyspace_fault((#[trigger] front[i])@, role, cold) is Some;
            assert(ks[i] == front[i]);
        } else {
            assert(keyspace_fault(ks[ks.len() - 1]@, role, cold) is Some);
        }
    }
}

/// The first keyspace with a fault is the one that is told of.
pub proof fn law_first_fault_is_told(c: Config, cold: bool, i: int)
    requires
        0 <= i < c.keyspaces@.len(),
        keyspace_fault(c.keyspaces@[i]@, c.replication.role, cold) is Some,
        forall|j: int|
            0 <= j < i ==> keyspace_fault(
                (#[trigger] c.keyspaces@[j])@,
                c.replication.role,
                cold,
            ) is None,
    ensures
        c.fault(cold) == keyspace_fault(c.keyspaces@[i]@, c.replication.role, cold),
{
    let (ks, role) = (c.keyspaces@, c.replication.role);
    let before = ks.take(i);
    if keyspaces_fault(before, role, cold) is Some {
        lemma_some_fault(before, role, cold);
        let j = choose|j: int|
            0 <= j < before.len() && keyspace_fault((#[trigger] before[j])@, role, cold) is Some;
        assert(before[j] == ks[j]);
    }
    assert(ks.take(i + 1).drop_last() =~= before);
    lemma_keyspaces_fault_stays(ks, i + 1, role, cold);
}

/// Which fault a keyspace has, by the first that applies.
pub proof fn law_faults_of_a_keyspace(k: KeyspaceSpec, role: ReplicationRole, cold: bool)
    ensures
        ({
            let f = keyspace_fault(k, role, cold);
            let uncompiled = !cold && (k.tier == TierName::Cold || k.tier == TierName::Tiered);
            &&& k.tier == TierName::Hot && k.replication ==> f == Some(
                Fault::HotTierReplicationConflict(k.name),
            )
            &&& uncompiled ==> f == Some(Fault::TierNotCompiled(k.name, k.tier.name()))
            &&& k.tier == TierName::Sharded && k.replication && role == ReplicationRole::Leader
                ==> f == Some(Fault::ShardedReplicationLeader(k.name))
            &&& k.tier == TierName::Warm && k.write_mode != WriteMode::SingleLeader
                && !k.replication ==> f == Some(Fault::MultiLeaderNeedsReplication(k.name))
            &&& f matches Some(Fault::MultiLeaderTier(n)) ==> n == k.name && k.tier != TierName::Warm
                && k.write_mode != WriteMode::SingleLeader
        }),
{
}

/// A fault is told in these words.
pub proof fn law_faults_in_words(f: Fault)
    ensures
        match f {
            Fault::HotTierReplicationConflict(k) => fault_text(f) == "keyspace '"@ + k
                + "': hot tier does not support replication"@,
            Fault::MissingLeaderAddr => fault_text(f)
                == "replication is enabled with role=follower but no leader_addr is set"@,
            Fault::MultiLeaderTier(k) => fault_text(f) == "keyspace '"@ + k
                + "': multi-leader requires the warm tier (durable, HLC-persisted)"@,
            Fault::MultiLeaderNeedsReplication(k) => fault_text(f) == "keyspace '"@ + k
                + "': multi-leader requires replication = true"@,
            Fault::ShardedReplicationLeader(k) => fault_text(f) == "keyspace '"@ + k
                + "': sharded tier cannot be a replication leader (no ordered log)"@,
            Fault::RemovedFilePerKey => fault_text(f)
                == "the 'file-per-key' tier was removed — use tier = \"sharded\" instead"@,
            Fault::TierNotCompiled(k, t) => fault_text(f) == "keyspace '"@ + k + "': tier '"@ + t
                + "' needs the 'cold' build feature (sled) — rebuild with it, or use a different tier"@,
            Fault::RemoteStorageMissingField(n) => fault_text(f)
                == "remote storage backend is missing required field '"@ + n
                + "' (set it with `falcon config set`)"@,
            Fault::Parse(m) => fault_text(f) == "failed to parse config: "@ + m,
            Fault::Io(m) => fault_text(f) == "io error reading config: "@ + m,
        },
{
}

/// The first field that a remote store lacks is the one that is told of; its
/// region and prefix may be empty.
pub proof fn law_remote_store_needs_its_fields(r: RemoteBackendConfig)
    ensures
        ({
            let f = remote_fault(StorageBackend::Remote(r));
            let needed = seq![
                ("endpoint_url"@, r.endpoint_url@),
                ("bucket"@, r.bucket@),
                ("access_key_id"@, r.access_key_id@),
                ("secret_access_key"@, r.secret_access_key@),
            ];
            &&& f is None <==> forall|i: int|
                0 <= i < needed.len() ==> (#[trigger] needed[i]).1.len() > 0
            &&& forall|i: int|
                #![trigger needed[i]]
                0 <= i < needed.len() && needed[i].1.len() == 0 && (forall|j: int|
                    0 <= j < i ==> (#[trigger] needed[j]).1.len() > 0) ==> f == Some(
                    Fault::RemoteStorageMissingField(needed[i].0),
                )
        }),
        remote_fault(StorageBackend::Local) is None,
{
    let needed = seq![
        ("endpoint_url"@, r.endpoint_url@),
        ("bucket"@, r.bucket@),
        ("access_key_id"@, r.access_key_id@),
        ("secret_access_key"@, r.secret_access_key@),
    ];
    let f = remote_fault(StorageBackend::Remote(r));
    assert(needed[0].1 == r.endpoint_url@ && needed[1].1 == r.bucket@ && needed[2].1
        == r.access_key_id@ && needed[3].1 == r.secret_access_key@);
}

/// A text that names the tier that is gone, anywhere, names it.
pub proof fn law_removed_tier_is_noticed(a: Seq<char>, b: Seq<char>, text: Seq<char>)
    ensures
        Config::names_removed_tier(a + "file-per-key"@ + b),
        Config::names_removed_tier(a + "fileperkey"@ + b),
        Config::names_removed_tier(text) ==> (exists|x: Seq<char>, y: Seq<char>|
            text == #[trigger] (x + "file-per-key"@ + y)) || (exists|x: Seq<char>, y: Seq<char>|
            text == #[trigger] (x + "fileperkey"@ + y)),
{
    crate::text::law_parts_of_a_text(a + "file-per-key"@ + b, "file-per-key"@);
    crate::text::law_parts_of_a_text(a + "fileperkey"@ + b, "fileperkey"@);
    crate::text::law_parts_of_a_text(text, "file-per-key"@);
    crate::text::law_parts_of_a_text(text, "fileperkey"@);
}

/// A part of a configuration by its contents is what its fields hold.
pub proof fn law_parts_are_what_they_hold(
    k: KeyspaceConfig,
    t: TopicConfig,
    q: QueueConfig,
    s: StreamConfig,
    p: PeerConfig,
)
    ensures
        k@.name == k.name@ && k@.tier == k.tier && k@.subscriptions == k.subscriptions
            && k@.replication == k.replication && k@.hot_capacity_mb == k.hot_capacity_mb
            && k@.evict_sample == k.evict_sample && k@.shard_buckets == k.shard_buckets
            && k@.shard_flush_ms == k.shard_flush_ms && k@.default_ttl_secs == k.default_ttl_secs
            && k@.interval_fsync_ms == k.interval_fsync_ms && k@.write_mode == k.write_mode
            && k@.storage_subdir == k.storage_subdir@,
        t@ == (t.name@, t.mode, t.capacity),
        q@ == (q.name@, q.ack_timeout_secs),
        s@ == (s.name@, s.partitions, s.capacity, s.interval_fsync_ms),
        p@ == (p.node_id@, p.addr@),
{
}

/// What is not configured, and when transport security and a leader are there.
pub proof fn law_defaults(t: TlsConfig, r: ReplicationConfig)
    ensures
        plain_keyspace() == (KeyspaceSpec {
            name: "default"@,
            tier: TierName::Warm,
            subscriptions: false,
            replication: false,
            hot_capacity_mb: 256,
            evict_sample: 8,
            shard_buckets: 4096,
            shard_flush_ms: 0,
            default_ttl_secs: 0,
            interval_fsync_ms: 0,
            write_mode: WriteMode::SingleLeader,
            storage_subdir: Seq::empty(),
        }),
        default_ops() == (OpsConfig {
            metrics_enabled: true,
            compaction_enabled: true,
            compaction_interval_secs: 300,
            compaction_min_bytes: 67108864,
            shutdown_grace_secs: 25,
        }),
        DEFAULT_MAX_VALUE_BYTES == 67108864,
        DEFAULT_TOPIC_CAPACITY == 1024,
        DEFAULT_ACK_TIMEOUT_SECS == 30,
        DEFAULT_STREAM_PARTITIONS == 1,
        DEFAULT_STREAM_CAPACITY == 1024,
        t.on() <==> t.enabled && t.cert_file@.len() > 0 && t.key_file@.len() > 0,
        r.has_leader() <==> (r.leader_addr matches Some(a) && a@.len() > 0),
{
}

/// A tier is called by its name.
pub proof fn law_tier_names(t: TierName)
    ensures
        t.name() == match t {
            TierName::Hot => "hot"@,
            TierName::Warm => "warm"@,
            TierName::Cold => "cold"@,
            TierName::Tiered => "tiered"@,
            TierName::Sharded => "sharded"@,
        },
{
}

/// A configuration error by its contents is what it holds.
pub proof fn law_config_error_is_what_it_holds(e: ConfigError)
    ensures
        match e {
            ConfigError::HotTierReplicationConflict(k) => e@ == Fault::HotTierReplicationConflict(k@),
            ConfigError::MissingLeaderAddr => e@ is MissingLeaderAddr,
            ConfigError::MultiLeaderTier(k) => e@ == Fault::MultiLeaderTier(k@),
            ConfigError::MultiLeaderNeedsReplication(k) => e@ == Fault::MultiLeaderNeedsReplication(
                k@,
            ),
            ConfigError::ShardedReplicationLeader(k) => e@ == Fault::ShardedReplicationLeader(k@),
            ConfigError::RemovedFilePerKey => e@ is RemovedFilePerKey,
            ConfigError::TierNotCompiled { keyspace, tier } => e@ == Fault::TierNotCompiled(
                keyspace@,
                tier@,
            ),
            ConfigError::RemoteStorageMissingField(f) => e@ == Fault::RemoteStorageMissingField(f@),
            ConfigError::Parse(m) => e@ == Fault::Parse(m@),
            ConfigError::Io(m) => e@ == Fault::Io(m@),
        },
{
}

} // verus!
