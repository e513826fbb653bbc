//! The profile: what a node runs, and every setting a user can change.
//!
//! A node's whole configuration lives in one profile. Settings are changed
//! and shown by name through `set` and `get`; `to_config` makes the runtime
//! configuration that a profile describes.

use crate::config::{
    plain_keyspace, Config, KeyspaceConfig, KeyspaceSpec, PeerConfig, QueueConfig,
    RemoteBackendConfig, ReplicationRole, StorageBackend, StreamConfig, TierName, TlsConfig,
    TopicConfig, TopicModeConfig, WriteMode,
};
use crate::feature::{Feature, FeatureSet};
use crate::text::{
    is_blank, join, joined, lowered, path_join, path_joined, pieces, same, show, split, to_lower,
    trim, trimmed, views,
};
use vstd::prelude::*;
use vstd::string::StringExecFns;

verus! {

/// Where the profile lies: `.falcon/profile.toml` under the home directory,
/// or under the working directory where there is no home.
pub open spec fn profile_path(home: Option<Seq<char>>) -> Seq<char> {
    let base = match home {
        Some(h) if h.len() > 0 => h,
        _ => "."@,
    };
    path_joined(path_joined(base, ".falcon"@), "profile.toml"@)
}

pub fn default_profile_path(home: Option<String>) -> (p: String)
    ensures
        p@ == profile_path(
            match home {
                Some(h) => Some(h@),
                None => None,
            },
        ),
{
    let base = match home {
        Some(h) => if is_blank(&h) {
            ".".to_owned()
        } else {
            h
        },
        None => ".".to_owned(),
    };
    path_join(path_join(base.as_str(), ".falcon").as_str(), "profile.toml")
}

/// A node's identity and network settings.
#[derive(Clone, Debug)]
pub struct ProfileNode {
    pub id: String,
    pub region: String,
    pub http_bind: String,
    pub wire_bind: String,
    pub wire_enabled: bool,
    pub api_key: String,
    pub data_dir: String,
    pub log_level: String,
    pub tls_enabled: bool,
    pub tls_cert: String,
    pub tls_key: String,
}

impl Default for ProfileNode {
    fn default() -> (n: Self)
        ensures
            n.id@ == "node-1"@,
            n.region@ == "local"@,
            n.http_bind@ == "0.0.0.0:8080"@,
            n.wire_bind@ == "0.0.0.0:6380"@,
            !n.wire_enabled,
            n.api_key@ == Seq::<char>::empty(),
            n.data_dir@ == "./data"@,
            n.log_level@ == "info"@,
            !n.tls_enabled,
            n.tls_cert@ == Seq::<char>::empty(),
            n.tls_key@ == Seq::<char>::empty(),
    {
        ProfileNode {
            id: "node-1".to_owned(),
            region: "local".to_owned(),
            http_bind: "0.0.0.0:8080".to_owned(),
            wire_bind: "0.0.0.0:6380".to_owned(),
            wire_enabled: false,
            api_key: String::new(),
            data_dir: "./data".to_owned(),
            log_level: "info".to_owned(),
            tls_enabled: false,
            tls_cert: String::new(),
            tls_key: String::new(),
        }
    }
}

/// Replication settings, the same for every product.
#[derive(Clone, Debug)]
pub struct ProfileReplication {
    pub enabled: bool,
    /// `leader` or `follower`.
    pub role: String,
    pub grpc_bind: String,
    /// The leader's address, for a follower.
    pub leader_addr: String,
    pub peers: Vec<String>,
    /// `single-leader`, `multi-leader` or `primary-queue`.
    pub write_mode: String,
}

impl Default for ProfileReplication {
    fn default() -> (r: Self)
        ensures
            !r.enabled,
            r.role@ == "leader"@,
            r.grpc_bind@ == "0.0.0.0:7070"@,
            r.leader_addr@ == Seq::<char>::empty(),
            r.peers@.len() == 0,
            r.write_mode@ == "single-leader"@,
    {
        ProfileReplication {
            enabled: false,
            role: "leader".to_owned(),
            grpc_bind: "0.0.0.0:7070".to_owned(),
            leader_addr: String::new(),
            peers: Vec::new(),
            write_mode: "single-leader".to_owned(),
        }
    }
}

/// Where the sharded tier keeps its objects: `local`, or `remote` with the
/// details of a store that the operator specifies.
#[derive(Clone, Debug)]
pub struct ProfileStorage {
    pub backend: String,
    pub remote_endpoint_url: String,
    pub remote_region: String,
    pub remote_bucket: String,
    pub remote_access_key_id: String,
    pub remote_secret_access_key: String,
    pub remote_prefix: String,
}

impl Default for ProfileStorage {
    fn default() -> (s: Self)
        ensures
            s.backend@ == "local"@,
            s.remote_endpoint_url@ == Seq::<char>::empty(),
            s.remote_region@ == Seq::<char>::empty(),
            s.remote_bucket@ == Seq::<char>::empty(),
            s.remote_access_key_id@ == Seq::<char>::empty(),
            s.remote_secret_access_key@ == Seq::<char>::empty(),
            s.remote_prefix@ == Seq::<char>::empty(),
    {
        ProfileStorage {
            backend: "local".to_owned(),
            remote_endpoint_url: String::new(),
            remote_region: String::new(),
            remote_bucket: String::new(),
            remote_access_key_id: String::new(),
            remote_secret_access_key: String::new(),
            remote_prefix: String::new(),
        }
    }
}

/// Which products run on a node, and their settings.
#[derive(Clone, Debug)]
pub struct Profile {
    pub features: FeatureSet,
    pub node: ProfileNode,
    pub replication: ProfileReplication,
    pub storage: ProfileStorage,
}

/// Why a profile could not be read, written or changed.
#[derive(Debug)]
pub enum ProfileError {
    NotFound(String),
    Parse(String),
    Serialize(String),
    Io(String),
    UnknownKey(String),
    InvalidValue { key: String, reason: String },
}

impl ProfileError {
    pub open spec fn text(&self) -> Seq<char> {
        match self {
            ProfileError::NotFound(p) => "no profile found at "@ + p@
                + " — run `falcon install <feature>` first"@,
            ProfileError::Parse(m) => "failed to parse profile: "@ + m@,
            ProfileError::Serialize(m) => "failed to serialize profile: "@ + m@,
            ProfileError::Io(m) => "io error on profile file: "@ + m@,
            ProfileError::UnknownKey(k) => "unknown config key '"@ + k@ + "'"@,
            ProfileError::InvalidValue { key, reason } => "invalid value for '"@ + key@ + "': "@
                + reason@,
        }
    }

    /// The message shown for this error.
    pub fn message(&self) -> (s: String)
        ensures
            s@ == self.text(),
    {
        match self {
            ProfileError::NotFound(p) => crate::text::concat3(
                "no profile found at ",
                p.as_str(),
                " — run `falcon install <feature>` first",
            ),
            ProfileError::Parse(m) => "failed to parse profile: ".to_owned().concat(m.as_str()),
            ProfileError::Serialize(m) => "failed to serialize profile: ".to_owned().concat(
                m.as_str(),
            ),
            ProfileError::Io(m) => "io error on profile file: ".to_owned().concat(m.as_str()),
            ProfileError::UnknownKey(k) => crate::text::concat3(
                "unknown config key '",
                k.as_str(),
                "'",
            ),
            ProfileError::InvalidValue { key, reason } => crate::text::concat3(
                "invalid value for '",
                key.as_str(),
                "': ",
            ).concat(reason.as_str()),
        }
    }
}

/// One setting of a profile. Several names may stand for it.
#[derive(Clone, Copy, Debug, PartialEq, Eq, Structural)]
pub enum Setting {
    NodeId,
    NodeRegion,
    HttpBind,
    WireBind,
    WireEnabled,
    ApiKey,
    DataDir,
    LogLevel,
    TlsEnabled,
    TlsCert,
    TlsKey,
    ReplicationEnabled,
    ReplicationRole,
    GrpcBind,
    LeaderAddr,
    Peers,
    WriteMode,
    Backend,
    RemoteUrl,
    RemoteRegion,
    RemoteBucket,
    RemoteAccessKeyId,
    RemoteSecretAccessKey,
    RemotePrefix,
}

/// What a setting holds.
pub ghost enum SettingValue {
    Text(Seq<char>),
    Flag(bool),
    List(Seq<Seq<char>>),
}

/// The yes-or-no that a word stands for, case and surrounding white space
/// aside.
pub open spec fn flag_of(s: Seq<char>) -> Option<bool> {
    let w = lowered(trimmed(s));
    if w == "true"@ || w == "1"@ || w == "yes"@ || w == "on"@ {
        Some(true)
    } else if w == "false"@ || w == "0"@ || w == "no"@ || w == "off"@ {
        Some(false)
    } else {
        None
    }
}

pub open spec fn flag_text(b: bool) -> Seq<char> {
    if b {
        "true"@
    } else {
        "false"@
    }
}

/// The non-empty parts, without white space around them.
pub open spec fn kept(parts: Seq<Seq<char>>) -> Seq<Seq<char>>
    decreases parts.len(),
{
    if parts.len() == 0 {
        Seq::empty()
    } else {
        let t = trimmed(parts.last());
        if t.len() == 0 {
            kept(parts.drop_last())
        } else {
            kept(parts.drop_last()).push(t)
        }
    }
}

/// The peers that a comma-separated list names.
pub open spec fn peer_list(s: Seq<char>) -> Seq<Seq<char>> {
    kept(pieces(s, ','))
}

impl SettingValue {
    /// How a value is shown.
    pub open spec fn shown(self) -> Seq<char> {
        match self {
            SettingValue::Text(t) => t,
            SettingValue::Flag(b) => flag_text(b),
            SettingValue::List(l) => joined(l, ","@),
        }
    }
}

impl Setting {
    /// The setting that a name stands for.
    pub open spec fn named(key: Seq<char>) -> Option<Setting> {
        if key == "node.id"@ || key == "id"@ {
            Some(Setting::NodeId)
        } else if key == "node.region"@ || key == "region"@ {
            Some(Setting::NodeRegion)
        } else if key == "http-bind"@ || key == "http_bind"@ || key == "node.http_bind"@ {
            Some(Setting::HttpBind)
        } else if key == "wire-bind"@ || key == "wire_bind"@ || key == "node.wire_bind"@ {
            Some(Setting::WireBind)
        } else if key == "wire-enabled"@ || key == "wire_enabled"@ {
            Some(Setting::WireEnabled)
        } else if key == "api-key"@ || key == "api_key"@ || key == "auth.api_key"@ {
            Some(Setting::ApiKey)
        } else if key == "data-dir"@ || key == "data_dir"@ || key == "node.data_dir"@ {
            Some(Setting::DataDir)
        } else if key == "log-level"@ || key == "log_level"@ {
            Some(Setting::LogLevel)
        } else if key == "tls-enabled"@ || key == "tls_enabled"@ {
            Some(Setting::TlsEnabled)
        } else if key == "tls-cert"@ || key == "tls_cert"@ {
            Some(Setting::TlsCert)
        } else if key == "tls-key"@ || key == "tls_key"@ {
            Some(Setting::TlsKey)
        } else if key == "replication.enabled"@ || key == "replicate"@ {
            Some(Setting::ReplicationEnabled)
        } else if key == "replication.role"@ {
            Some(Setting::ReplicationRole)
        } else if key == "replication.grpc_bind"@ || key == "grpc-bind"@ {
            Some(Setting::GrpcBind)
        } else if key == "replication.leader_addr"@ || key == "leader-addr"@ {
            Some(Setting::LeaderAddr)
        } else if key == "replication.peers"@ || key == "peers"@ {
            Some(Setting::Peers)
        } else if key == "replication.write_mode"@ || key == "write-mode"@ {
            Some(Setting::WriteMode)
        } else if key == "storage.backend"@ || key == "storage"@ {
            Some(Setting::Backend)
        } else if key == "storage.remote.url"@ || key == "remote-url"@ || key == "s3-url"@ {
            Some(Setting::RemoteUrl)
        } else if key == "storage.remote.region"@ || key == "remote-region"@ || key == "s3-region"@ {
            Some(Setting::RemoteRegion)
        } else if key == "storage.remote.bucket"@ || key == "remote-bucket"@ || key == "s3-bucket"@ {
            Some(Setting::RemoteBucket)
        } else if key == "storage.remote.access_key_id"@ || key == "remote-access-key"@ || key == "s3-access-key"@ {
            Some(Setting::RemoteAccessKeyId)
        } else if key == "storage.remote.secret_access_key"@ || key == "remote-secret-key"@ || key == "s3-secret-key"@ {
            Some(Setting::RemoteSecretAccessKey)
        } else if key == "storage.remote.prefix"@ || key == "remote-prefix"@ || key == "s3-prefix"@ {
            Some(Setting::RemotePrefix)
        } else {
            None
        }
    }

    /// The value that a setting takes from a text, where it accepts it.
    pub open spec fn accepts(self, value: Seq<char>) -> Option<SettingValue> {
        match self {
            Setting::WireEnabled | Setting::TlsEnabled | Setting::ReplicationEnabled =>
                match flag_of(value) {
                    Some(b) => Some(SettingValue::Flag(b)),
                    None => None,
                },
            Setting::ReplicationRole => if value == "leader"@ || value == "follower"@ {
                Some(SettingValue::Text(value))
            } else {
                None
            },
            Setting::Peers => Some(SettingValue::List(peer_list(value))),
            Setting::WriteMode => if value == "single-leader"@ || value == "multi-leader"@ || value
                == "primary-queue"@ {
                Some(SettingValue::Text(value))
            } else {
                None
            },
            Setting::Backend => if value == "s3"@ || value == "remote"@ {
                Some(SettingValue::Text("remote"@))
            } else if value == "local"@ {
                Some(SettingValue::Text(value))
            } else {
                None
            },
            _ => Some(SettingValue::Text(value)),
        }
    }

    /// Why a setting refuses a value.
    pub open spec fn expectation(self) -> Seq<char> {
        match self {
            Setting::ReplicationRole => "expected 'leader' or 'follower'"@,
            Setting::WriteMode => "expected 'single-leader', 'multi-leader', or 'primary-queue'"@,
            Setting::Backend => "expected 'local' or 'remote'"@,
            _ => "expected true/false"@,
        }
    }

    /// Reads a setting's name.
    pub fn parse(key: &str) -> (r: Option<Setting>)
        ensures
            r == Setting::named(key@),
    {
        if same(key, "node.id") || same(key, "id") {
            Some(Setting::NodeId)
        } else if same(key, "node.region") || same(key, "region") {
            Some(Setting::NodeRegion)
        } else if same(key, "http-bind") || same(key, "http_bind") || same(key, "node.http_bind") {
            Some(Setting::HttpBind)
        } else if same(key, "wire-bind") || same(key, "wire_bind") || same(key, "node.wire_bind") {
            Some(Setting::WireBind)
        } else if same(key, "wire-enabled") || same(key, "wire_enabled") {
            Some(Setting::WireEnabled)
        } else if same(key, "api-key") || same(key, "api_key") || same(key, "auth.api_key") {
            Some(Setting::ApiKey)
        } else if same(key, "data-dir") || same(key, "data_dir") || same(key, "node.data_dir") {
            Some(Setting::DataDir)
        } else if same(key, "log-level") || same(key, "log_level") {
            Some(Setting::LogLevel)
        } else if same(key, "tls-enabled") || same(key, "tls_enabled") {
            Some(Setting::TlsEnabled)
        } else if same(key, "tls-cert") || same(key, "tls_cert") {
            Some(Setting::TlsCert)
        } else if same(key, "tls-key") || same(key, "tls_key") {
            Some(Setting::TlsKey)
        } else if same(key, "replication.enabled") || same(key, "replicate") {
            Some(Setting::ReplicationEnabled)
        } else if same(key, "replication.role") {
            Some(Setting::ReplicationRole)
        } else if same(key, "replication.grpc_bind") || same(key, "grpc-bind") {
            Some(Setting::GrpcBind)
        } else if same(key, "replication.leader_addr") || same(key, "leader-addr") {
            Some(Setting::LeaderAddr)
        } else if same(key, "replication.peers") || same(key, "peers") {
            Some(Setting::Peers)
        } else if same(key, "replication.write_mode") || same(key, "write-mode") {
            Some(Setting::WriteMode)
        } else if same(key, "storage.backend") || same(key, "storage") {
            Some(Setting::Backend)
        } else if same(key, "storage.remote.url") || same(key, "remote-url") || same(key, "s3-url") {
            Some(Setting::RemoteUrl)
        } else if same(key, "storage.remote.region") || same(key, "remote-region") || same(key, "s3-region") {
            Some(Setting::RemoteRegion)
        } else if same(key, "storage.remote.bucket") || same(key, "remote-bucket") || same(key, "s3-bucket") {
            Some(Setting::RemoteBucket)
        } else if same(key, "storage.remote.access_key_id") || same(key, "remote-access-key") || same(key, "s3-access-key") {
            Some(Setting::RemoteAccessKeyId)
        } else if same(key, "storage.remote.secret_access_key") || same(key, "remote-secret-key") || same(key, "s3-secret-key") {
            Some(Setting::RemoteSecretAccessKey)
        } else if same(key, "storage.remote.prefix") || same(key, "remote-prefix") || same(key, "s3-prefix") {
            Some(Setting::RemotePrefix)
        } else {
            None
        }
    }
}

/// Reads a yes-or-no.
fn parse_bool(s: &str) -> (r: Option<bool>)
    ensures
        r == flag_of(s@),
{
    let word = to_lower(trim(s).as_str());
    let w = word.as_str();
    if same(w, "true") || same(w, "1") || same(w, "yes") || same(w, "on") {
        Some(true)
    } else if same(w, "false") || same(w, "0") || same(w, "no") || same(w, "off") {
        Some(false)
    } else {
        None
    }
}

/// Reads a comma-separated list of peers.
fn parse_peers(s: &str) -> (out: Vec<String>)
    ensures
        views(out@) == peer_list(s@),
{
    let parts = split(s, ',');
    let mut out: Vec<String> = Vec::new();
    let mut i: usize = 0;
    while i < parts.len()
        invariant
            i <= parts.len(),
            views(out@) == kept(views(parts@).take(i as int)),
        decreases parts.len() - i,
    {
        assert(views(parts@).take(i + 1).drop_last() =~= views(parts@).take(i as int));
        let t = trim(parts[i].as_str());
        if !is_blank(&t) {
            let ghost before = views(out@);
            let ghost tv = t@;
            out.push(t);
            assert(views(out@) =~= before.push(tv));
        }
        i = i + 1;
    }
    assert(views(parts@).take(i as int) =~= views(parts@));
    out
}

fn show_flag(b: bool) -> (s: String)
    ensures
        s@ == flag_text(b),
{
    if b {
        "true".to_owned()
    } else {
        "false".to_owned()
    }
}

impl Default for Profile {
    fn default() -> (p: Self)
        ensures
            p.is_blank_profile(),
    {
        let p = Profile {
            features: FeatureSet::default(),
            node: ProfileNode::default(),
            replication: ProfileReplication::default(),
            storage: ProfileStorage::default(),
        };
        assert(views(p.replication.peers@) =~= Seq::empty());
        p
    }
}

impl Profile {
    /// What a setting holds in this profile.
    pub open spec fn field(&self, s: Setting) -> SettingValue {
        match s {
            Setting::NodeId => SettingValue::Text(self.node.id@),
            Setting::NodeRegion => SettingValue::Text(self.node.region@),
            Setting::HttpBind => SettingValue::Text(self.node.http_bind@),
            Setting::WireBind => SettingValue::Text(self.node.wire_bind@),
            Setting::WireEnabled => SettingValue::Flag(self.node.wire_enabled),
            Setting::ApiKey => SettingValue::Text(self.node.api_key@),
            Setting::DataDir => SettingValue::Text(self.node.data_dir@),
            Setting::LogLevel => SettingValue::Text(self.node.log_level@),
            Setting::TlsEnabled => SettingValue::Flag(self.node.tls_enabled),
            Setting::TlsCert => SettingValue::Text(self.node.tls_cert@),
            Setting::TlsKey => SettingValue::Text(self.node.tls_key@),
            Setting::ReplicationEnabled => SettingValue::Flag(self.replication.enabled),
            Setting::ReplicationRole => SettingValue::Text(self.replication.role@),
            Setting::GrpcBind => SettingValue::Text(self.replication.grpc_bind@),
            Setting::LeaderAddr => SettingValue::Text(self.replication.leader_addr@),
            Setting::Peers => SettingValue::List(views(self.replication.peers@)),
            Setting::WriteMode => SettingValue::Text(self.replication.write_mode@),
            Setting::Backend => SettingValue::Text(self.storage.backend@),
            Setting::RemoteUrl => SettingValue::Text(self.storage.remote_endpoint_url@),
            Setting::RemoteRegion => SettingValue::Text(self.storage.remote_region@),
            Setting::RemoteBucket => SettingValue::Text(self.storage.remote_bucket@),
            Setting::RemoteAccessKeyId => SettingValue::Text(self.storage.remote_access_key_id@),
            Setting::RemoteSecretAccessKey => SettingValue::Text(self.storage.remote_secret_access_key@),
            Setting::RemotePrefix => SettingValue::Text(self.storage.remote_prefix@),
        }
    }

    /// The profile of a node that nothing was installed on.
    pub open spec fn is_blank_profile(&self) -> bool {
        &&& self.features@.len() == 0
        &&& self.field(Setting::NodeId) == SettingValue::Text("node-1"@)
        &&& self.field(Setting::NodeRegion) == SettingValue::Text("local"@)
        &&& self.field(Setting::HttpBind) == SettingValue::Text("0.0.0.0:8080"@)
        &&& self.field(Setting::WireBind) == SettingValue::Text("0.0.0.0:6380"@)
        &&& self.field(Setting::WireEnabled) == SettingValue::Flag(false)
        &&& self.field(Setting::ApiKey) == SettingValue::Text(Seq::empty())
        &&& self.field(Setting::DataDir) == SettingValue::Text("./data"@)
        &&& self.field(Setting::LogLevel) == SettingValue::Text("info"@)
        &&& self.field(Setting::TlsEnabled) == SettingValue::Flag(false)
        &&& self.field(Setting::TlsCert) == SettingValue::Text(Seq::empty())
        &&& self.field(Setting::TlsKey) == SettingValue::Text(Seq::empty())
        &&& self.field(Setting::ReplicationEnabled) == SettingValue::Flag(false)
        &&& self.field(Setting::ReplicationRole) == SettingValue::Text("leader"@)
        &&& self.field(Setting::GrpcBind) == SettingValue::Text("0.0.0.0:7070"@)
        &&& self.field(Setting::LeaderAddr) == SettingValue::Text(Seq::empty())
        &&& self.field(Setting::Peers) == SettingValue::List(Seq::empty())
        &&& self.field(Setting::WriteMode) == SettingValue::Text("single-leader"@)
        &&& self.field(Setting::Backend) == SettingValue::Text("local"@)
        &&& self.field(Setting::RemoteUrl) == SettingValue::Text(Seq::empty())
        &&& self.field(Setting::RemoteRegion) == SettingValue::Text(Seq::empty())
        &&& self.field(Setting::RemoteBucket) == SettingValue::Text(Seq::empty())
        &&& self.field(Setting::RemoteAccessKeyId) == SettingValue::Text(Seq::empty())
        &&& self.field(Setting::RemoteSecretAccessKey) == SettingValue::Text(Seq::empty())
        &&& self.field(Setting::RemotePrefix) == SettingValue::Text(Seq::empty())
    }

    /// Whether this profile is `before` with one setting changed to `v`.
    pub open spec fn changed(&self, before: Profile, s: Setting, v: SettingValue) -> bool {
        &&& self.features@ == before.features@
        &&& forall|t: Setting| #[trigger]
            self.field(t) == if t == s {
                v
            } else {
                before.field(t)
            }
    }

    /// The loaded profile, or the blank one where there was none to load.
    pub fn load_or_default(loaded: Result<Profile, ProfileError>) -> (r: Result<
        Profile,
        ProfileError,
    >)
        ensures
            match loaded {
                Err(ProfileError::NotFound(_)) => r matches Ok(p) && p.is_blank_profile(),
                _ => r == loaded,
            },
    {
        match loaded {
            Ok(p) => Ok(p),
            Err(ProfileError::NotFound(_)) => Ok(Profile::default()),
            Err(e) => Err(e),
        }
    }

    /// Changes the setting of a given name to the value that a text stands
    /// for.
    pub fn set(&mut self, key: &str, value: &str) -> (r: Result<(), ProfileError>)
        ensures
            match Setting::named(key@) {
                None => (r matches Err(ProfileError::UnknownKey(k)) && k@ == key@) && *final(self)
                    == *old(self),
                Some(s) => match s.accepts(value@) {
                    Some(v) => r is Ok && final(self).changed(*old(self), s, v),
                    None => (r matches Err(ProfileError::InvalidValue { key: k, reason }) && k@
                        == key@ && reason@ == s.expectation()) && *final(self) == *old(self),
                },
            },
    {
        let setting = match Setting::parse(key) {
            Some(s) => s,
            None => {
                return Err(ProfileError::UnknownKey(key.to_owned()));
            },
        };
        match setting {
            Setting::NodeId => {
                self.node.id = value.to_owned();
            },
            Setting::NodeRegion => {
                self.node.region = value.to_owned();
            },
            Setting::HttpBind => {
                self.node.http_bind = value.to_owned();
            },
            Setting::WireBind => {
                self.node.wire_bind = value.to_owned();
            },
            Setting::WireEnabled => match parse_bool(value) {
                Some(b) => {
                    self.node.wire_enabled = b;
                },
                None => {
                    return Err(refused(key, "expected true/false"));
                },
            },
            Setting::ApiKey => {
                self.node.api_key = value.to_owned();
            },
            Setting::DataDir => {
                self.node.data_dir = value.to_owned();
            },
            Setting::LogLevel => {
                self.node.log_level = value.to_owned();
            },
            Setting::TlsEnabled => match parse_bool(value) {
                Some(b) => {
                    self.node.tls_enabled = b;
                },
                None => {
                    return Err(refused(key, "expected true/false"));
                },
            },
            Setting::TlsCert => {
                self.node.tls_cert = value.to_owned();
            },
            Setting::TlsKey => {
                self.node.tls_key = value.to_owned();
            },
            Setting::ReplicationEnabled => match parse_bool(value) {
                Some(b) => {
                    self.replication.enabled = b;
                },
                None => {
                    return Err(refused(key, "expected true/false"));
                },
            },
            Setting::ReplicationRole => {
                if !same(value, "leader") && !same(value, "follower") {
                    return Err(refused(key, "expected 'leader' or 'follower'"));
                }
                self.replication.role = value.to_owned();
            },
            Setting::GrpcBind => {
                self.replication.grpc_bind = value.to_owned();
            },
            Setting::LeaderAddr => {
                self.replication.leader_addr = value.to_owned();
            },
            Setting::Peers => {
                self.replication.peers = parse_peers(value);
            },
            Setting::WriteMode => {
                if !same(value, "single-leader") && !same(value, "multi-leader") && !same(
                    value,
                    "primary-queue",
                ) {
                    return Err(
                        refused(
                            key,
                            "expected 'single-leader', 'multi-leader', or 'primary-queue'",
                        ),
                    );
                }
                self.replication.write_mode = value.to_owned();
            },
            Setting::Backend => {
                let v = if same(value, "s3") {
                    "remote"
                } else {
                    value
                };
                if !same(v, "local") && !same(v, "remote") {
                    return Err(refused(key, "expected 'local' or 'remote'"));
                }
                self.storage.backend = v.to_owned();
            },
            Setting::RemoteUrl => {
                self.storage.remote_endpoint_url = value.to_owned();
            },
            Setting::RemoteRegion => {
                self.storage.remote_region = value.to_owned();
            },
            Setting::RemoteBucket => {
                self.storage.remote_bucket = value.to_owned();
            },
            Setting::RemoteAccessKeyId => {
                self.storage.remote_access_key_id = value.to_owned();
            },
            Setting::RemoteSecretAccessKey => {
                self.storage.remote_secret_access_key = value.to_owned();
            },
            Setting::RemotePrefix => {
                self.storage.remote_prefix = value.to_owned();
            },
        }
        Ok(())
    }

    /// What the setting of a given name holds, as it is shown.
    pub fn get(&self, key: &str) -> (r: Option<String>)
        ensures
            match Setting::named(key@) {
                Some(s) => r matches Some(t) && t@ == self.field(s).shown(),
                None => r is None,
            },
    {
        let setting = match Setting::parse(key) {
            Some(s) => s,
            None => {
                return None;
            },
        };
        Some(self.show_setting(setting))
    }

    fn show_setting(&self, s: Setting) -> (t: String)
        ensures
            t@ == self.field(s).shown(),
    {
        match s {
            Setting::NodeId => self.node.id.clone(),
            Setting::NodeRegion => self.node.region.clone(),
            Setting::HttpBind => self.node.http_bind.clone(),
            Setting::WireBind => self.node.wire_bind.clone(),
            Setting::WireEnabled => show_flag(self.node.wire_enabled),
            Setting::ApiKey => self.node.api_key.clone(),
            Setting::DataDir => self.node.data_dir.clone(),
            Setting::LogLevel => self.node.log_level.clone(),
            Setting::TlsEnabled => show_flag(self.node.tls_enabled),
            Setting::TlsCert => self.node.tls_cert.clone(),
            Setting::TlsKey => self.node.tls_key.clone(),
            Setting::ReplicationEnabled => show_flag(self.replication.enabled),
            Setting::ReplicationRole => self.replication.role.clone(),
            Setting::GrpcBind => self.replication.grpc_bind.clone(),
            Setting::LeaderAddr => self.replication.leader_addr.clone(),
            Setting::Peers => join(self.replication.peers.as_slice(), ","),
            Setting::WriteMode => self.replication.write_mode.clone(),
            Setting::Backend => self.storage.backend.clone(),
            Setting::RemoteUrl => self.storage.remote_endpoint_url.clone(),
            Setting::RemoteRegion => self.storage.remote_region.clone(),
            Setting::RemoteBucket => self.storage.remote_bucket.clone(),
            Setting::RemoteAccessKeyId => self.storage.remote_access_key_id.clone(),
            Setting::RemoteSecretAccessKey => self.storage.remote_secret_access_key.clone(),
            Setting::RemotePrefix => self.storage.remote_prefix.clone(),
        }
    }

    /// Every setting under its listed name, with what it holds.
    pub fn entries(&self) -> (out: Vec<(&'static str, String)>)
        ensures
            out@.len() == listed_keys().len(),
            forall|i: int|
                0 <= i < out@.len() ==> {
                    &&& (#[trigger] out@[i]).0@ == listed_keys()[i].0
                    &&& out@[i].1@ == self.field(listed_keys()[i].1).shown()
                },
    {
        let mut out: Vec<(&'static str, String)> = Vec::new();
        out.push(("node.id", self.show_setting(Setting::NodeId)));
        out.push(("node.region", self.show_setting(Setting::NodeRegion)));
        out.push(("http-bind", self.show_setting(Setting::HttpBind)));
        out.push(("wire-bind", self.show_setting(Setting::WireBind)));
        out.push(("wire-enabled", self.show_setting(Setting::WireEnabled)));
        out.push(("api-key", self.show_setting(Setting::ApiKey)));
        out.push(("data-dir", self.show_setting(Setting::DataDir)));
        out.push(("log-level", self.show_setting(Setting::LogLevel)));
        out.push(("tls-enabled", self.show_setting(Setting::TlsEnabled)));
        out.push(("tls-cert", self.show_setting(Setting::TlsCert)));
        out.push(("tls-key", self.show_setting(Setting::TlsKey)));
        out.push(("replication.enabled", self.show_setting(Setting::ReplicationEnabled)));
        out.push(("replication.role", self.show_setting(Setting::ReplicationRole)));
        out.push(("replication.grpc_bind", self.show_setting(Setting::GrpcBind)));
        out.push(("replication.leader_addr", self.show_setting(Setting::LeaderAddr)));
        out.push(("replication.peers", self.show_setting(Setting::Peers)));
        out.push(("replication.write_mode", self.show_setting(Setting::WriteMode)));
        out.push(("storage.backend", self.show_setting(Setting::Backend)));
        out.push(("storage.remote.url", self.show_setting(Setting::RemoteUrl)));
        out.push(("storage.remote.region", self.show_setting(Setting::RemoteRegion)));
        out.push(("storage.remote.bucket", self.show_setting(Setting::RemoteBucket)));
        out.push(("storage.remote.access_key_id", self.show_setting(Setting::RemoteAccessKeyId)));
        out.push(("storage.remote.secret_access_key", self.show_setting(Setting::RemoteSecretAccessKey)));
        out.push(("storage.remote.prefix", self.show_setting(Setting::RemotePrefix)));
        out
    }
}

fn refused(key: &str, reason: &str) -> (e: ProfileError)
    ensures
        e matches ProfileError::InvalidValue { key: k, reason: r } && k@ == key@ && r@ == reason@,
{
    ProfileError::InvalidValue { key: key.to_owned(), reason: reason.to_owned() }
}

/// The settings in the order in which they are listed, each under one name.
pub open spec fn listed_keys() -> Seq<(Seq<char>, Setting)> {
    seq![
        ("node.id"@, Setting::NodeId),
        ("node.region"@, Setting::NodeRegion),
        ("http-bind"@, Setting::HttpBind),
        ("wire-bind"@, Setting::WireBind),
        ("wire-enabled"@, Setting::WireEnabled),
        ("api-key"@, Setting::ApiKey),
        ("data-dir"@, Setting::DataDir),
        ("log-level"@, Setting::LogLevel),
        ("tls-enabled"@, Setting::TlsEnabled),
        ("tls-cert"@, Setting::TlsCert),
        ("tls-key"@, Setting::TlsKey),
        ("replication.enabled"@, Setting::ReplicationEnabled),
        ("replication.role"@, Setting::ReplicationRole),
        ("replication.grpc_bind"@, Setting::GrpcBind),
        ("replication.leader_addr"@, Setting::LeaderAddr),
        ("replication.peers"@, Setting::Peers),
        ("replication.write_mode"@, Setting::WriteMode),
        ("storage.backend"@, Setting::Backend),
        ("storage.remote.url"@, Setting::RemoteUrl),
        ("storage.remote.region"@, Setting::RemoteRegion),
        ("storage.remote.bucket"@, Setting::RemoteBucket),
        ("storage.remote.access_key_id"@, Setting::RemoteAccessKeyId),
        ("storage.remote.secret_access_key"@, Setting::RemoteSecretAccessKey),
        ("storage.remote.prefix"@, Setting::RemotePrefix),
    ]
}

impl Profile {
    /// Whether keyspaces keep their data in a remote object store.
    pub open spec fn on_remote(&self) -> bool {
        self.storage.backend@ == "remote"@ || self.storage.backend@ == "s3"@
    }

    /// Who may write to the key-value store. Only a replicated store on local
    /// storage has more than a single leader.
    pub open spec fn kv_write_mode(&self) -> WriteMode {
        if self.replication.enabled && !self.on_remote() && self.replication.write_mode@
            == "multi-leader"@ {
            WriteMode::MultiLeader
        } else if self.replication.enabled && !self.on_remote() && self.replication.write_mode@
            == "primary-queue"@ {
            WriteMode::PrimaryQueue
        } else {
            WriteMode::SingleLeader
        }
    }

    /// The keyspace that a product needs.
    pub open spec fn keyspace_for(&self, f: Feature) -> Option<KeyspaceSpec> {
        let replication = self.replication.enabled && !self.on_remote();
        match f {
            Feature::Cache => Some(
                KeyspaceSpec {
                    name: "cache"@,
                    tier: if self.on_remote() {
                        TierName::Sharded
                    } else {
                        TierName::Tiered
                    },
                    replication,
                    storage_subdir: f.name(),
                    ..plain_keyspace()
                },
            ),
            Feature::Kv => Some(
                KeyspaceSpec {
                    name: "default"@,
                    tier: if self.on_remote() {
                        TierName::Sharded
                    } else {
                        TierName::Warm
                    },
                    subscriptions: true,
                    replication,
                    write_mode: self.kv_write_mode(),
                    storage_subdir: f.name(),
                    ..plain_keyspace()
                },
            ),
            _ => None,
        }
    }

    /// The keyspaces of a list of products.
    pub open spec fn keyspaces_for(&self, features: Seq<Feature>) -> Seq<KeyspaceSpec>
        decreases features.len(),
    {
        if features.len() == 0 {
            Seq::empty()
        } else {
            let front = self.keyspaces_for(features.drop_last());
            match self.keyspace_for(features.last()) {
                Some(k) => front.push(k),
                None => front,
            }
        }
    }

    /// The keyspaces of a node with this profile: those of its products, or a
    /// small one in memory where no product needs any.
    pub open spec fn keyspaces(&self) -> Seq<KeyspaceSpec> {
        let own = self.keyspaces_for(self.features@);
        if own.len() == 0 {
            seq![KeyspaceSpec { name: "default"@, tier: TierName::Hot, ..plain_keyspace() }]
        } else {
            own
        }
    }

    /// The peers of a node with this profile, named by their position.
    pub open spec fn peers(&self) -> Seq<(Seq<char>, Seq<char>)> {
        Seq::new(
            self.replication.peers@.len(),
            |i: int| ("peer-"@ + crate::text::decimal(i as nat), self.replication.peers@[i]@),
        )
    }

    /// Whether `c` is the configuration that this profile describes.
    pub open spec fn describes(&self, c: Config) -> bool {
        &&& c.node.id@ == self.node.id@
        &&& c.node.region@ == self.node.region@
        &&& c.http.bind@ == self.node.http_bind@
        &&& c.wire.enabled == self.node.wire_enabled
        &&& c.wire.bind@ == self.node.wire_bind@
        &&& c.wire.pipeline_concurrency == 1
        &&& c.auth.api_key@ == self.node.api_key@
        &&& c.tls.enabled == self.node.tls_enabled
        &&& c.tls.cert_file@ == self.node.tls_cert@
        &&& c.tls.key_file@ == self.node.tls_key@
        &&& !c.subscriptions.enabled
        &&& c.ops == crate::config::default_ops()
        &&& c.storage.data_dir@ == self.node.data_dir@
        &&& c.storage.default_tier == TierName::Warm
        &&& c.storage.max_value_bytes == crate::config::DEFAULT_MAX_VALUE_BYTES
        &&& match c.storage.backend {
            StorageBackend::Remote(r) => {
                &&& self.on_remote()
                &&& r.endpoint_url@ == self.storage.remote_endpoint_url@
                &&& r.region@ == self.storage.remote_region@
                &&& r.bucket@ == self.storage.remote_bucket@
                &&& r.access_key_id@ == self.storage.remote_access_key_id@
                &&& r.secret_access_key@ == self.storage.remote_secret_access_key@
                &&& r.prefix@ == self.storage.remote_prefix@
            },
            StorageBackend::Local => !self.on_remote(),
        }
        &&& c.replication.enabled == self.replication.enabled
        &&& c.replication.role == if self.replication.role@ == "follower"@ {
            ReplicationRole::Follower
        } else {
            ReplicationRole::Leader
        }
        &&& c.replication.grpc_bind@ == self.replication.grpc_bind@
        &&& match c.replication.leader_addr {
            Some(a) => a@ == self.replication.leader_addr@ && a@.len() > 0,
            None => self.replication.leader_addr@.len() == 0,
        }
        &&& c.replication.peers@.map_values(|p: PeerConfig| p@) == self.peers()
        &&& c.keyspaces@.map_values(|k: KeyspaceConfig| k@) == self.keyspaces()
        &&& c.topics@.map_values(|t: TopicConfig| t@) == topics_for(self.features@)
        &&& c.queues@.map_values(|q: QueueConfig| q@) == queues_for(self.features@)
        &&& c.streams@.map_values(|t: StreamConfig| t@) == streams_for(self.features@)
    }

    fn remote(&self) -> (r: bool)
        ensures
            r == self.on_remote(),
    {
        same(self.storage.backend.as_str(), "remote") || same(self.storage.backend.as_str(), "s3")
    }

    fn write_mode(&self) -> (m: WriteMode)
        ensures
            m == self.kv_write_mode(),
    {
        if self.replication.enabled && !self.remote() {
            if same(self.replication.write_mode.as_str(), "multi-leader") {
                WriteMode::MultiLeader
            } else if same(self.replication.write_mode.as_str(), "primary-queue") {
                WriteMode::PrimaryQueue
            } else {
                WriteMode::SingleLeader
            }
        } else {
            WriteMode::SingleLeader
        }
    }

    fn peer_configs(&self) -> (out: Vec<PeerConfig>)
        ensures
            out@.map_values(|p: PeerConfig| p@) == self.peers(),
    {
        let mut out: Vec<PeerConfig> = Vec::new();
        let mut i: usize = 0;
        while i < self.replication.peers.len()
            invariant
                i <= self.replication.peers.len(),
                out@.len() == i,
                forall|j: int| 0 <= j < i ==> (#[trigger] out@[j])@ == self.peers()[j],
            decreases self.replication.peers.len() - i,
        {
            out.push(
                PeerConfig {
                    node_id: "peer-".to_owned().concat(show(i as u128).as_str()),
                    addr: self.replication.peers[i].clone(),
                },
            );
            i = i + 1;
        }
        assert(out@.map_values(|p: PeerConfig| p@) =~= self.peers());
        out
    }

    fn keyspace_config(&self, f: Feature) -> (k: Option<KeyspaceConfig>)
        ensures
            match k {
                Some(c) => self.keyspace_for(f) == Some(c@),
                None => self.keyspace_for(f) is None,
            },
    {
        let remote = self.remote();
        let replication = self.replication.enabled && !remote;
        match f {
            Feature::Cache => Some(
                KeyspaceConfig {
                    name: "cache".to_owned(),
                    tier: if remote {
                        TierName::Sharded
                    } else {
                        TierName::Tiered
                    },
                    replication,
                    storage_subdir: f.as_str().to_owned(),
                    ..KeyspaceConfig::default_keyspace()
                },
            ),
            Feature::Kv => Some(
                KeyspaceConfig {
                    name: "default".to_owned(),
                    tier: if remote {
                        TierName::Sharded
                    } else {
                        TierName::Warm
                    },
                    subscriptions: true,
                    replication,
                    write_mode: self.write_mode(),
                    storage_subdir: f.as_str().to_owned(),
                    ..KeyspaceConfig::default_keyspace()
                },
            ),
            _ => None,
        }
    }

    /// The configuration that this profile describes. Each product brings its
    /// own keyspace, topic, queue or stream; profiles with several products
    /// compose.
    pub fn to_config(&self) -> (c: Config)
        ensures
            self.describes(c),
    {
        let mut c = Config::default();
        c.node.id = self.node.id.clone();
        c.node.region = self.node.region.clone();
        c.http.bind = self.node.http_bind.clone();
        c.wire.enabled = self.node.wire_enabled;
        c.wire.bind = self.node.wire_bind.clone();
        c.auth.api_key = self.node.api_key.clone();
        c.tls = TlsConfig {
            enabled: self.node.tls_enabled,
            cert_file: self.node.tls_cert.clone(),
            key_file: self.node.tls_key.clone(),
        };
        c.storage.data_dir = self.node.data_dir.clone();
        c.storage.backend = if self.remote() {
            StorageBackend::Remote(
                RemoteBackendConfig {
                    endpoint_url: self.storage.remote_endpoint_url.clone(),
                    region: self.storage.remote_region.clone(),
                    bucket: self.storage.remote_bucket.clone(),
                    access_key_id: self.storage.remote_access_key_id.clone(),
                    secret_access_key: self.storage.remote_secret_access_key.clone(),
                    prefix: self.storage.remote_prefix.clone(),
                },
            )
        } else {
            StorageBackend::Local
        };
        c.replication.enabled = self.replication.enabled;
        c.replication.role = if same(self.replication.role.as_str(), "follower") {
            ReplicationRole::Follower
        } else {
            ReplicationRole::Leader
        };
        c.replication.grpc_bind = self.replication.grpc_bind.clone();
        c.replication.leader_addr = if is_blank(&self.replication.leader_addr) {
            None
        } else {
            Some(self.replication.leader_addr.clone())
        };
        c.replication.peers = self.peer_configs();

        let features = self.features.iter();
        let mut keyspaces: Vec<KeyspaceConfig> = Vec::new();
        let mut topics: Vec<TopicConfig> = Vec::new();
        let mut queues: Vec<QueueConfig> = Vec::new();
        let mut streams: Vec<StreamConfig> = Vec::new();
        let mut i: usize = 0;
        assert(keyspaces@.map_values(|k: KeyspaceConfig| k@) =~= Seq::empty());
        assert(topics@.map_values(|t: TopicConfig| t@) =~= Seq::empty());
        assert(queues@.map_values(|q: QueueConfig| q@) =~= Seq::empty());
        assert(streams@.map_values(|t: StreamConfig| t@) =~= Seq::empty());
        while i < features.len()
            invariant
                i <= features.len(),
                features@ == self.features@,
                keyspaces@.map_values(|k: KeyspaceConfig| k@) == self.keyspaces_for(
                    features@.take(i as int),
                ),
                topics@.map_values(|t: TopicConfig| t@) == topics_for(features@.take(i as int)),
                queues@.map_values(|q: QueueConfig| q@) == queues_for(features@.take(i as int)),
                streams@.map_values(|t: StreamConfig| t@) == streams_for(features@.take(i as int)),
            decreases features.len() - i,
        {
            let f = features[i];
            assert(features@.take(i + 1).drop_last() =~= features@.take(i as int));
            let ghost (k0, t0, q0, s0) = (keyspaces@, topics@, queues@, streams@);
            if let Some(k) = self.keyspace_config(f) {
                let ghost kv = k@;
                keyspaces.push(k);
                assert(keyspaces@.map_values(|k: KeyspaceConfig| k@) =~= k0.map_values(
                    |k: KeyspaceConfig| k@,
                ).push(kv));
            }
            match f {
                Feature::Pubsub => {
                    topics.push(
                        TopicConfig {
                            name: "events".to_owned(),
                            mode: TopicModeConfig::Ephemeral,
                            capacity: 1024,
                        },
                    );
                    assert(topics@.map_values(|t: TopicConfig| t@) =~= t0.map_values(
                        |t: TopicConfig| t@,
                    ).push(("events"@, TopicModeConfig::Ephemeral, 1024)));
                },
                Feature::Queue => {
                    queues.push(QueueConfig { name: "jobs".to_owned(), ack_timeout_secs: 30 });
                    assert(queues@.map_values(|q: QueueConfig| q@) =~= q0.map_values(
                        |q: QueueConfig| q@,
                    ).push(("jobs"@, 30)));
                },
                Feature::Stream => {
                    streams.push(
                        StreamConfig {
                            name: "events".to_owned(),
                            partitions: 1,
                            capacity: 1024,
                            interval_fsync_ms: 0,
                        },
                    );
                    assert(streams@.map_values(|t: StreamConfig| t@) =~= s0.map_values(
                        |t: StreamConfig| t@,
                    ).push(("events"@, 1, 1024, 0)));
                },
                _ => {},
            }
            i = i + 1;
        }
        assert(features@.take(i as int) =~= self.features@);
        if keyspaces.len() == 0 {
            keyspaces.push(
                KeyspaceConfig {
                    name: "default".to_owned(),
                    tier: TierName::Hot,
                    ..KeyspaceConfig::default_keyspace()
                },
            );
            assert(keyspaces@.map_values(|k: KeyspaceConfig| k@) =~= self.keyspaces());
        }
        c.keyspaces = keyspaces;
        c.topics = topics;
        c.queues = queues;
        c.streams = streams;
        c
    }
}

/// The topics of a list of products.
pub open spec fn topics_for(features: Seq<Feature>) -> Seq<(Seq<char>, TopicModeConfig, usize)>
    decreases features.len(),
{
    if features.len() == 0 {
        Seq::empty()
    } else if features.last() == Feature::Pubsub {
        topics_for(features.drop_last()).push(("events"@, TopicModeConfig::Ephemeral, 1024))
    } else {
        topics_for(features.drop_last())
    }
}

/// The queues of a list of products.
pub open spec fn queues_for(features: Seq<Feature>) -> Seq<(Seq<char>, u64)>
    decreases features.len(),
{
    if features.len() == 0 {
        Seq::empty()
    } else if features.last() == Feature::Queue {
        queues_for(features.drop_last()).push(("jobs"@, 30))
    } else {
        queues_for(features.drop_last())
    }
}

/// The streams of a list of products.
pub open spec fn streams_for(features: Seq<Feature>) -> Seq<(Seq<char>, usize, usize, u64)>
    decreases features.len(),
{
    if features.len() == 0 {
        Seq::empty()
    } else if features.last() == Feature::Stream {
        streams_for(features.drop_last()).push(("events"@, 1, 1024, 0))
    } else {
        streams_for(features.drop_last())
    }
}

proof fn lemma_kept(parts: Seq<Seq<char>>)
    ensures
        forall|i: int|
            0 <= i < kept(parts).len() ==> {
                &&& (#[trigger] kept(parts)[i]).len() > 0
                &&& trimmed(kept(parts)[i]) == kept(parts)[i]
                &&& exists|j: int|
                    0 <= j < parts.len() && kept(parts)[i] == trimmed(#[trigger] parts[j])
            },
    decreases parts.len(),
{
    if parts.len() > 0 {
        let front = parts.drop_last();
        lemma_kept(front);
        crate::text::lemma_trimmed(parts.last());
        assert forall|i: int| 0 <= i < kept(parts).len() implies {
            &&& (#[trigger] kept(parts)[i]).len() > 0
            &&& trimmed(kept(parts)[i]) == kept(parts)[i]
            &&& exists|j: int|
                0 <= j < parts.len() && kept(parts)[i] == trimmed(#[trigger] parts[j])
        } by {
            if i < kept(front).len() {
                assert(kept(parts)[i] == kept(front)[i]);
                let j = choose|j: int|
                    0 <= j < front.len() && kept(front)[i] == trimmed(#[trigger] front[j]);
                assert(parts[j] == front[j]);
            } else {
                assert(kept(parts)[i] == trimmed(parts[parts.len() - 1]));
            }
        }
    }
}

proof fn lemma_kept_whole(parts: Seq<Seq<char>>)
    requires
        forall|i: int|
            0 <= i < parts.len() ==> (#[trigger] parts[i]).len() > 0 && trimmed(parts[i]) == parts[i],
    ensures
        kept(parts) == parts,
    decreases parts.len(),
{
    if parts.len() > 0 {
        lemma_kept_whole(parts.drop_last());
        assert(parts.drop_last().push(parts.last()) =~= parts);
    } else {
        assert(kept(parts) =~= parts);
    }
}

/// A list of peers reads back from how it is shown.
pub proof fn law_peers_round_trip(value: Seq<char>)
    ensures
        peer_list(joined(peer_list(value), ","@)) == peer_list(value),
{
    let parts = pieces(value, ',');
    let peers = peer_list(value);
    reveal_strlit(",");
    assert(","@ =~= seq![',']);
    lemma_kept(parts);
    crate::text::lemma_pieces_lack_separator(value, ',');
    assert forall|i: int| 0 <= i < peers.len() implies !(#[trigger] peers[i]).contains(',') by {
        let j = choose|j: int| 0 <= j < parts.len() && peers[i] == trimmed(#[trigger] parts[j]);
        crate::text::lemma_trimmed(parts[j]);
        if peers[i].contains(',') {
            let k = peers[i].index_of(',');
            assert(trimmed(parts[j])[k] == ',');
            assert(parts[j].contains(','));
        }
    }
    if peers.len() == 0 {
        let e = Seq::<char>::empty();
        assert(joined(peers, ","@) =~= e);
        assert(pieces(e, ',') =~= seq![e]);
        assert(trimmed(e) == e);
        reveal_with_fuel(kept, 2);
        assert(seq![e].drop_last() =~= Seq::empty());
        assert(kept(seq![e]) =~= peers);
    } else {
        crate::text::lemma_pieces_of_joined(peers, ',');
        lemma_kept_whole(peers);
    }
}

/// What `get` shows of a setting that `set` accepted can be set again, and
/// gives the same value.
pub proof fn law_shown_is_accepted(s: Setting, value: Seq<char>)
    requires
        s.accepts(value) is Some,
    ensures
        s.accepts(s.accepts(value)->0.shown()) == s.accepts(value),
{
    law_peers_round_trip(value);
    reveal_strlit("true");
    reveal_strlit("false");
    reveal_strlit("1");
    reveal_strlit("yes");
    reveal_strlit("on");
    reveal_strlit("s3");
    assert(trimmed("true"@) == "true"@);
    assert(trimmed("false"@) == "false"@);
    assert(lowered("true"@) =~= "true"@);
    assert(lowered("false"@) =~= "false"@);
    assert("false"@.len() == 5 && "true"@.len() == 4);
}

impl Profile {
    /// Whether every setting can be set to what is shown of it, and then holds
    /// what it held.
    pub open spec fn settled(&self) -> bool {
        forall|s: Setting| #[trigger] s.accepts(self.field(s).shown()) == Some(self.field(s))
    }
}

/// Whether `after` is what a successful `set` of a name to a text makes of
/// `before`.
pub open spec fn set_made(before: Profile, after: Profile, key: Seq<char>, value: Seq<char>) -> bool {
    Setting::named(key) matches Some(s) && s.accepts(value) is Some && after.changed(
        before,
        s,
        s.accepts(value)->0,
    )
}

/// A blank profile can be set to what it shows.
pub proof fn law_blank_profile_is_settled(p: Profile)
    requires
        p.is_blank_profile(),
    ensures
        p.settled(),
{
    reveal_strlit("false");
    reveal_strlit("true");
    reveal_strlit("1");
    reveal_strlit("yes");
    reveal_strlit("on");
    assert(trimmed("false"@) == "false"@);
    assert(lowered("false"@) =~= "false"@);
    assert("false"@.len() == 5 && "true"@.len() == 4);
    let e = Seq::<char>::empty();
    assert(joined(Seq::<Seq<char>>::empty(), ","@) =~= e);
    assert(peer_list(e) == Seq::<Seq<char>>::empty()) by {
        assert(pieces(e, ',') =~= seq![e]);
        assert(trimmed(e) == e);
        reveal_with_fuel(kept, 2);
        assert(seq![e].drop_last() =~= Seq::empty());
        assert(kept(seq![e]) =~= Seq::empty());
    }
    assert forall|s: Setting| #[trigger] s.accepts(p.field(s).shown()) == Some(p.field(s)) by {
        match s {
            Setting::Backend => {
                reveal_strlit("local");
                reveal_strlit("s3");
                reveal_strlit("remote");
                assert("local"@.len() == 5 && "s3"@.len() == 2 && "remote"@.len() == 6);
            },
            _ => {},
        }
    }
}

/// Whatever is set on a blank profile, in any order and however often, every
/// setting can be set to what is then shown of it, and holds that again.
pub proof fn law_set_profiles_are_settled(trace: Seq<Profile>, calls: Seq<(Seq<char>, Seq<char>)>)
    requires
        trace.len() == calls.len() + 1,
        trace[0].is_blank_profile(),
        forall|k: int|
            0 <= k < calls.len() ==> set_made(
                trace[k],
                trace[k + 1],
                (#[trigger] calls[k]).0,
                calls[k].1,
            ),
    ensures
        trace.last().settled(),
    decreases calls.len(),
{
    if calls.len() == 0 {
        law_blank_profile_is_settled(trace[0]);
    } else {
        let n = calls.len() - 1;
        let front = trace.drop_last();
        let fewer = calls.drop_last();
        assert forall|k: int| 0 <= k < fewer.len() implies set_made(
            front[k],
            front[k + 1],
            (#[trigger] fewer[k]).0,
            fewer[k].1,
        ) by {
            assert(fewer[k] == calls[k]);
        }
        law_set_profiles_are_settled(front, fewer);
        let (before, after) = (trace[n], trace[n + 1]);
        assert(front.last() == before);
        assert(set_made(before, after, calls[n].0, calls[n].1));
        let s = Setting::named(calls[n].0)->0;
        law_shown_is_accepted(s, calls[n].1);
        assert forall|t: Setting| #[trigger] t.accepts(after.field(t).shown()) == Some(
            after.field(t),
        ) by {
            assert(t.accepts(before.field(t).shown()) == Some(before.field(t)));
        }
    }
}

/// Where a setting stands in the listing.
spec fn listed_at(s: Setting) -> int {
    match s {
        Setting::NodeId => 0,
        Setting::NodeRegion => 1,
        Setting::HttpBind => 2,
        Setting::WireBind => 3,
        Setting::WireEnabled => 4,
        Setting::ApiKey => 5,
        Setting::DataDir => 6,
        Setting::LogLevel => 7,
        Setting::TlsEnabled => 8,
        Setting::TlsCert => 9,
        Setting::TlsKey => 10,
        Setting::ReplicationEnabled => 11,
        Setting::ReplicationRole => 12,
        Setting::GrpcBind => 13,
        Setting::LeaderAddr => 14,
        Setting::Peers => 15,
        Setting::WriteMode => 16,
        Setting::Backend => 17,
        Setting::RemoteUrl => 18,
        Setting::RemoteRegion => 19,
        Setting::RemoteBucket => 20,
        Setting::RemoteAccessKeyId => 21,
        Setting::RemoteSecretAccessKey => 22,
        Setting::RemotePrefix => 23,
    }
}

/// Whether `trace` is what becomes of a profile when the settings of the
/// listing of `p` are set, in the order of their places in it.
pub open spec fn replays(p: Profile, trace: Seq<Profile>, order: Seq<int>) -> bool {
    &&& trace.len() == order.len() + 1
    &&& forall|k: int|
        0 <= k < order.len() ==> 0 <= #[trigger] order[k] < listed_keys().len() && set_made(
            trace[k],
            trace[k + 1],
            listed_keys()[order[k]].0,
            p.field(listed_keys()[order[k]].1).shown(),
        )
}

proof fn lemma_replayed(p: Profile, trace: Seq<Profile>, order: Seq<int>, s: Setting)
    requires
        p.settled(),
        replays(p, trace, order),
        order.contains(listed_at(s)),
    ensures
        trace.last().field(s) == p.field(s),
    decreases order.len(),
{
    let n = order.len() - 1;
    let at = order[n];
    let t = listed_keys()[at].1;
    law_listed_names(at);
    assert(set_made(trace[n], trace[n + 1], listed_keys()[at].0, p.field(t).shown()));
    assert(t.accepts(p.field(t).shown()) == Some(p.field(t)));
    assert(trace[n + 1].field(s) == if s == t {
        p.field(t)
    } else {
        trace[n].field(s)
    });
    if s != t {
        assert(listed_keys()[listed_at(s)].1 == s);
        let front = order.drop_last();
        let k = order.index_of(listed_at(s));
        assert(front[k] == listed_at(s));
        assert forall|j: int| 0 <= j < front.len() implies 0 <= #[trigger] front[j]
            < listed_keys().len() && set_made(
            trace.drop_last()[j],
            trace.drop_last()[j + 1],
            listed_keys()[front[j]].0,
            p.field(listed_keys()[front[j]].1).shown(),
        ) by {
            assert(front[j] == order[j]);
        }
        lemma_replayed(p, trace.drop_last(), front, s);
        assert(trace.drop_last().last() == trace[n]);
    }
}

/// A listing carries every setting and can be replayed: each listed name can
/// be set to the value that is listed with it, and a profile on which all of
/// them were set, in any order, holds what the listed one holds. So its listing
/// is the same, and so are its peers.
pub proof fn law_listing_can_be_replayed(p: Profile, trace: Seq<Profile>, order: Seq<int>)
    requires
        p.settled(),
        replays(p, trace, order),
        forall|i: int| 0 <= i < listed_keys().len() ==> #[trigger] order.contains(i),
    ensures
        forall|i: int|
            0 <= i < listed_keys().len() ==> {
                let (key, s) = #[trigger] listed_keys()[i];
                Setting::named(key) == Some(s) && s.accepts(p.field(s).shown()) == Some(p.field(s))
            },
        forall|s: Setting| #[trigger] trace.last().field(s) == p.field(s),
        views(trace.last().replication.peers@) == views(p.replication.peers@),
{
    assert forall|i: int| 0 <= i < listed_keys().len() implies {
        let (key, s) = #[trigger] listed_keys()[i];
        Setting::named(key) == Some(s) && s.accepts(p.field(s).shown()) == Some(p.field(s))
    } by {
        law_listed_names(i);
        let s = listed_keys()[i].1;
        assert(s.accepts(p.field(s).shown()) == Some(p.field(s)));
    }
    assert forall|s: Setting| #[trigger] trace.last().field(s) == p.field(s) by {
        assert(order.contains(listed_at(s)));
        lemma_replayed(p, trace, order, s);
    }
    assert(trace.last().field(Setting::Peers) == p.field(Setting::Peers));
}

/// A text setting shows exactly the text it was set to, but for the old name
/// of the remote store.
pub proof fn law_text_shows_as_set(s: Setting, value: Seq<char>, t: Seq<char>)
    requires
        s.accepts(value) == Some(SettingValue::Text(t)),
        !(s == Setting::Backend && value == "s3"@),
    ensures
        s.accepts(value)->0.shown() == value,
{
}

/// Products that share a node never share a storage directory.
pub proof fn law_products_have_own_directories(p: Profile, i: int, j: int)
    requires
        p.features@.no_duplicates(),
        0 <= i < j < p.keyspaces_for(p.features@).len(),
    ensures
        p.keyspaces_for(p.features@)[i].storage_subdir != p.keyspaces_for(
            p.features@,
        )[j].storage_subdir,
{
    lemma_keyspaces_in_order(p, p.features@, i, j);
}

proof fn lemma_keyspace_origin(p: Profile, fs: Seq<Feature>, i: int)
    requires
        0 <= i < p.keyspaces_for(fs).len(),
    ensures
        exists|k: int| 0 <= k < fs.len() && #[trigger] p.keyspace_for(fs[k]) == Some(p.keyspaces_for(fs)[i]),
    decreases fs.len(),
{
    let front = fs.drop_last();
    if i < p.keyspaces_for(front).len() {
        lemma_keyspace_origin(p, front, i);
        let k = choose|k: int|
            0 <= k < front.len() && #[trigger] p.keyspace_for(front[k]) == Some(
                p.keyspaces_for(front)[i],
            );
        assert(fs[k] == front[k]);
        assert(p.keyspaces_for(fs)[i] == p.keyspaces_for(front)[i]);
    } else {
        assert(p.keyspace_for(fs[fs.len() - 1]) == Some(p.keyspaces_for(fs)[i]));
    }
}

proof fn lemma_keyspaces_in_order(p: Profile, fs: Seq<Feature>, i: int, j: int)
    requires
        fs.no_duplicates(),
        0 <= i < j < p.keyspaces_for(fs).len(),
    ensures
        p.keyspaces_for(fs)[i].storage_subdir != p.keyspaces_for(fs)[j].storage_subdir,
    decreases fs.len(),
{
    let front = fs.drop_last();
    let all = p.keyspaces_for(fs);
    if j < p.keyspaces_for(front).len() {
        lemma_keyspaces_in_order(p, front, i, j);
    } else {
        lemma_keyspace_origin(p, front, i);
        let k = choose|k: int|
            0 <= k < front.len() && #[trigger] p.keyspace_for(front[k]) == Some(
                p.keyspaces_for(front)[i],
            );
        assert(front[k] == fs[k]);
        assert(fs[k] != fs.last());
        if all[i].storage_subdir == all[j].storage_subdir {
            crate::feature::law_names_distinct(fs[k], fs.last());
        }
    }
}

/// The keyspaces that a profile describes keep every rule between a
/// keyspace's settings, in a binary that has all engines.
pub proof fn law_profile_keyspaces_are_valid(p: Profile, c: Config)
    requires
        p.describes(c),
    ensures
        crate::config::keyspaces_fault(c.keyspaces@, c.replication.role, true) is None,
{
    let own = p.keyspaces_for(p.features@);
    assert forall|i: int| 0 <= i < c.keyspaces@.len() implies crate::config::keyspace_fault(
        (#[trigger] c.keyspaces@[i])@,
        c.replication.role,
        true,
    ) is None by {
        let views = c.keyspaces@.map_values(|k: KeyspaceConfig| k@);
        assert(views[i] == c.keyspaces@[i]@);
        assert(views == p.keyspaces());
        if own.len() > 0 {
            lemma_keyspace_origin(p, p.features@, i);
            let k = choose|k: int|
                0 <= k < p.features@.len() && #[trigger] p.keyspace_for(p.features@[k]) == Some(
                    own[i],
                );
            assert(p.keyspace_for(p.features@[k]) == Some(own[i]));
            assert(views[i] == own[i]);
            assert(crate::config::keyspace_fault(own[i], c.replication.role, true) is None);
        } else {
            assert(p.keyspaces().len() == 1);
            assert(i == 0);
            assert(crate::config::keyspace_fault(p.keyspaces()[0], c.replication.role, true) is None);
        }
    }
    lemma_all_faultless(c.keyspaces@, c.replication.role);
}

proof fn lemma_all_faultless(ks: Seq<KeyspaceConfig>, role: ReplicationRole)
    requires
        forall|i: int|
            0 <= i < ks.len() ==> crate::config::keyspace_fault((#[trigger] ks[i])@, role, true)
                is None,
    ensures
        crate::config::keyspaces_fault(ks, role, true) is None,
    decreases ks.len(),
{
    if ks.len() > 0 {
        lemma_all_faultless(ks.drop_last(), role);
    }
}

/// Every listed name stands for the setting it is listed with.
pub proof fn law_listed_names(i: int)
    requires
        0 <= i < listed_keys().len(),
    ensures
        Setting::named(listed_keys()[i].0) == Some(listed_keys()[i].1),
{
    reveal_strlit("node.id");
    reveal_strlit("id");
    reveal_strlit("node.region");
    reveal_strlit("region");
    reveal_strlit("http-bind");
    reveal_strlit("http_bind");
    reveal_strlit("node.http_bind");
    reveal_strlit("wire-bind");
    reveal_strlit("wire_bind");
    reveal_strlit("node.wire_bind");
    reveal_strlit("wire-enabled");
    reveal_strlit("wire_enabled");
    reveal_strlit("api-key");
    reveal_strlit("api_key");
    reveal_strlit("auth.api_key");
    reveal_strlit("data-dir");
    reveal_strlit("data_dir");
    reveal_strlit("node.data_dir");
    reveal_strlit("log-level");
    reveal_strlit("log_level");
    reveal_strlit("tls-enabled");
    reveal_strlit("tls_enabled");
    reveal_strlit("tls-cert");
    reveal_strlit("tls_cert");
    reveal_strlit("tls-key");
    reveal_strlit("tls_key");
    reveal_strlit("replication.enabled");
    reveal_strlit("replicate");
    reveal_strlit("replication.role");
    reveal_strlit("replication.grpc_bind");
    reveal_strlit("grpc-bind");
    reveal_strlit("replication.leader_addr");
    reveal_strlit("leader-addr");
    reveal_strlit("replication.peers");
    reveal_strlit("peers");
    reveal_strlit("replication.write_mode");
    reveal_strlit("write-mode");
    reveal_strlit("storage.backend");
    reveal_strlit("storage");
    reveal_strlit("storage.remote.url");
    reveal_strlit("remote-url");
    reveal_strlit("s3-url");
    reveal_strlit("storage.remote.region");
    reveal_strlit("remote-region");
    reveal_strlit("s3-region");
    reveal_strlit("storage.remote.bucket");
    reveal_strlit("remote-bucket");
    reveal_strlit("s3-bucket");
    reveal_strlit("storage.remote.access_key_id");
    reveal_strlit("remote-access-key");
    reveal_strlit("s3-access-key");
    reveal_strlit("storage.remote.secret_access_key");
    reveal_strlit("remote-secret-key");
    reveal_strlit("s3-secret-key");
    reveal_strlit("storage.remote.prefix");
    reveal_strlit("remote-prefix");
    reveal_strlit("s3-prefix");
    assert("node.id"@.len() == 7);
    assert("id"@.len() == 2);
    assert("node.region"@.len() == 11);
    assert("region"@.len() == 6);
    assert("http-bind"@.len() == 9);
    assert("http_bind"@.len() == 9);
    assert("node.http_bind"@.len() == 14);
    assert("wire-bind"@.len() == 9);
    assert("wire_bind"@.len() == 9);
    assert("node.wire_bind"@.len() == 14);
    assert("wire-enabled"@.len() == 12);
    assert("wire_enabled"@.len() == 12);
    assert("api-key"@.len() == 7);
    assert("api_key"@.len() == 7);
    assert("auth.api_key"@.len() == 12);
    assert("data-dir"@.len() == 8);
    assert("data_dir"@.len() == 8);
    assert("node.data_dir"@.len() == 13);
    assert("log-level"@.len() == 9);
    assert("log_level"@.len() == 9);
    assert("tls-enabled"@.len() == 11);
    assert("tls_enabled"@.len() == 11);
    assert("tls-cert"@.len() == 8);
    assert("tls_cert"@.len() == 8);
    assert("tls-key"@.len() == 7);
    assert("tls_key"@.len() == 7);
    assert("replication.enabled"@.len() == 19);
    assert("replicate"@.len() == 9);
    assert("replication.role"@.len() == 16);
    assert("replication.grpc_bind"@.len() == 21);
    assert("grpc-bind"@.len() == 9);
    assert("replication.leader_addr"@.len() == 23);
    assert("leader-addr"@.len() == 11);
    assert("replication.peers"@.len() == 17);
    assert("peers"@.len() == 5);
    assert("replication.write_mode"@.len() == 22);
    assert("write-mode"@.len() == 10);
    assert("storage.backend"@.len() == 15);
    assert("storage"@.len() == 7);
    assert("storage.remote.url"@.len() == 18);
    assert("remote-url"@.len() == 10);
    assert("s3-url"@.len() == 6);
    assert("storage.remote.region"@.len() == 21);
    assert("remote-region"@.len() == 13);
    assert("s3-region"@.len() == 9);
    assert("storage.remote.bucket"@.len() == 21);
    assert("remote-bucket"@.len() == 13);
    assert("s3-bucket"@.len() == 9);
    assert("storage.remote.access_key_id"@.len() == 28);
    assert("remote-access-key"@.len() == 17);
    assert("s3-access-key"@.len() == 13);
    assert("storage.remote.secret_access_key"@.len() == 32);
    assert("remote-secret-key"@.len() == 17);
    assert("s3-secret-key"@.len() == 13);
    assert("storage.remote.prefix"@.len() == 21);
    assert("remote-prefix"@.len() == 13);
    assert("s3-prefix"@.len() == 9);
    assert("wire-bind"@[0] != "http-bind"@[0]);
    assert("wire-bind"@[0] != "http_bind"@[0]);
    assert("api-key"@[0] != "node.id"@[0]);
    assert("log-level"@[0] != "http-bind"@[0]);
    assert("log-level"@[0] != "http_bind"@[0]);
    assert("log-level"@[0] != "wire-bind"@[0]);
    assert("log-level"@[0] != "wire_bind"@[0]);
    assert("tls-enabled"@[0] != "node.region"@[0]);
    assert("tls-cert"@[0] != "data-dir"@[0]);
    assert("tls-cert"@[0] != "data_dir"@[0]);
    assert("tls-key"@[0] != "node.id"@[0]);
    assert("tls-key"@[0] != "api-key"@[0]);
    assert("tls-key"@[0] != "api_key"@[0]);
    assert("storage.remote.region"@[0] != "replication.grpc_bind"@[0]);
    assert("storage.remote.bucket"@[0] != "replication.grpc_bind"@[0]);
    assert("storage.remote.bucket"@[15] != "storage.remote.region"@[15]);
    assert("storage.remote.prefix"@[0] != "replication.grpc_bind"@[0]);
    assert("storage.remote.prefix"@[15] != "storage.remote.region"@[15]);
    assert("storage.remote.prefix"@[15] != "storage.remote.bucket"@[15]);
}

/// A name is known exactly where it is one of these, and a setting goes by
/// these names and no others.
pub proof fn law_setting_names(key: Seq<char>)
    ensures
        match Setting::named(key) {
            Some(Setting::NodeId) => key == "node.id"@ || key == "id"@,
            Some(Setting::NodeRegion) => key == "node.region"@ || key == "region"@,
            Some(Setting::HttpBind) => key == "http-bind"@ || key == "http_bind"@ || key
                == "node.http_bind"@,
            Some(Setting::WireBind) => key == "wire-bind"@ || key == "wire_bind"@ || key
                == "node.wire_bind"@,
            Some(Setting::WireEnabled) => key == "wire-enabled"@ || key == "wire_enabled"@,
            Some(Setting::ApiKey) => key == "api-key"@ || key == "api_key"@ || key == "auth.api_key"@,
            Some(Setting::DataDir) => key == "data-dir"@ || key == "data_dir"@ || key
                == "node.data_dir"@,
            Some(Setting::LogLevel) => key == "log-level"@ || key == "log_level"@,
            Some(Setting::TlsEnabled) => key == "tls-enabled"@ || key == "tls_enabled"@,
            Some(Setting::TlsCert) => key == "tls-cert"@ || key == "tls_cert"@,
            Some(Setting::TlsKey) => key == "tls-key"@ || key == "tls_key"@,
            Some(Setting::ReplicationEnabled) => key == "replication.enabled"@ || key == "replicate"@,
            Some(Setting::ReplicationRole) => key == "replication.role"@,
            Some(Setting::GrpcBind) => key == "replication.grpc_bind"@ || key == "grpc-bind"@,
            Some(Setting::LeaderAddr) => key == "replication.leader_addr"@ || key == "leader-addr"@,
            Some(Setting::Peers) => key == "replication.peers"@ || key == "peers"@,
            Some(Setting::WriteMode) => key == "replication.write_mode"@ || key == "write-mode"@,
            Some(Setting::Backend) => key == "storage.backend"@ || key == "storage"@,
            Some(Setting::RemoteUrl) => key == "storage.remote.url"@ || key == "remote-url"@ || key
                == "s3-url"@,
            Some(Setting::RemoteRegion) => key == "storage.remote.region"@ || key == "remote-region"@
                || key == "s3-region"@,
            Some(Setting::RemoteBucket) => key == "storage.remote.bucket"@ || key == "remote-bucket"@
                || key == "s3-bucket"@,
            Some(Setting::RemoteAccessKeyId) => key == "storage.remote.access_key_id"@ || key
                == "remote-access-key"@ || key == "s3-access-key"@,
            Some(Setting::RemoteSecretAccessKey) => key == "storage.remote.secret_access_key"@ || key
                == "remote-secret-key"@ || key == "s3-secret-key"@,
            Some(Setting::RemotePrefix) => key == "storage.remote.prefix"@ || key == "remote-prefix"@
                || key == "s3-prefix"@,
            None => !seq![
                "node.id"@,
                "id"@,
                "node.region"@,
                "region"@,
                "http-bind"@,
                "http_bind"@,
                "node.http_bind"@,
                "wire-bind"@,
                "wire_bind"@,
                "node.wire_bind"@,
                "wire-enabled"@,
                "wire_enabled"@,
                "api-key"@,
                "api_key"@,
                "auth.api_key"@,
                "data-dir"@,
                "data_dir"@,
                "node.data_dir"@,
                "log-level"@,
                "log_level"@,
                "tls-enabled"@,
                "tls_enabled"@,
                "tls-cert"@,
                "tls_cert"@,
                "tls-key"@,
                "tls_key"@,
                "replication.enabled"@,
                "replicate"@,
                "replication.role"@,
                "replication.grpc_bind"@,
                "grpc-bind"@,
                "replication.leader_addr"@,
                "leader-addr"@,
                "replication.peers"@,
                "peers"@,
                "replication.write_mode"@,
                "write-mode"@,
                "storage.backend"@,
                "storage"@,
                "storage.remote.url"@,
                "remote-url"@,
                "s3-url"@,
                "storage.remote.region"@,
                "remote-region"@,
                "s3-region"@,
                "storage.remote.bucket"@,
                "remote-bucket"@,
                "s3-bucket"@,
                "storage.remote.access_key_id"@,
                "remote-access-key"@,
                "s3-access-key"@,
                "storage.remote.secret_access_key"@,
                "remote-secret-key"@,
                "s3-secret-key"@,
                "storage.remote.prefix"@,
                "remote-prefix"@,
                "s3-prefix"@,
            ].contains(key),
        },
{
}

/// What a setting can be set to, and what it then holds: any text stands for
/// itself, but for the settings with a choice and those that are on or off.
pub proof fn law_accepted_values(s: Setting, value: Seq<char>)
    ensures
        match s {
            Setting::WireEnabled | Setting::TlsEnabled | Setting::ReplicationEnabled => {
                let w = lowered(trimmed(value));
                let on = w == "true"@ || w == "1"@ || w == "yes"@ || w == "on"@;
                let off = w == "false"@ || w == "0"@ || w == "no"@ || w == "off"@;
                &&& on ==> s.accepts(value) == Some(SettingValue::Flag(true))
                &&& off && !on ==> s.accepts(value) == Some(SettingValue::Flag(false))
                &&& !on && !off ==> s.accepts(value) is None
            },
            Setting::ReplicationRole => s.accepts(value) == (if value == "leader"@ || value
                == "follower"@ {
                Some(SettingValue::Text(value))
            } else {
                None
            }),
            Setting::WriteMode => s.accepts(value) == (if value == "single-leader"@ || value
                == "multi-leader"@ || value == "primary-queue"@ {
                Some(SettingValue::Text(value))
            } else {
                None
            }),
            Setting::Backend => {
                &&& value == "local"@ && value != "remote"@ && value != "s3"@ ==> s.accepts(value)
                    == Some(SettingValue::Text(value))
                &&& value == "remote"@ || value == "s3"@ ==> s.accepts(value) == Some(
                    SettingValue::Text("remote"@),
                )
                &&& value != "local"@ && value != "remote"@ && value != "s3"@ ==> s.accepts(value)
                    is None
            },
            Setting::Peers => s.accepts(value) == Some(
                SettingValue::List(
                    pieces(value, ',').map_values(|p: Seq<char>| trimmed(p)).filter(
                        |p: Seq<char>| p.len() > 0,
                    ),
                ),
            ),
            _ => s.accepts(value) == Some(SettingValue::Text(value)),
        },
{
    law_blank_peers_are_left_out(pieces(value, ','));
}

/// Of the parts of a list those stay, in order, that hold more than white
/// space, without the white space around them.
pub proof fn law_blank_peers_are_left_out(parts: Seq<Seq<char>>)
    ensures
        kept(parts) == parts.map_values(|p: Seq<char>| trimmed(p)).filter(
            |p: Seq<char>| p.len() > 0,
        ),
    decreases parts.len(),
{
    reveal(Seq::filter);
    let all = parts.map_values(|p: Seq<char>| trimmed(p));
    if parts.len() > 0 {
        law_blank_peers_are_left_out(parts.drop_last());
        assert(all.drop_last() =~= parts.drop_last().map_values(|p: Seq<char>| trimmed(p)));
        assert(all.last() == trimmed(parts.last()));
    }
}

/// What a setting shows is what its field holds: a text as it is, a switch as
/// `true` or `false`, and a list with commas between.
pub proof fn law_settings_show_their_fields(p: Profile)
    ensures
        p.field(Setting::NodeId).shown() == p.node.id@,
        p.field(Setting::NodeRegion).shown() == p.node.region@,
        p.field(Setting::HttpBind).shown() == p.node.http_bind@,
        p.field(Setting::WireBind).shown() == p.node.wire_bind@,
        p.field(Setting::WireEnabled).shown() == (if p.node.wire_enabled {
            "true"@
        } else {
            "false"@
        }),
        p.field(Setting::ApiKey).shown() == p.node.api_key@,
        p.field(Setting::DataDir).shown() == p.node.data_dir@,
        p.field(Setting::LogLevel).shown() == p.node.log_level@,
        p.field(Setting::TlsEnabled).shown() == (if p.node.tls_enabled {
            "true"@
        } else {
            "false"@
        }),
        p.field(Setting::TlsCert).shown() == p.node.tls_cert@,
        p.field(Setting::TlsKey).shown() == p.node.tls_key@,
        p.field(Setting::ReplicationEnabled).shown() == (if p.replication.enabled {
            "true"@
        } else {
            "false"@
        }),
        p.field(Setting::ReplicationRole).shown() == p.replication.role@,
        p.field(Setting::GrpcBind).shown() == p.replication.grpc_bind@,
        p.field(Setting::LeaderAddr).shown() == p.replication.leader_addr@,
        p.field(Setting::Peers).shown() == joined(views(p.replication.peers@), ","@),
        p.field(Setting::WriteMode).shown() == p.replication.write_mode@,
        p.field(Setting::Backend).shown() == p.storage.backend@,
        p.field(Setting::RemoteUrl).shown() == p.storage.remote_endpoint_url@,
        p.field(Setting::RemoteRegion).shown() == p.storage.remote_region@,
        p.field(Setting::RemoteBucket).shown() == p.storage.remote_bucket@,
        p.field(Setting::RemoteAccessKeyId).shown() == p.storage.remote_access_key_id@,
        p.field(Setting::RemoteSecretAccessKey).shown() == p.storage.remote_secret_access_key@,
        p.field(Setting::RemotePrefix).shown() == p.storage.remote_prefix@,
{
}

/// Setting one thing leaves every other setting and the products alone.
pub proof fn law_set_changes_one_setting(
    before: Profile,
    after: Profile,
    s: Setting,
    v: SettingValue,
    t: Setting,
)
    requires
        after.changed(before, s, v),
    ensures
        after.features@ == before.features@,
        after.field(s) == v,
        t != s ==> after.field(t) == before.field(t),
{
}

/// A blank profile has no products and listens on the usual ports, alone and
/// on its own disk.
pub proof fn law_blank_profile(p: Profile)
    requires
        p.is_blank_profile(),
    ensures
        p.features@.len() == 0,
        p.node.id@ == "node-1"@,
        p.node.region@ == "local"@,
        p.node.http_bind@ == "0.0.0.0:8080"@,
        p.node.wire_bind@ == "0.0.0.0:6380"@,
        !p.node.wire_enabled,
        p.node.api_key@.len() == 0,
        p.node.data_dir@ == "./data"@,
        p.node.log_level@ == "info"@,
        !p.node.tls_enabled,
        p.node.tls_cert@.len() == 0,
        p.node.tls_key@.len() == 0,
        !p.replication.enabled,
        p.replication.role@ == "leader"@,
        p.replication.grpc_bind@ == "0.0.0.0:7070"@,
        p.replication.leader_addr@.len() == 0,
        p.replication.peers@.len() == 0,
        p.replication.write_mode@ == "single-leader"@,
        p.storage.backend@ == "local"@,
        p.storage.remote_endpoint_url@.len() == 0,
        p.storage.remote_region@.len() == 0,
        p.storage.remote_bucket@.len() == 0,
        p.storage.remote_access_key_id@.len() == 0,
        p.storage.remote_secret_access_key@.len() == 0,
        p.storage.remote_prefix@.len() == 0,
{
    assert(p.field(Setting::Peers) == SettingValue::List(views(p.replication.peers@)));
    assert(views(p.replication.peers@).len() == 0);
}

/// The configuration of a profile has the profile's settings.
pub proof fn law_configuration_has_the_settings(p: Profile, c: Config)
    requires
        p.describes(c),
    ensures
        c.node.id@ == p.node.id@,
        c.node.region@ == p.node.region@,
        c.http.bind@ == p.node.http_bind@,
        c.wire.enabled == p.node.wire_enabled,
        c.wire.bind@ == p.node.wire_bind@,
        c.auth.api_key@ == p.node.api_key@,
        c.tls.enabled == p.node.tls_enabled,
        c.tls.cert_file@ == p.node.tls_cert@,
        c.tls.key_file@ == p.node.tls_key@,
        c.storage.data_dir@ == p.node.data_dir@,
        c.storage.max_value_bytes == 67108864,
        !c.subscriptions.enabled,
        c.wire.pipeline_concurrency == 1,
        c.storage.default_tier == TierName::Warm,
        c.ops == crate::config::default_ops(),
        c.storage.backend is Remote <==> p.storage.backend@ == "remote"@ || p.storage.backend@
            == "s3"@,
        c.storage.backend matches StorageBackend::Remote(r) ==> r.endpoint_url@
            == p.storage.remote_endpoint_url@ && r.region@ == p.storage.remote_region@ && r.bucket@
            == p.storage.remote_bucket@ && r.access_key_id@ == p.storage.remote_access_key_id@
            && r.secret_access_key@ == p.storage.remote_secret_access_key@ && r.prefix@
            == p.storage.remote_prefix@,
        c.replication.enabled == p.replication.enabled,
        c.replication.role == ReplicationRole::Follower <==> p.replication.role@ == "follower"@,
        c.replication.grpc_bind@ == p.replication.grpc_bind@,
        c.replication.leader_addr is Some <==> p.replication.leader_addr@.len() > 0,
        c.replication.leader_addr matches Some(a) ==> a@ == p.replication.leader_addr@,
        c.replication.peers@.len() == p.replication.peers@.len(),
        forall|i: int|
            0 <= i < p.replication.peers@.len() ==> (#[trigger] c.replication.peers@[i]).addr@
                == p.replication.peers@[i]@ && c.replication.peers@[i].node_id@ == "peer-"@
                + crate::text::decimal(i as nat),
{
    let got = c.replication.peers@.map_values(|q: PeerConfig| q@);
    assert(got.len() == c.replication.peers@.len());
    assert forall|i: int| 0 <= i < p.replication.peers@.len() implies (
    #[trigger] c.replication.peers@[i]).addr@ == p.replication.peers@[i]@
        && c.replication.peers@[i].node_id@ == "peer-"@ + crate::text::decimal(i as nat) by {
        assert(got[i] == c.replication.peers@[i]@);
        assert(got[i] == p.peers()[i]);
    }
}

/// The keyspaces of a profile are those of its products, in order, and each is
/// what its product needs: a cache keeps the rest on disk, a store is warm and
/// pushes its changes, both are sharded on a remote store, and on one's own
/// disk both are replicated where replication is on.
pub proof fn law_products_have_their_keyspaces(p: Profile, f: Feature)
    ensures
        ({
            let remote = p.storage.backend@ == "remote"@ || p.storage.backend@ == "s3"@;
            let k = p.keyspace_for(f);
            &&& k is Some <==> f == Feature::Cache || f == Feature::Kv
            &&& k matches Some(s) ==> {
                &&& s.replication == (p.replication.enabled && !remote)
                &&& s.tier == (if remote {
                    TierName::Sharded
                } else if f == Feature::Cache {
                    TierName::Tiered
                } else {
                    TierName::Warm
                })
                &&& s.name == (if f == Feature::Cache {
                    "cache"@
                } else {
                    "default"@
                })
                &&& s.storage_subdir == (if f == Feature::Cache {
                    "cache"@
                } else {
                    "kv"@
                })
                &&& s.subscriptions == (f == Feature::Kv)
                &&& s.write_mode == (if f == Feature::Kv && p.replication.enabled && !remote {
                    if p.replication.write_mode@ == "multi-leader"@ {
                        WriteMode::MultiLeader
                    } else if p.replication.write_mode@ == "primary-queue"@ {
                        WriteMode::PrimaryQueue
                    } else {
                        WriteMode::SingleLeader
                    }
                } else {
                    WriteMode::SingleLeader
                })
                &&& s.default_ttl_secs == 0 && s.interval_fsync_ms == 0 && s.shard_flush_ms == 0
                &&& s.hot_capacity_mb == 256 && s.evict_sample == 8 && s.shard_buckets == 4096
            }
        }),
{
}

/// The keyspaces of a list of products are those of each, in order; a profile
/// whose products have none gets a hot one.
pub proof fn law_every_product_gets_its_keyspace(p: Profile, features: Seq<Feature>)
    ensures
        p.keyspaces_for(features) == features.filter(
            |f: Feature| f == Feature::Cache || f == Feature::Kv,
        ).map_values(|f: Feature| p.keyspace_for(f)->0),
        (forall|i: int|
            0 <= i < p.features@.len() ==> #[trigger] p.features@[i] != Feature::Cache
                && p.features@[i] != Feature::Kv) ==> p.keyspaces().len() == 1
            && p.keyspaces()[0].name == "default"@ && p.keyspaces()[0].tier == TierName::Hot
            && !p.keyspaces()[0].replication && !p.keyspaces()[0].subscriptions,
        (exists|i: int|
            0 <= i < p.features@.len() && (#[trigger] p.features@[i] == Feature::Cache
                || p.features@[i] == Feature::Kv)) ==> p.keyspaces() == p.keyspaces_for(p.features@),
{
    lemma_keyspaces_are_a_filter(p, features);
    lemma_keyspaces_are_a_filter(p, p.features@);
    lemma_keyspaces_empty(p, p.features@);
}

proof fn lemma_keyspaces_are_a_filter(p: Profile, features: Seq<Feature>)
    ensures
        p.keyspaces_for(features) == features.filter(
            |f: Feature| f == Feature::Cache || f == Feature::Kv,
        ).map_values(|f: Feature| p.keyspace_for(f)->0),
    decreases features.len(),
{
    reveal(Seq::filter);
    let stores = |f: Feature| f == Feature::Cache || f == Feature::Kv;
    let made = |f: Feature| p.keyspace_for(f)->0;
    if features.len() > 0 {
        let front = features.drop_last();
        lemma_keyspaces_are_a_filter(p, front);
        assert(front.filter(stores).push(features.last()).map_values(made) =~= front.filter(
            stores,
        ).map_values(made).push(made(features.last())));
    }
    assert(p.keyspaces_for(features) =~= features.filter(stores).map_values(made));
}

proof fn lemma_keyspaces_empty(p: Profile, features: Seq<Feature>)
    ensures
        p.keyspaces_for(features).len() == 0 <==> forall|i: int|
            0 <= i < features.len() ==> #[trigger] features[i] != Feature::Cache && features[i]
                != Feature::Kv,
    decreases features.len(),
{
    if features.len() > 0 {
        let front = features.drop_last();
        lemma_keyspaces_empty(p, front);
        let last = features.len() - 1;
        if p.keyspaces_for(features).len() == 0 {
            assert forall|i: int| 0 <= i < features.len() implies #[trigger] features[i]
                != Feature::Cache && features[i] != Feature::Kv by {
                if i < last {
                    assert(front[i] == features[i]);
                }
            }
        }
        if forall|i: int|
            0 <= i < features.len() ==> #[trigger] features[i] != Feature::Cache && features[i]
                != Feature::Kv {
            assert(features[last] != Feature::Cache);
            assert forall|i: int| 0 <= i < front.len() implies #[trigger] front[i] != Feature::Cache
                && front[i] != Feature::Kv by {
                assert(front[i] == features[i]);
            }
        }
    }
}

/// Publish/subscribe has a live topic, the queue its jobs with half a minute
/// to acknowledge, and the stream its events, each where its product is.
pub proof fn law_products_have_their_messaging(features: Seq<Feature>)
    ensures
        topics_for(features) == features.filter(|f: Feature| f == Feature::Pubsub).map_values(
            |f: Feature| ("events"@, TopicModeConfig::Ephemeral, 1024usize),
        ),
        queues_for(features) == features.filter(|f: Feature| f == Feature::Queue).map_values(
            |f: Feature| ("jobs"@, 30u64),
        ),
        streams_for(features) == features.filter(|f: Feature| f == Feature::Stream).map_values(
            |f: Feature| ("events"@, 1usize, 1024usize, 0u64),
        ),
    decreases features.len(),
{
    reveal(Seq::filter);
    let (a, b, c) = (
        |f: Feature| f == Feature::Pubsub,
        |f: Feature| f == Feature::Queue,
        |f: Feature| f == Feature::Stream,
    );
    let (x, y, z) = (
        |f: Feature| ("events"@, TopicModeConfig::Ephemeral, 1024usize),
        |f: Feature| ("jobs"@, 30u64),
        |f: Feature| ("events"@, 1usize, 1024usize, 0u64),
    );
    if features.len() > 0 {
        let front = features.drop_last();
        let last = features.last();
        law_products_have_their_messaging(front);
        assert(front.filter(a).push(last).map_values(x) =~= front.filter(a).map_values(x).push(
            x(last),
        ));
        assert(front.filter(b).push(last).map_values(y) =~= front.filter(b).map_values(y).push(
            y(last),
        ));
        assert(front.filter(c).push(last).map_values(z) =~= front.filter(c).map_values(z).push(
            z(last),
        ));
    }
    assert(topics_for(features) =~= features.filter(a).map_values(x));
    assert(queues_for(features) =~= features.filter(b).map_values(y));
    assert(streams_for(features) =~= features.filter(c).map_values(z));
}

/// A configuration has the keyspaces, topics, queues and streams of its
/// profile.
pub proof fn law_configuration_has_the_products(p: Profile, c: Config)
    requires
        p.describes(c),
    ensures
        c.keyspaces@.map_values(|k: KeyspaceConfig| k@) == p.keyspaces(),
        c.topics@.map_values(|t: TopicConfig| t@) == topics_for(p.features@),
        c.queues@.map_values(|q: QueueConfig| q@) == queues_for(p.features@),
        c.streams@.map_values(|t: StreamConfig| t@) == streams_for(p.features@),
{
}

/// The profile lies below the home directory, or below the working directory
/// where there is none.
pub proof fn law_profile_lies_below_home(h: Seq<char>)
    requires
        h.len() > 0,
    ensures
        profile_path(Some(h)) == path_joined(path_joined(h, ".falcon"@), "profile.toml"@),
        profile_path(None) == path_joined(path_joined("."@, ".falcon"@), "profile.toml"@),
        profile_path(Some(Seq::empty())) == profile_path(None),
{
}

/// What went wrong with a profile, in words, and what a setting would take.
pub proof fn law_profile_errors_in_words(e: ProfileError, s: Setting)
    ensures
        match e {
            ProfileError::NotFound(p) => e.text() == "no profile found at "@ + p@
                + " — run `falcon install <feature>` first"@,
            ProfileError::Parse(m) => e.text() == "failed to parse profile: "@ + m@,
            ProfileError::Serialize(m) => e.text() == "failed to serialize profile: "@ + m@,
            ProfileError::Io(m) => e.text() == "io error on profile file: "@ + m@,
            ProfileError::UnknownKey(k) => e.text() == "unknown config key '"@ + k@ + "'"@,
            ProfileError::InvalidValue { key, reason } => e.text() == "invalid value for '"@ + key@
                + "': "@ + reason@,
        },
        s.expectation() == match s {
            Setting::ReplicationRole => "expected 'leader' or 'follower'"@,
            Setting::WriteMode => "expected 'single-leader', 'multi-leader', or 'primary-queue'"@,
            Setting::Backend => "expected 'local' or 'remote'"@,
            _ => "expected true/false"@,
        },
{
}

/// A remote store is never half configured: without its address, bucket or
/// keys the node is refused.
pub proof fn law_remote_store_is_never_half_configured(p: Profile, c: Config, cold: bool)
    requires
        p.describes(c),
        p.storage.backend@ == "remote"@,
        p.storage.remote_endpoint_url@.len() == 0 || p.storage.remote_bucket@.len() == 0
            || p.storage.remote_access_key_id@.len() == 0 || p.storage.remote_secret_access_key@.len()
            == 0,
    ensures
        c.fault(cold) is Some,
{
    crate::config::law_valid_configurations(c, cold);
}

} // verus!
