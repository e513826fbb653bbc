//! The commands of the command line, and which of them a build offers.

use crate::feature::{feature_names, Feature, FeatureSet};
use crate::text::{concat3, joined};
use vstd::prelude::*;
use vstd::string::StringExecFns;

verus! {

/// A command line: a command, and the profile it works on.
#[derive(Debug)]
pub struct Cli {
    /// The profile's path; `None` is the usual place.
    pub profile: Option<String>,
    pub command: Command,
}

#[derive(Debug)]
pub enum Command {
    Install(InstallArgs),
    Uninstall(UninstallArgs),
    Status,
    Config(ConfigCmd),
    Peers(PeersCmd),
    Serve(ServeArgs),
    Get(KeyArgs),
    Put(PutArgs),
    Del(KeyArgs),
    Scan(ScanArgs),
    Topic(TopicCmd),
    Queue(QueueCmd),
    Stream(StreamCmd),
    Health(ClientArgs),
    Metrics(ClientArgs),
}

/// A product to install, and settings to change on the way.
#[derive(Debug)]
pub struct InstallArgs {
    pub feature: String,
    pub region: Option<String>,
    pub http_bind: Option<String>,
    pub node_id: Option<String>,
    pub data_dir: Option<String>,
    pub api_key: Option<String>,
    pub replicate: bool,
    pub role: Option<String>,
    pub peers: Vec<String>,
    pub leader_addr: Option<String>,
    pub write_mode: Option<String>,
    pub storage: Option<String>,
    pub remote_url: Option<String>,
    pub remote_region: Option<String>,
    pub remote_bucket: Option<String>,
    pub remote_access_key: Option<String>,
    pub remote_secret_key: Option<String>,
}

#[derive(Debug)]
pub struct UninstallArgs {
    pub feature: String,
}

#[derive(Debug)]
pub enum ConfigCmd {
    Assign { key: String, value: String },
    Get { key: String },
    List,
}

#[derive(Debug)]
pub enum PeersCmd {
    Add { addr: String },
    Remove { addr: String },
    List,
}

/// What one run of a node changes in its settings.
#[derive(Debug)]
pub struct ServeArgs {
    /// A configuration to run in place of the profile.
    pub config: Option<String>,
    pub http_bind: Option<String>,
    pub wire_bind: Option<String>,
    pub wire_disabled: bool,
    pub node_id: Option<String>,
    pub region: Option<String>,
    pub data_dir: Option<String>,
    pub log_level: String,
}

/// Which node a client command talks to.
#[derive(Debug)]
pub struct ClientArgs {
    pub addr: String,
    pub api_key: Option<String>,
}

#[derive(Debug)]
pub struct KeyArgs {
    pub key: String,
    /// The cache instead of the store.
    pub cache: bool,
    pub client: ClientArgs,
}

#[derive(Debug)]
pub struct PutArgs {
    pub key: String,
    /// `None` reads the value from the standard input.
    pub value: Option<String>,
    pub ttl: Option<u64>,
    /// The cache instead of the store.
    pub cache: bool,
    pub client: ClientArgs,
}

#[derive(Debug)]
pub struct ScanArgs {
    pub prefix: String,
    pub client: ClientArgs,
}

#[derive(Debug)]
pub enum TopicCmd {
    Publish { value: Option<String>, client: ClientArgs },
}

#[derive(Debug)]
pub enum QueueCmd {
    Push { value: Option<String>, client: ClientArgs },
    Pop { client: ClientArgs },
}

#[derive(Debug)]
pub enum StreamCmd {
    Append { value: Option<String>, key: String, client: ClientArgs },
    Next { client: ClientArgs },
}

/// The names of the products of a set, as they are shown.
pub open spec fn names_shown(set: Seq<Feature>) -> Seq<char> {
    joined(feature_names(set), ", "@)
}

/// Why a product cannot be installed.
pub open spec fn not_installable(f: Feature, compiled: Seq<Feature>) -> Seq<char> {
    "this build does not include the '"@ + f.name() + "' product (compiled: "@ + names_shown(
        compiled,
    )
        + ").\nInstall a build that includes it, or use the full build:\n  cargo build --release   # full build with every product"@
}

/// Refuses a product that the build does not include.
pub fn ensure_compiled(f: Feature, compiled: &FeatureSet) -> (r: Result<(), String>)
    ensures
        match r {
            Ok(()) => compiled@.contains(f),
            Err(m) => !compiled@.contains(f) && m@ == not_installable(f, compiled@),
        },
{
    if compiled.contains(f) {
        return Ok(());
    }
    let mut m = concat3(
        "this build does not include the '",
        f.as_str(),
        "' product (compiled: ",
    );
    m.append(compiled.display(", ").as_str());
    m.append(
        ").\nInstall a build that includes it, or use the full build:\n  cargo build --release   # full build with every product",
    );
    Err(m)
}

/// Why a client command is not offered.
pub open spec fn not_offered(f: Feature) -> Seq<char> {
    "the '"@ + f.name()
        + "' product is not part of this build.\nUse the full build, or a build that includes it:\n  cargo build --release --no-default-features --features feat-"@
        + f.name()
}

/// Refuses a client command whose product the build does not include.
pub fn require(f: Feature, compiled: &FeatureSet) -> (r: Result<(), String>)
    ensures
        match r {
            Ok(()) => compiled@.contains(f),
            Err(m) => !compiled@.contains(f) && m@ == not_offered(f),
        },
{
    if compiled.contains(f) {
        return Ok(());
    }
    let mut m = concat3(
        "the '",
        f.as_str(),
        "' product is not part of this build.\nUse the full build, or a build that includes it:\n  cargo build --release --no-default-features --features feat-",
    );
    m.append(f.as_str());
    Err(m)
}

/// Refuses the key-value commands where the build has neither the cache nor
/// the store.
pub fn require_kv_ops(compiled: &FeatureSet) -> (r: Result<(), String>)
    ensures
        match r {
            Ok(()) => compiled@.contains(Feature::Kv) || compiled@.contains(Feature::Cache),
            Err(m) => !compiled@.contains(Feature::Kv) && !compiled@.contains(Feature::Cache) && m@
                == "key-value verbs need the 'kv' or 'cache' product, not part of this build.\nUse the full build, or: cargo build --release --no-default-features --features feat-cache"@,
        },
{
    if compiled.contains(Feature::Kv) || compiled.contains(Feature::Cache) {
        Ok(())
    } else {
        Err(
            "key-value verbs need the 'kv' or 'cache' product, not part of this build.\nUse the full build, or: cargo build --release --no-default-features --features feat-cache".to_owned(),
        )
    }
}

impl Command {
    /// The products of which a build needs one to offer the command; none
    /// where every build offers it.
    pub open spec fn products(&self) -> Seq<Feature> {
        match self {
            Command::Get(_) | Command::Put(_) | Command::Del(_) | Command::Scan(_) => seq![
                Feature::Kv,
                Feature::Cache,
            ],
            Command::Topic(_) => seq![Feature::Pubsub],
            Command::Queue(_) => seq![Feature::Queue],
            Command::Stream(_) => seq![Feature::Stream],
            _ => Seq::empty(),
        }
    }

    /// Whether a build with given products offers the command.
    pub open spec fn is_offered(&self, compiled: Seq<Feature>) -> bool {
        self.products().len() == 0 || exists|i: int|
            0 <= i < self.products().len() && compiled.contains(#[trigger] self.products()[i])
    }

    /// Refuses the command where the build does not offer it.
    pub fn check(&self, compiled: &FeatureSet) -> (r: Result<(), String>)
        ensures
            r is Ok <==> self.is_offered(compiled@),
            r matches Err(m) ==> m@ == if self.products().len() == 1 {
                not_offered(self.products()[0])
            } else {
                "key-value verbs need the 'kv' or 'cache' product, not part of this build.\nUse the full build, or: cargo build --release --no-default-features --features feat-cache"@
            },
    {
        match self {
            Command::Get(_) | Command::Put(_) | Command::Del(_) | Command::Scan(_) => {
                assert(self.products()[0] == Feature::Kv && self.products()[1] == Feature::Cache);
                require_kv_ops(compiled)
            },
            Command::Topic(_) => {
                assert(self.products()[0] == Feature::Pubsub);
                require(Feature::Pubsub, compiled)
            },
            Command::Queue(_) => {
                assert(self.products()[0] == Feature::Queue);
                require(Feature::Queue, compiled)
            },
            Command::Stream(_) => {
                assert(self.products()[0] == Feature::Stream);
                require(Feature::Stream, compiled)
            },
            _ => Ok(()),
        }
    }
}

/// The full build offers every command.
pub proof fn law_full_build_offers_all(c: Command)
    ensures
        c.is_offered(crate::feature::all_features()),
{
    let all = crate::feature::all_features();
    assert(all[0] == Feature::Cache && all[1] == Feature::Kv && all[2] == Feature::Pubsub && all[3]
        == Feature::Queue && all[4] == Feature::Stream);
    if c.products().len() > 0 {
        assert(all.contains(c.products()[0]));
    }
}

/// Key-value commands need the store or the cache, messaging commands their own
/// product, and all others none.
pub proof fn law_commands_need_their_products(c: Command, compiled: Seq<Feature>)
    ensures
        c.is_offered(compiled) <==> match c {
            Command::Get(_) => compiled.contains(Feature::Kv) || compiled.contains(Feature::Cache),
            Command::Put(_) => compiled.contains(Feature::Kv) || compiled.contains(Feature::Cache),
            Command::Del(_) => compiled.contains(Feature::Kv) || compiled.contains(Feature::Cache),
            Command::Scan(_) => compiled.contains(Feature::Kv) || compiled.contains(Feature::Cache),
            Command::Topic(_) => compiled.contains(Feature::Pubsub),
            Command::Queue(_) => compiled.contains(Feature::Queue),
            Command::Stream(_) => compiled.contains(Feature::Stream),
            _ => true,
        },
{
    let p = c.products();
    if p.len() == 1 {
        assert(p[0] == c.products()[0]);
    } else if p.len() == 2 {
        assert(p[0] == Feature::Kv && p[1] == Feature::Cache);
    }
}

/// Why a product cannot be installed or used, in words.
pub proof fn law_refused_products_in_words(f: Feature, compiled: Seq<Feature>)
    ensures
        names_shown(compiled) == joined(compiled.map_values(|g: Feature| g.name()), ", "@),
        not_installable(f, compiled) == "this build does not include the '"@ + f.name()
            + "' product (compiled: "@ + joined(compiled.map_values(|g: Feature| g.name()), ", "@)
            + ").\nInstall a build that includes it, or use the full build:\n  cargo build --release   # full build with every product"@,
        not_offered(f) == "the '"@ + f.name()
            + "' product is not part of this build.\nUse the full build, or a build that includes it:\n  cargo build --release --no-default-features --features feat-"@
            + f.name(),
{
    assert(feature_names(compiled) =~= compiled.map_values(|g: Feature| g.name()));
}

} // verus!
