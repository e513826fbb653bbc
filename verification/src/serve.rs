//! Running a node: what is checked first, which configuration one run has,
//! and how the runtime is sized.

use crate::cli::{names_shown, ServeArgs};
use crate::config::{Config, ConfigError, HttpConfig, NodeConfig, StorageConfig, WireConfig};
use crate::feature::{Feature, FeatureSet};
use crate::install::CliError;
use crate::profile::{Profile, ProfileError};
use crate::text::concat3;
use vstd::prelude::*;
use vstd::string::StringExecFns;

verus! {

/// How many threads a runtime has.
#[derive(Clone, Copy, Debug, PartialEq, Eq, Structural)]
pub struct RuntimePlan {
    /// One per processor.
    pub workers: usize,
    /// At most so many for blocking work.
    pub max_blocking: usize,
}

impl RuntimePlan {
    /// The plan for a machine with so many processors (`None` where that is
    /// not known).
    pub fn for_machine(cpus: Option<usize>) -> (p: Self)
        requires
            cpus matches Some(n) ==> n * 4 <= usize::MAX,
        ensures
            p.workers == match cpus {
                Some(n) => n,
                None => 1,
            },
            p.max_blocking == if p.workers * 4 > 8 {
                p.workers * 4
            } else {
                8
            },
    {
        let workers: usize = match cpus {
            Some(n) => n,
            None => 1,
        };
        let scaled: usize = workers * 4;
        let max_blocking: usize = if scaled > 8 {
            scaled
        } else {
            8
        };
        RuntimePlan { workers, max_blocking }
    }
}

/// The first product of a list that a build lacks.
pub open spec fn first_lacking(list: Seq<Feature>, compiled: Seq<Feature>) -> Option<Feature>
    decreases list.len(),
{
    if list.len() == 0 {
        None
    } else {
        match first_lacking(list.drop_last(), compiled) {
            Some(f) => Some(f),
            None => if compiled.contains(list.last()) {
                None
            } else {
                Some(list.last())
            },
        }
    }
}

proof fn lemma_first_lacking(list: Seq<Feature>, compiled: Seq<Feature>, i: int)
    requires
        0 <= i <= list.len(),
        forall|j: int| 0 <= j < i ==> compiled.contains(#[trigger] list[j]),
    ensures
        first_lacking(list.take(i), compiled) is None,
        i < list.len() && !compiled.contains(list[i]) ==> first_lacking(list, compiled) == Some(
            list[i],
        ),
    decreases i,
{
    if i > 0 {
        lemma_first_lacking(list, compiled, i - 1);
        assert(list.take(i).drop_last() =~= list.take(i - 1));
        assert(compiled.contains(list[i - 1]));
    }
    if i < list.len() && !compiled.contains(list[i]) {
        assert(list.take(i + 1).drop_last() =~= list.take(i));
        lemma_first_lacking_stays(list, compiled, i + 1);
    }
}

proof fn lemma_first_lacking_stays(list: Seq<Feature>, compiled: Seq<Feature>, i: int)
    requires
        0 <= i <= list.len(),
        first_lacking(list.take(i), compiled) is Some,
    ensures
        first_lacking(list, compiled) == first_lacking(list.take(i), compiled),
    decreases list.len() - i,
{
    if i < list.len() {
        assert(list.take(i + 1).drop_last() =~= list.take(i));
        lemma_first_lacking_stays(list, compiled, i + 1);
    } else {
        assert(list.take(i) =~= list);
    }
}

/// The profile that a node runs from: one that was found, with products that
/// the build includes.
pub fn profile_to_run(loaded: Result<Profile, ProfileError>, compiled: &FeatureSet) -> (r: Result<
    Profile,
    CliError,
>)
    ensures
        match loaded {
            Err(ProfileError::NotFound(p)) => r matches Err(CliError::Refused(m)) && m@
                == "no profile at "@ + p@
                + " — install a product first, e.g.:\n  falcon install cache"@,
            Err(e) => r == Err::<Profile, CliError>(CliError::Profile(e)),
            Ok(p) => if p.features@.len() == 0 {
                r matches Err(CliError::Refused(m)) && m@
                    == "profile has no products installed — run `falcon install <feature>`"@
            } else {
                match first_lacking(p.features@, compiled@) {
                    Some(f) => r matches Err(CliError::Refused(m)) && m@ == "profile activates '"@
                        + f.name() + "', which this build does not include (compiled: "@
                        + names_shown(compiled@)
                        + ").\nRun a build that includes it, or the full build."@,
                    None => r == Ok::<Profile, CliError>(p),
                }
            },
        },
{
    let profile = match loaded {
        Ok(p) => p,
        Err(ProfileError::NotFound(p)) => {
            return Err(
                CliError::Refused(
                    concat3(
                        "no profile at ",
                        p.as_str(),
                        " — install a product first, e.g.:\n  falcon install cache",
                    ),
                ),
            );
        },
        Err(e) => {
            return Err(CliError::Profile(e));
        },
    };
    if profile.features.is_empty() {
        return Err(
            CliError::Refused(
                "profile has no products installed — run `falcon install <feature>`".to_owned(),
            ),
        );
    }
    let ghost list = profile.features@;
    match profile.features.first_uncompiled(compiled) {
        Some(f) => {
            proof {
                let i = choose|i: int|
                    0 <= i < list.len() && #[trigger] list[i] == f && !compiled@.contains(f)
                        && forall|j: int| 0 <= j < i ==> compiled@.contains(#[trigger] list[j]);
                lemma_first_lacking(list, compiled@, i);
            }
            let mut m = concat3(
                "profile activates '",
                f.as_str(),
                "', which this build does not include (compiled: ",
            );
            m.append(compiled.display(", ").as_str());
            m.append(").\nRun a build that includes it, or the full build.");
            Err(CliError::Refused(m))
        },
        None => {
            proof {
                lemma_first_lacking(list, compiled@, list.len() as int);
                assert(list.take(list.len() as int) =~= list);
            }
            Ok(profile)
        },
    }
}

pub open spec fn given(value: Option<String>, else_: String) -> String {
    match value {
        Some(v) => v,
        None => else_,
    }
}

/// A configuration with what one run changes in it: the addresses, the wire
/// protocol's switch and the data directory.
pub open spec fn overridden(c: Config, a: ServeArgs) -> Config {
    Config {
        http: HttpConfig { bind: given(a.http_bind, c.http.bind), ..c.http },
        wire: WireConfig {
            bind: given(a.wire_bind, c.wire.bind),
            enabled: c.wire.enabled && !a.wire_disabled,
            ..c.wire
        },
        storage: StorageConfig { data_dir: given(a.data_dir, c.storage.data_dir), ..c.storage },
        ..c
    }
}

/// A configuration with another identity, where one is given.
pub open spec fn renamed(c: Config, a: ServeArgs) -> Config {
    Config {
        node: NodeConfig {
            id: given(a.node_id, c.node.id),
            region: given(a.region, c.node.region),
            ..c.node
        },
        ..c
    }
}

fn apply_overrides(c: &mut Config, a: &ServeArgs)
    ensures
        *final(c) == overridden(*old(c), *a),
{
    if let Some(v) = &a.http_bind {
        c.http.bind = v.clone();
    }
    if let Some(v) = &a.wire_bind {
        c.wire.bind = v.clone();
    }
    if a.wire_disabled {
        c.wire.enabled = false;
    }
    if let Some(v) = &a.data_dir {
        c.storage.data_dir = v.clone();
    }
}

/// The configuration of one run from a profile: the profile's, with the
/// changes of this run on top, where it breaks no rule.
pub fn build_config(profile: &Profile, args: &ServeArgs, cold: bool) -> (r: Result<
    Config,
    ConfigError,
>)
    ensures
        exists|base: Config| #[trigger]
            profile.describes(base) && {
                let c = renamed(overridden(base, *args), *args);
                match r {
                    Ok(out) => out == c && c.fault(cold) is None,
                    Err(e) => c.fault(cold) == Some(e@),
                }
            },
{
    let mut c = profile.to_config();
    let ghost base = c;
    assert(profile.describes(base));
    apply_overrides(&mut c, args);
    if let Some(v) = &args.node_id {
        c.node.id = v.clone();
    }
    if let Some(v) = &args.region {
        c.node.region = v.clone();
    }
    assert(c == renamed(overridden(base, *args), *args));
    match c.validate(cold) {
        Ok(()) => Ok(c),
        Err(e) => Err(e),
    }
}

/// The products that a configuration makes active: the key-value ones always,
/// the others where it declares something of theirs.
pub open spec fn declared_products(c: Config) -> Seq<Feature> {
    let kv = seq![Feature::Kv, Feature::Cache];
    let topics = if c.topics@.len() > 0 {
        kv.push(Feature::Pubsub)
    } else {
        kv
    };
    let queues = if c.queues@.len() > 0 {
        topics.push(Feature::Queue)
    } else {
        topics
    };
    if c.streams@.len() > 0 {
        queues.push(Feature::Stream)
    } else {
        queues
    }
}

pub fn active_products(c: &Config) -> (set: FeatureSet)
    ensures
        set@ == declared_products(*c),
{
    let mut set = FeatureSet::new();
    set.insert(Feature::Kv);
    set.insert(Feature::Cache);
    assert(set@ =~= seq![Feature::Kv, Feature::Cache]);
    if c.topics.len() > 0 {
        set.insert(Feature::Pubsub);
    }
    if c.queues.len() > 0 {
        set.insert(Feature::Queue);
    }
    if c.streams.len() > 0 {
        set.insert(Feature::Stream);
    }
    assert(set@ =~= declared_products(*c));
    set
}

/// The configuration of one run from a configuration of its own instead of a
/// profile, and the products it makes active.
pub fn run_from_config(config: Config, args: &ServeArgs, cold: bool) -> (r: Result<
    (Config, FeatureSet),
    ConfigError,
>)
    ensures
        match r {
            Ok(o) => o.0 == overridden(config, *args) && o.0.fault(cold) is None && o.1@
                == declared_products(o.0),
            Err(e) => overridden(config, *args).fault(cold) == Some(e@),
        },
{
    let mut c = config;
    apply_overrides(&mut c, args);
    match c.validate(cold) {
        Ok(()) => {
            let active = active_products(&c);
            Ok((c, active))
        },
        Err(e) => Err(e),
    }
}

/// What one run changes never makes a configuration break a rule, nor mends
/// one that does: the rules are about other settings.
pub proof fn law_overrides_keep_validity(c: Config, a: ServeArgs, cold: bool)
    ensures
        overridden(c, a).fault(cold) == c.fault(cold),
        renamed(c, a).fault(cold) == c.fault(cold),
{
}

/// A run's changes win over the settings, and where there are none the
/// settings stand.
pub proof fn law_flags_win(c: Config, a: ServeArgs)
    ensures
        a.http_bind matches Some(v) ==> overridden(c, a).http.bind == v,
        a.wire_bind matches Some(v) ==> overridden(c, a).wire.bind == v,
        a.data_dir matches Some(v) ==> overridden(c, a).storage.data_dir == v,
        a.node_id matches Some(v) ==> renamed(c, a).node.id == v,
        a.region matches Some(v) ==> renamed(c, a).node.region == v,
        a.http_bind is None && a.wire_bind is None && a.data_dir is None && !a.wire_disabled
            ==> overridden(c, a) == c,
        a.node_id is None && a.region is None ==> renamed(c, a) == c,
{
}

/// Seconds that a node's last flush may take: at least one.
pub fn grace_secs(configured: u64) -> (s: u64)
    ensures
        s == if configured > 1 {
            configured
        } else {
            1
        },
{
    if configured > 1 {
        configured
    } else {
        1
    }
}

/// The first product of a list that a build lacks, where it lacks any.
pub proof fn law_first_lacking_product(list: Seq<Feature>, compiled: Seq<Feature>, i: int)
    ensures
        first_lacking(list, compiled) is None <==> forall|j: int|
            0 <= j < list.len() ==> compiled.contains(#[trigger] list[j]),
        0 <= i < list.len() && !compiled.contains(list[i]) && (forall|j: int|
            0 <= j < i ==> compiled.contains(#[trigger] list[j])) ==> first_lacking(list, compiled)
            == Some(list[i]),
    decreases list.len(),
{
    if list.len() > 0 {
        let front = list.drop_last();
        let last = list.len() - 1;
        law_first_lacking_product(front, compiled, i);
        if first_lacking(list, compiled) is None {
            assert forall|j: int| 0 <= j < list.len() implies compiled.contains(
                #[trigger] list[j],
            ) by {
                if j < last {
                    assert(compiled.contains(front[j]));
                }
            }
        }
        if forall|j: int| 0 <= j < list.len() ==> compiled.contains(#[trigger] list[j]) {
            assert(compiled.contains(list[last]));
            assert forall|j: int| 0 <= j < front.len() implies compiled.contains(
                #[trigger] front[j],
            ) by {
                assert(front[j] == list[j]);
            }
        }
        if 0 <= i < list.len() && !compiled.contains(list[i]) && (forall|j: int|
            0 <= j < i ==> compiled.contains(#[trigger] list[j])) {
            if i < last {
                assert(front[i] == list[i]);
            }
            assert forall|j: int| 0 <= j < i && j < front.len() implies compiled.contains(
                #[trigger] front[j],
            ) by {
                assert(front[j] == list[j]);
            }
        }
    }
}

/// What is given on the command line takes the place of what is configured,
/// and everything that is not given stays.
pub proof fn law_flags_change_only_what_they_name(c: Config, a: ServeArgs)
    ensures
        ({
            let o = overridden(c, a);
            &&& o.http.bind == (match a.http_bind {
                Some(v) => v,
                None => c.http.bind,
            })
            &&& o.wire.bind == (match a.wire_bind {
                Some(v) => v,
                None => c.wire.bind,
            })
            &&& o.wire.enabled == (c.wire.enabled && !a.wire_disabled)
            &&& o.wire.pipeline_concurrency == c.wire.pipeline_concurrency
            &&& o.storage.data_dir == (match a.data_dir {
                Some(v) => v,
                None => c.storage.data_dir,
            })
            &&& o.storage.backend == c.storage.backend && o.storage.default_tier
                == c.storage.default_tier && o.storage.max_value_bytes == c.storage.max_value_bytes
            &&& o.node == c.node && o.auth == c.auth && o.tls == c.tls && o.replication
                == c.replication && o.subscriptions == c.subscriptions && o.ops == c.ops
                && o.keyspaces == c.keyspaces && o.topics == c.topics && o.queues == c.queues
                && o.streams == c.streams
        }),
        ({
            let o = renamed(c, a);
            &&& o.node.id == (match a.node_id {
                Some(v) => v,
                None => c.node.id,
            })
            &&& o.node.region == (match a.region {
                Some(v) => v,
                None => c.node.region,
            })
            &&& o.http == c.http && o.wire == c.wire && o.storage == c.storage && o.auth == c.auth
                && o.tls == c.tls && o.replication == c.replication && o.subscriptions
                == c.subscriptions && o.ops == c.ops && o.keyspaces == c.keyspaces && o.topics
                == c.topics && o.queues == c.queues && o.streams == c.streams
        }),
{
}

/// A node that runs from a configuration offers the stores always, and each
/// kind of messaging where any of it is configured.
pub proof fn law_configured_products_are_active(c: Config)
    ensures
        declared_products(c).contains(Feature::Kv),
        declared_products(c).contains(Feature::Cache),
        declared_products(c).contains(Feature::Pubsub) <==> c.topics@.len() > 0,
        declared_products(c).contains(Feature::Queue) <==> c.queues@.len() > 0,
        declared_products(c).contains(Feature::Stream) <==> c.streams@.len() > 0,
        declared_products(c).no_duplicates(),
        declared_products(c)[0] == Feature::Kv && declared_products(c)[1] == Feature::Cache,
{
    let p = declared_products(c);
    assert(p[0] == Feature::Kv && p[1] == Feature::Cache);
    let t: int = if c.topics@.len() > 0 {
        1
    } else {
        0
    };
    let q: int = if c.queues@.len() > 0 {
        1
    } else {
        0
    };
    if c.topics@.len() > 0 {
        assert(p[2] == Feature::Pubsub);
    }
    if c.queues@.len() > 0 {
        assert(p[2 + t] == Feature::Queue);
    }
    if c.streams@.len() > 0 {
        assert(p[2 + t + q] == Feature::Stream);
    }
}

} // verus!
