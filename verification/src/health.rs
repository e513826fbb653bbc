//! What a node reports of itself.

use crate::config::{
    Config, KeyspaceConfig, QueueConfig, ReplicationRole, StreamConfig, TopicConfig,
};
use crate::feature::{Feature, FeatureSet as ProductSet};
use crate::keyspace::Keyspace;
use crate::replication::{FollowStep, ReplicationPlan};
use crate::text::views;
use vstd::prelude::*;

verus! {

/// A keyspace's health. `T` is what a tiered keyspace reports of its tiers.
#[derive(Debug)]
pub struct KeyspaceHealth<T> {
    pub name: String,
    pub tier: &'static str,
    pub subscriptions_enabled: bool,
    pub last_applied_sequence: u64,
    pub ttl_tracked_keys: u64,
    pub tiering: Option<T>,
}

/// Which optional parts are on, and how many of each sort there are.
#[derive(Clone, Copy, Debug)]
pub struct FeatureSet {
    pub auth: bool,
    pub wire_protocol: bool,
    pub replication: bool,
    pub subscriptions: bool,
    pub topics: usize,
    pub queues: usize,
    pub streams: usize,
}

/// Which components are on.
#[derive(Clone, Copy, Debug)]
pub struct FalconComponents {
    pub falcon_db: bool,
    pub falcon_queue: bool,
    pub falcon_pubsub: bool,
    pub falcon_realtime_db: bool,
}

#[derive(Debug)]
pub struct HealthResponse<T> {
    pub status: &'static str,
    pub product: &'static str,
    pub components: FalconComponents,
    pub node_id: String,
    pub region: String,
    pub replication_enabled: bool,
    pub replication_role: Option<&'static str>,
    pub features: FeatureSet,
    pub keyspaces: Vec<KeyspaceHealth<T>>,
    pub topics: Vec<String>,
    pub queues: Vec<String>,
    pub streams: Vec<String>,
    /// The installed products.
    pub products: Vec<String>,
    /// The first installed product.
    pub primary_product: Option<String>,
}

/// A keyspace's health, given what only its engine knows.
pub fn keyspace_health<T>(ks: &Keyspace, last_applied_sequence: u64, tiering: Option<T>) -> (h:
    KeyspaceHealth<T>)
    ensures
        h.name@ == ks@.name,
        h.tier@ == ks@.tier.name(),
        h.subscriptions_enabled == ks@.publishes,
        h.last_applied_sequence == last_applied_sequence,
        h.ttl_tracked_keys == ks@.expiry.len(),
        h.tiering == tiering,
{
    KeyspaceHealth {
        name: ks.name().to_owned(),
        tier: ks.tier().as_str(),
        subscriptions_enabled: ks.events().is_some(),
        last_applied_sequence,
        ttl_tracked_keys: ks.tracked_ttl_keys() as u64,
        tiering,
    }
}

/// Whether any keyspace of a configuration lets clients subscribe.
pub open spec fn subscriptions_active(c: Config) -> bool {
    c.subscriptions.enabled || exists|i: int|
        0 <= i < c.keyspaces@.len() && (#[trigger] c.keyspaces@[i]).subscriptions
}

fn any_subscriptions(ks: &Vec<KeyspaceConfig>) -> (r: bool)
    ensures
        r == exists|i: int| 0 <= i < ks@.len() && (#[trigger] ks@[i]).subscriptions,
{
    let mut i: usize = 0;
    while i < ks.len()
        invariant
            i <= ks.len(),
            forall|j: int| 0 <= j < i ==> !(#[trigger] ks@[j]).subscriptions,
        decreases ks.len() - i,
    {
        if ks[i].subscriptions {
            assert(ks@[i as int].subscriptions);
            return true;
        }
        i = i + 1;
    }
    false
}

fn topic_names(v: &Vec<TopicConfig>) -> (out: Vec<String>)
    ensures
        views(out@) == v@.map_values(|t: TopicConfig| t.name@),
{
    let mut out: Vec<String> = Vec::new();
    let mut i: usize = 0;
    while i < v.len()
        invariant
            i <= v.len(),
            out@.len() == i,
            forall|j: int| 0 <= j < i ==> (#[trigger] out@[j])@ == v@[j].name@,
        decreases v.len() - i,
    {
        out.push(v[i].name.clone());
        i = i + 1;
    }
    assert(views(out@) =~= v@.map_values(|t: TopicConfig| t.name@));
    out
}

fn queue_names(v: &Vec<QueueConfig>) -> (out: Vec<String>)
    ensures
        views(out@) == v@.map_values(|t: QueueConfig| t.name@),
{
    let mut out: Vec<String> = Vec::new();
    let mut i: usize = 0;
    while i < v.len()
        invariant
            i <= v.len(),
            out@.len() == i,
            forall|j: int| 0 <= j < i ==> (#[trigger] out@[j])@ == v@[j].name@,
        decreases v.len() - i,
    {
        out.push(v[i].name.clone());
        i = i + 1;
    }
    assert(views(out@) =~= v@.map_values(|t: QueueConfig| t.name@));
    out
}

fn stream_names(v: &Vec<StreamConfig>) -> (out: Vec<String>)
    ensures
        views(out@) == v@.map_values(|t: StreamConfig| t.name@),
{
    let mut out: Vec<String> = Vec::new();
    let mut i: usize = 0;
    while i < v.len()
        invariant
            i <= v.len(),
            out@.len() == i,
            forall|j: int| 0 <= j < i ==> (#[trigger] out@[j])@ == v@[j].name@,
        decreases v.len() - i,
    {
        out.push(v[i].name.clone());
        i = i + 1;
    }
    assert(views(out@) =~= v@.map_values(|t: StreamConfig| t.name@));
    out
}

/// What a node with the given configuration and products reports, given the
/// health of its keyspaces.
pub fn healthz<T>(config: &Config, products: &ProductSet, keyspaces: Vec<KeyspaceHealth<T>>) -> (h:
    HealthResponse<T>)
    ensures
        h.status@ == "ok"@,
        h.product@ == "Falcon"@,
        h.components == (FalconComponents {
            falcon_db: true,
            falcon_queue: config.queues@.len() > 0,
            falcon_pubsub: config.topics@.len() > 0,
            falcon_realtime_db: subscriptions_active(*config),
        }),
        h.node_id@ == config.node.id@,
        h.region@ == config.node.region@,
        h.replication_enabled == config.replication.enabled,
        match h.replication_role {
            Some(role) => config.replication.enabled && role@ == match config.replication.role {
                ReplicationRole::Leader => "leader"@,
                ReplicationRole::Follower => "follower"@,
            },
            None => !config.replication.enabled,
        },
        h.features == (FeatureSet {
            auth: config.auth.api_key@.len() > 0,
            wire_protocol: config.wire.enabled,
            replication: config.replication.enabled,
            subscriptions: subscriptions_active(*config),
            topics: config.topics@.len() as usize,
            queues: config.queues@.len() as usize,
            streams: config.streams@.len() as usize,
        }),
        h.keyspaces == keyspaces,
        views(h.topics@) == config.topics@.map_values(|t: TopicConfig| t.name@),
        views(h.queues@) == config.queues@.map_values(|q: QueueConfig| q.name@),
        views(h.streams@) == config.streams@.map_values(|s: StreamConfig| s.name@),
        views(h.products@) == crate::feature::feature_names(products@),
        match h.primary_product {
            Some(p) => products@.len() > 0 && p@ == products@[0].name(),
            None => products@.len() == 0,
        },
{
    let subscriptions = config.subscriptions.enabled || any_subscriptions(&config.keyspaces);
    let list = products.iter();
    let primary_product = if list.len() > 0 {
        Some(list[0].as_str().to_owned())
    } else {
        None
    };
    HealthResponse {
        status: "ok",
        product: "Falcon",
        components: FalconComponents {
            falcon_db: true,
            falcon_queue: config.queues.len() > 0,
            falcon_pubsub: config.topics.len() > 0,
            falcon_realtime_db: subscriptions,
        },
        node_id: config.node.id.clone(),
        region: config.node.region.clone(),
        replication_enabled: config.replication.enabled,
        replication_role: if config.replication.enabled {
            Some(
                match config.replication.role {
                    ReplicationRole::Leader => "leader",
                    ReplicationRole::Follower => "follower",
                },
            )
        } else {
            None
        },
        features: FeatureSet {
            auth: config.auth.is_enabled(),
            wire_protocol: config.wire.enabled,
            replication: config.replication.enabled,
            subscriptions,
            topics: config.topics.len(),
            queues: config.queues.len(),
            streams: config.streams.len(),
        },
        keyspaces,
        topics: topic_names(&config.topics),
        queues: queue_names(&config.queues),
        streams: stream_names(&config.streams),
        products: products.names(),
        primary_product,
    }
}

/// The page at the root: a product's own where it is the only one, else the
/// combined dashboard (`None`).
pub fn dashboard(products: &ProductSet) -> (p: Option<Feature>)
    ensures
        p == if products@.len() == 1 {
            Some(products@[0])
        } else {
            None
        },
{
    let list = products.iter();
    if list.len() == 1 {
        Some(list[0])
    } else {
        None
    }
}

/// Whether a followed keyspace has reached the leader's live changes.
pub open spec fn is_live(step: Option<FollowStep>) -> bool {
    step matches Some(s) && s is Stream
}

/// Whether a follower has caught up with its leader: every keyspace that it
/// follows has reached the leader's live changes.
pub open spec fn caught_up(steps: Seq<Option<FollowStep>>) -> bool {
    forall|i: int| 0 <= i < steps.len() ==> is_live(#[trigger] steps[i])
}

/// Whether a node is ready for traffic: it has started, and where it follows a
/// leader it has caught up. `steps` says for each followed keyspace what was
/// last asked of the leader (`None` where it has not answered yet): a follower
/// that has nothing, or is too far behind, is on its snapshot.
pub fn is_ready(started: bool, plan: &ReplicationPlan, steps: &Vec<Option<FollowStep>>) -> (r: bool)
    ensures
        r == (started && (plan is Follower ==> caught_up(steps@))),
{
    if !started {
        return false;
    }
    match plan {
        ReplicationPlan::Follower { .. } => {
            let mut i: usize = 0;
            while i < steps.len()
                invariant
                    i <= steps.len(),
                    started,
                    plan is Follower,
                    forall|j: int| 0 <= j < i ==> is_live(#[trigger] steps@[j]),
                decreases steps.len() - i,
            {
                match steps[i] {
                    Some(FollowStep::Stream { .. }) => {},
                    _ => {
                        assert(!is_live(steps@[i as int]));
                        return false;
                    },
                }
                i = i + 1;
            }
            true
        },
        _ => true,
    }
}

/// The status and body of the readiness probe.
pub fn readyz(ready: bool) -> (r: (u16, &'static str))
    ensures
        ready ==> r.0 == 200 && r.1@ == "ready"@,
        !ready ==> r.0 == 503 && r.1@ == "not ready"@,
{
    if ready {
        (200, "ready")
    } else {
        (503, "not ready")
    }
}

/// Subscriptions are on where they are on for the node or for any keyspace.
pub proof fn law_any_subscription_counts(c: Config, i: int)
    ensures
        c.subscriptions.enabled ==> subscriptions_active(c),
        0 <= i < c.keyspaces@.len() && c.keyspaces@[i].subscriptions ==> subscriptions_active(c),
        subscriptions_active(c) && !c.subscriptions.enabled ==> exists|j: int|
            0 <= j < c.keyspaces@.len() && (#[trigger] c.keyspaces@[j]).subscriptions,
{
}

/// A follower has caught up once every keyspace that it follows is at the live
/// stream: one that still asks for a snapshot, or for nothing yet, holds it
/// back.
pub proof fn law_every_keyspace_has_to_catch_up(steps: Seq<Option<FollowStep>>, i: int)
    requires
        0 <= i < steps.len(),
    ensures
        steps[i] is None ==> !caught_up(steps),
        steps[i] == Some(FollowStep::Snapshot) ==> !caught_up(steps),
        (forall|j: int|
            0 <= j < steps.len() ==> ((#[trigger] steps[j]) matches Some(s) && s is Stream))
            ==> caught_up(steps),
{
    if steps[i] is None || steps[i] == Some(FollowStep::Snapshot) {
        assert(!is_live(steps[i]));
    }
}

} // verus!
