//! Replication between nodes: which role a node plays for which keyspace, how
//! a follower catches up, and what a leader sends.

use crate::api::constant_time_eq;
use crate::config::{Config, KeyspaceConfig, ReplicationRole, TierName, WriteMode};
use crate::event::{Change, ChangeEvent, Sequence};
use crate::proto::{received, to_proto, wire_time, ChangeEventProto, ProtoValue};
use crate::text::{concat3, is_blank, same, views};
use vstd::prelude::*;
use vstd::string::StringExecFns;

verus! {

/// A follower that is further behind than this takes a snapshot instead of
/// reading the leader's log from where it stopped.
pub const SNAPSHOT_CATCHUP_THRESHOLD: u64 = 10_000;

/// How long a leader waits for a wake before it looks at its log anyway.
pub const SAFETY_POLL_MS: u64 = 25;

/// Whether a tier has an ordered log that followers can be served from.
pub open spec fn tier_has_log(t: TierName) -> bool {
    t == TierName::Warm || t == TierName::Cold || t == TierName::Tiered
}

pub fn has_log(t: TierName) -> (r: bool)
    ensures
        r == tier_has_log(t),
{
    match t {
        TierName::Warm | TierName::Cold | TierName::Tiered => true,
        TierName::Hot | TierName::Sharded => false,
    }
}

/// A keyspace that a node serves to others.
#[derive(Debug)]
pub struct SourcePlan {
    pub keyspace: String,
    /// Whether writes that other regions forward are committed here.
    pub accepts_forwarded: bool,
}

/// One keyspace that a node follows on one peer.
#[derive(Debug)]
pub struct PeerFollow {
    pub keyspace: String,
    pub peer_addr: String,
}

/// What a node does for replication.
#[derive(Debug)]
pub enum ReplicationPlan {
    Disabled,
    /// Replication is on, but for no keyspace.
    NothingReplicated,
    /// Serve every replicated keyspace, and follow every peer for the
    /// keyspaces that several regions write to.
    MultiLeader { sources: Vec<SourcePlan>, follows: Vec<PeerFollow> },
    Leader { sources: Vec<SourcePlan> },
    /// Follow the leader for every replicated keyspace (none without a leader
    /// address), and forward the writes of some to it.
    Follower { leader_addr: Option<String>, keyspaces: Vec<String>, forward: Vec<String> },
}

/// The names of the keyspaces that are replicated, in order.
pub open spec fn replicated_names(ks: Seq<KeyspaceConfig>) -> Seq<Seq<char>>
    decreases ks.len(),
{
    if ks.len() == 0 {
        Seq::empty()
    } else if ks.last().replication {
        replicated_names(ks.drop_last()).push(ks.last().name@)
    } else {
        replicated_names(ks.drop_last())
    }
}

/// The names of the replicated keyspaces with the given write mode, in order.
pub open spec fn names_with_mode(ks: Seq<KeyspaceConfig>, m: WriteMode) -> Seq<Seq<char>>
    decreases ks.len(),
{
    if ks.len() == 0 {
        Seq::empty()
    } else if ks.last().replication && ks.last().write_mode == m {
        names_with_mode(ks.drop_last(), m).push(ks.last().name@)
    } else {
        names_with_mode(ks.drop_last(), m)
    }
}

/// Whether any keyspace of a name has a primary that commits forwarded
/// writes.
pub open spec fn is_primary_queue(ks: Seq<KeyspaceConfig>, name: Seq<char>) -> bool {
    exists|i: int|
        0 <= i < ks.len() && (#[trigger] ks[i]).name@ == name && ks[i].write_mode
            == WriteMode::PrimaryQueue
}

fn replicated(ks: &Vec<KeyspaceConfig>) -> (out: Vec<String>)
    ensures
        views(out@) == replicated_names(ks@),
{
    let mut out: Vec<String> = Vec::new();
    let mut i: usize = 0;
    assert(views(out@) =~= Seq::empty());
    while i < ks.len()
        invariant
            i <= ks.len(),
            views(out@) == replicated_names(ks@.take(i as int)),
        decreases ks.len() - i,
    {
        assert(ks@.take(i + 1).drop_last() =~= ks@.take(i as int));
        if ks[i].replication {
            let ghost before = views(out@);
            out.push(ks[i].name.clone());
            assert(views(out@) =~= before.push(ks@[i as int].name@));
        }
        i = i + 1;
    }
    assert(ks@.take(i as int) =~= ks@);
    out
}

fn with_mode(ks: &Vec<KeyspaceConfig>, m: WriteMode) -> (out: Vec<String>)
    ensures
        views(out@) == names_with_mode(ks@, m),
{
    let mut out: Vec<String> = Vec::new();
    let mut i: usize = 0;
    assert(views(out@) =~= Seq::empty());
    while i < ks.len()
        invariant
            i <= ks.len(),
            views(out@) == names_with_mode(ks@.take(i as int), m),
        decreases ks.len() - i,
    {
        assert(ks@.take(i + 1).drop_last() =~= ks@.take(i as int));
        if ks[i].replication && ks[i].write_mode == m {
            let ghost before = views(out@);
            out.push(ks[i].name.clone());
            assert(views(out@) =~= before.push(ks@[i as int].name@));
        }
        i = i + 1;
    }
    assert(ks@.take(i as int) =~= ks@);
    out
}

fn primary_queue(ks: &Vec<KeyspaceConfig>, name: &str) -> (r: bool)
    ensures
        r == is_primary_queue(ks@, name@),
{
    let mut i: usize = 0;
    while i < ks.len()
        invariant
            i <= ks.len(),
            forall|j: int|
                0 <= j < i ==> !((#[trigger] ks@[j]).name@ == name@ && ks@[j].write_mode
                    == WriteMode::PrimaryQueue),
        decreases ks.len() - i,
    {
        if ks[i].write_mode == WriteMode::PrimaryQueue && same(ks[i].name.as_str(), name) {
            assert(ks@[i as int].name@ == name@);
            return true;
        }
        i = i + 1;
    }
    false
}

/// Whether sources are those of the named keyspaces.
pub open spec fn are_sources(c: Config, names: Seq<Seq<char>>, sources: Seq<SourcePlan>) -> bool {
    &&& sources.len() == names.len()
    &&& forall|i: int|
        0 <= i < names.len() ==> (#[trigger] sources[i]).keyspace@ == names[i]
            && sources[i].accepts_forwarded == is_primary_queue(c.keyspaces@, names[i])
}

/// The sources of a leader: every replicated keyspace, and for each whether
/// forwarded writes are committed here.
pub fn start_leader(c: &Config, keyspaces: &Vec<String>) -> (out: Vec<SourcePlan>)
    ensures
        are_sources(*c, views(keyspaces@), out@),
{
    let mut out: Vec<SourcePlan> = Vec::new();
    let mut i: usize = 0;
    while i < keyspaces.len()
        invariant
            i <= keyspaces.len(),
            out@.len() == i,
            forall|j: int|
                0 <= j < i ==> (#[trigger] out@[j]).keyspace@ == keyspaces@[j]@
                    && out@[j].accepts_forwarded == is_primary_queue(
                    c.keyspaces@,
                    keyspaces@[j]@,
                ),
        decreases keyspaces.len() - i,
    {
        out.push(
            SourcePlan {
                keyspace: keyspaces[i].clone(),
                accepts_forwarded: primary_queue(&c.keyspaces, keyspaces[i].as_str()),
            },
        );
        i = i + 1;
    }
    out
}

/// What is followed: each keyspace on each peer, keyspace by keyspace.
pub open spec fn all_follows(names: Seq<Seq<char>>, peers: Seq<Seq<char>>) -> Seq<
    (Seq<char>, Seq<char>),
> {
    Seq::new(
        names.len() * peers.len(),
        |i: int| (names[i / (peers.len() as int)], peers[i % (peers.len() as int)]),
    )
}

pub open spec fn follow_views(v: Seq<PeerFollow>) -> Seq<(Seq<char>, Seq<char>)> {
    v.map_values(|f: PeerFollow| (f.keyspace@, f.peer_addr@))
}

/// The addresses of a configuration's peers.
pub open spec fn peer_addrs(c: Config) -> Seq<Seq<char>> {
    c.replication.peers@.map_values(|p: crate::config::PeerConfig| p.addr@)
}

proof fn lemma_follow_index(n: int, i: int, j: int)
    requires
        0 <= i,
        0 <= j < n,
    ensures
        (i * n + j) / n == i,
        (i * n + j) % n == j,
{
    vstd::arithmetic::div_mod::lemma_fundamental_div_mod_converse(i * n + j, n, i, j);
}

fn start_multi_leader_peers(c: &Config, keyspaces: &Vec<String>) -> (out: Vec<PeerFollow>)
    ensures
        follow_views(out@) == all_follows(views(keyspaces@), peer_addrs(*c)),
{
    let ghost names = views(keyspaces@);
    let ghost addrs = peer_addrs(*c);
    let ghost n = addrs.len() as int;
    let mut out: Vec<PeerFollow> = Vec::new();
    let mut i: usize = 0;
    while i < keyspaces.len()
        invariant
            i <= keyspaces.len(),
            names == views(keyspaces@),
            addrs == peer_addrs(*c),
            n == addrs.len(),
            out@.len() == i * n,
            forall|k: int|
                0 <= k < i * n ==> ((#[trigger] out@[k]).keyspace@, out@[k].peer_addr@) == (
                    names[k / n],
                    addrs[k % n],
                ),
        decreases keyspaces.len() - i,
    {
        let mut j: usize = 0;
        assert(i * n + 0 == i * n);
        while j < c.replication.peers.len()
            invariant
                i < keyspaces.len(),
                j <= c.replication.peers.len(),
                names == views(keyspaces@),
                addrs == peer_addrs(*c),
                n == addrs.len(),
                out@.len() == i * n + j,
                forall|k: int|
                    0 <= k < i * n + j ==> ((#[trigger] out@[k]).keyspace@, out@[k].peer_addr@) == (
                        names[k / n],
                        addrs[k % n],
                    ),
            decreases c.replication.peers.len() - j,
        {
            proof {
                lemma_follow_index(n, i as int, j as int);
            }
            out.push(
                PeerFollow {
                    keyspace: keyspaces[i].clone(),
                    peer_addr: c.replication.peers[j].addr.clone(),
                },
            );
            j = j + 1;
        }
        assert((i + 1) * n == i * n + n) by (nonlinear_arith);
        i = i + 1;
    }
    assert(follow_views(out@) =~= all_follows(names, addrs));
    out
}

/// What a node with a given configuration does for replication.
pub fn start(c: &Config) -> (p: ReplicationPlan)
    ensures
        ({
            let names = replicated_names(c.keyspaces@);
            let shared = names_with_mode(c.keyspaces@, WriteMode::MultiLeader);
            let queued = names_with_mode(c.keyspaces@, WriteMode::PrimaryQueue);
            if !c.replication.enabled {
                p is Disabled
            } else if names.len() == 0 {
                p is NothingReplicated
            } else if shared.len() > 0 {
                p matches ReplicationPlan::MultiLeader { sources, follows } && are_sources(
                    *c,
                    names,
                    sources@,
                ) && follow_views(follows@) == all_follows(shared, peer_addrs(*c))
            } else if c.replication.role == ReplicationRole::Leader {
                p matches ReplicationPlan::Leader { sources } && are_sources(*c, names, sources@)
            } else {
                p matches ReplicationPlan::Follower { leader_addr, keyspaces, forward }
                    && leader_addr == c.replication.leader_addr && views(keyspaces@) == (
                if c.replication.leader_addr is None {
                    Seq::empty()
                } else {
                    names
                }) && views(forward@) == (if c.replication.has_leader() {
                    queued
                } else {
                    Seq::empty()
                })
            }
        }),
        // The keyspaces with replication on, and no others, are served or followed.
        p matches ReplicationPlan::Leader { sources } ==> sources@.map_values(
            |s: SourcePlan| s.keyspace@,
        ) == c.keyspaces@.filter(|k: KeyspaceConfig| k.replication).map_values(
            |k: KeyspaceConfig| k.name@,
        ),
        p matches ReplicationPlan::MultiLeader { sources, follows } ==> sources@.map_values(
            |s: SourcePlan| s.keyspace@,
        ) == c.keyspaces@.filter(|k: KeyspaceConfig| k.replication).map_values(
            |k: KeyspaceConfig| k.name@,
        ),
        p matches ReplicationPlan::Follower { leader_addr, keyspaces, forward } ==> (leader_addr
            is Some ==> keyspaces@.map_values(|s: String| s@) == c.keyspaces@.filter(
            |k: KeyspaceConfig| k.replication,
        ).map_values(|k: KeyspaceConfig| k.name@)),
        p is NothingReplicated <==> c.replication.enabled && (forall|i: int|
            0 <= i < c.keyspaces@.len() ==> !(#[trigger] c.keyspaces@[i]).replication),
{
    proof {
        law_replication_is_by_its_switch(c.keyspaces@, WriteMode::MultiLeader);
        law_replicated_keyspaces_are_listed(c.keyspaces@);
    }
    if !c.replication.enabled {
        return ReplicationPlan::Disabled;
    }
    let names = replicated(&c.keyspaces);
    assert(views(names@).len() == names@.len());
    if names.len() == 0 {
        return ReplicationPlan::NothingReplicated;
    }
    let shared = with_mode(&c.keyspaces, WriteMode::MultiLeader);
    assert(views(shared@).len() == shared@.len());
    assert(names@.map_values(|s: String| s@) =~= views(names@));
    if shared.len() > 0 {
        let sources = start_leader(c, &names);
        assert(sources@.map_values(|s: SourcePlan| s.keyspace@) =~= views(names@));
        return ReplicationPlan::MultiLeader {
            sources,
            follows: start_multi_leader_peers(c, &shared),
        };
    }
    match c.replication.role {
        ReplicationRole::Leader => {
            let sources = start_leader(c, &names);
            assert(sources@.map_values(|s: SourcePlan| s.keyspace@) =~= views(names@));
            ReplicationPlan::Leader { sources }
        },
        ReplicationRole::Follower => {
            let none: Vec<String> = Vec::new();
            assert(views(none@) =~= Seq::empty());
            match &c.replication.leader_addr {
                Some(addr) => {
                    let forward = if is_blank(addr) {
                        none
                    } else {
                        with_mode(&c.keyspaces, WriteMode::PrimaryQueue)
                    };
                    ReplicationPlan::Follower {
                        leader_addr: Some(addr.clone()),
                        keyspaces: names,
                        forward,
                    }
                },
                None => {
                    let also_none: Vec<String> = Vec::new();
                    assert(views(also_none@) =~= Seq::empty());
                    ReplicationPlan::Follower {
                        leader_addr: None,
                        keyspaces: none,
                        forward: also_none,
                    }
                },
            }
        },
    }
}

/// Every keyspace that a leader with a valid configuration serves has a log to
/// serve it from.
pub proof fn law_leader_sources_have_logs(c: Config, cold: bool, i: int)
    requires
        c.fault(cold) is None,
        c.replication.role == ReplicationRole::Leader,
        0 <= i < c.keyspaces@.len(),
        c.keyspaces@[i].replication,
    ensures
        tier_has_log(c.keyspaces@[i].tier),
{
    crate::config::law_valid_replicated_tiers(c, cold, i);
}

/// A follower with a valid configuration has a leader to follow.
pub proof fn law_valid_follower_has_leader(c: Config, cold: bool)
    requires
        c.fault(cold) is None,
        c.replication.enabled,
        c.replication.role == ReplicationRole::Follower,
    ensures
        c.replication.has_leader(),
{
}

/// What a follower asks its leader for.
#[derive(Clone, Copy, Debug, PartialEq, Eq, Structural)]
pub enum FollowStep {
    Snapshot,
    /// The changes after this sequence number.
    Stream { resume_sequence: Sequence },
}

/// Whether a follower at `resume` needs a snapshot of a leader at `current`:
/// it has nothing yet, or is too far behind.
pub open spec fn wants_snapshot(current: Sequence, resume: Sequence) -> bool {
    resume == 0 || current - resume > SNAPSHOT_CATCHUP_THRESHOLD
}

/// A follower's next step after the handshake. One that follows a peer reads
/// the peer's whole log each time: a change that it has seen is no news to it.
pub fn after_handshake(
    peer: bool,
    current_sequence: Sequence,
    last_applied: Sequence,
) -> (s: FollowStep)
    ensures
        s == if peer {
            FollowStep::Stream { resume_sequence: 0 }
        } else if wants_snapshot(current_sequence, last_applied) {
            FollowStep::Snapshot
        } else {
            FollowStep::Stream { resume_sequence: last_applied }
        },
{
    if peer {
        return FollowStep::Stream { resume_sequence: 0 };
    }
    let behind: u64 = if current_sequence > last_applied {
        current_sequence - last_applied
    } else {
        0
    };
    if behind > SNAPSHOT_CATCHUP_THRESHOLD || last_applied == 0 {
        FollowStep::Snapshot
    } else {
        FollowStep::Stream { resume_sequence: last_applied }
    }
}

/// A follower's next step after a chunk of a snapshot was applied (`None`
/// where the snapshot ended): more of it, or the changes after what is
/// applied by then.
pub fn after_chunk(is_final: Option<bool>, last_applied: Sequence) -> (s: FollowStep)
    ensures
        s == if is_final == Some(false) {
            FollowStep::Snapshot
        } else {
            FollowStep::Stream { resume_sequence: last_applied }
        },
{
    match is_final {
        Some(false) => FollowStep::Snapshot,
        _ => FollowStep::Stream { resume_sequence: last_applied },
    }
}

/// How a follower that lost its leader waits longer and longer.
#[derive(Clone, Copy, Debug)]
pub struct Backoff {
    attempt: usize,
}

/// Milliseconds of waiting before the next attempt after so many failures.
pub open spec fn backoff_ms(attempt: nat) -> u64 {
    if attempt == 0 {
        200
    } else if attempt == 1 {
        500
    } else if attempt == 2 {
        1000
    } else if attempt == 3 {
        3000
    } else {
        5000
    }
}

impl Backoff {
    /// How many attempts failed in a row.
    pub closed spec fn failures(&self) -> usize {
        self.attempt
    }

    pub fn new() -> (b: Self)
        ensures
            b.failures() == 0,
    {
        Backoff { attempt: 0 }
    }

    /// The stream ended without an error.
    pub fn ended(&mut self)
        ensures
            final(self).failures() == 0,
    {
        self.attempt = 0;
    }

    /// The attempt failed.
    pub fn failed(&mut self)
        requires
            old(self).failures() < usize::MAX,
        ensures
            final(self).failures() == old(self).failures() + 1,
    {
        self.attempt = self.attempt + 1;
    }

    /// Whether one more failure can be counted.
    pub fn can_fail(&self) -> (r: bool)
        ensures
            r == (self.failures() < usize::MAX),
    {
        self.attempt < usize::MAX
    }

    /// Milliseconds to wait now.
    pub fn delay_ms(&self) -> (ms: u64)
        ensures
            ms == backoff_ms(self.failures() as nat),
    {
        match self.attempt {
            0 => 200,
            1 => 500,
            2 => 1000,
            3 => 3000,
            _ => 5000,
        }
    }
}

/// A follower never waits less after one more failure, and never more than
/// five seconds.
pub proof fn law_backoff_grows(attempt: nat)
    ensures
        backoff_ms(attempt) <= backoff_ms(attempt + 1) <= 5000,
{
}

/// What goes wrong with a call between nodes.
#[derive(Debug)]
pub enum RpcError {
    Unauthenticated(String),
    NotFound(String),
    FailedPrecondition(String),
    Internal(String),
}

/// Whether a call is from a node of this cluster: no token is set, or it
/// presents the right one.
pub fn check_auth(token: &str, presented: Option<&str>) -> (r: Result<(), RpcError>)
    ensures
        ({
            let shown = match presented {
                Some(p) => p@,
                None => Seq::empty(),
            };
            match r {
                Ok(()) => token@.len() == 0 || shown == token@,
                Err(e) => token@.len() > 0 && shown != token@ && (e matches RpcError::Unauthenticated(
                    m,
                ) && m@ == "invalid or missing replication token"@),
            }
        }),
{
    let owned = token.to_owned();
    if is_blank(&owned) {
        return Ok(());
    }
    let shown = match presented {
        Some(p) => p.to_owned(),
        None => String::new(),
    };
    let ghost want = match presented {
        Some(p) => p@,
        None => Seq::empty(),
    };
    assert(shown@ =~= want);
    proof {
        crate::text::lemma_bytes_injective(shown@, token@);
    }
    if constant_time_eq(shown.as_str().as_bytes(), token.as_bytes()) {
        Ok(())
    } else {
        Err(RpcError::Unauthenticated("invalid or missing replication token".to_owned()))
    }
}

/// The token that a call presents; none where none is set.
pub fn call_token(token: &str) -> (t: Option<String>)
    ensures
        match t {
            Some(s) => token@.len() > 0 && s@ == token@,
            None => token@.len() == 0,
        },
{
    let owned = token.to_owned();
    if is_blank(&owned) {
        None
    } else {
        Some(owned)
    }
}

/// The error of a call that names a keyspace that is not served.
pub fn unknown_source(keyspace: &str) -> (e: RpcError)
    ensures
        e matches RpcError::NotFound(m) && m@ == "unknown keyspace '"@ + keyspace@ + "'"@,
{
    RpcError::NotFound(concat3("unknown keyspace '", keyspace, "'"))
}

/// The largest of the sequence numbers; 0 where there is none.
pub open spec fn max_of(v: Seq<u64>) -> u64
    decreases v.len(),
{
    if v.len() == 0 {
        0
    } else if v.last() > max_of(v.drop_last()) {
        v.last()
    } else {
        max_of(v.drop_last())
    }
}

/// How far a leader is, over all the keyspaces it serves.
pub fn current_sequence(sequences: &Vec<u64>) -> (m: u64)
    ensures
        m == max_of(sequences@),
{
    let mut m: u64 = 0;
    let mut i: usize = 0;
    while i < sequences.len()
        invariant
            i <= sequences.len(),
            m == max_of(sequences@.take(i as int)),
        decreases sequences.len() - i,
    {
        assert(sequences@.take(i + 1).drop_last() =~= sequences@.take(i as int));
        if sequences[i] > m {
            m = sequences[i];
        }
        i = i + 1;
    }
    assert(sequences@.take(i as int) =~= sequences@);
    m
}

/// A change as it arrives at the other side.
pub open spec fn on_the_wire(c: Change) -> Change {
    Change { timestamp: wire_time(c.timestamp) as u128, ..c }
}

/// The changes of a list by their contents.
pub open spec fn change_views(v: Seq<ChangeEvent>) -> Seq<Change> {
    v.map_values(|e: ChangeEvent| e@)
}

pub open spec fn received_views(v: Seq<ChangeEventProto>) -> Seq<Change> {
    v.map_values(|p: ChangeEventProto| received(p))
}

/// Messages for changes, in order.
pub fn encode_changes(events: &Vec<ChangeEvent>) -> (out: Vec<ChangeEventProto>)
    ensures
        received_views(out@) == change_views(events@).map_values(|c: Change| on_the_wire(c)),
{
    let mut out: Vec<ChangeEventProto> = Vec::new();
    let mut i: usize = 0;
    while i < events.len()
        invariant
            i <= events.len(),
            out@.len() == i,
            forall|j: int| 0 <= j < i ==> received(#[trigger] out@[j]) == on_the_wire(events@[j]@),
        decreases events.len() - i,
    {
        out.push(to_proto(&events[i]));
        i = i + 1;
    }
    assert(received_views(out@) =~= change_views(events@).map_values(
        |c: Change| on_the_wire(c),
    ));
    out
}

/// The changes of messages, in order.
pub fn decode_changes(messages: Vec<ChangeEventProto>) -> (out: Vec<ChangeEvent>)
    ensures
        change_views(out@) == received_views(messages@),
{
    let ghost all = messages@;
    let mut out: Vec<ChangeEvent> = Vec::new();
    for p in it: messages
        invariant
            it.seq() == all,
            out@.len() == it.index(),
            forall|j: int| 0 <= j < out@.len() ==> (#[trigger] out@[j])@ == received(all[j]),
    {
        out.push(crate::proto::from_proto(p));
    }
    assert(change_views(out@) =~= received_views(all));
    out
}

/// A follower that decodes what a leader encoded has the leader's changes, up
/// to the year at which milliseconds need more than 64 bits.
pub proof fn law_changes_arrive_unchanged(sent: Seq<Change>)
    requires
        forall|i: int| 0 <= i < sent.len() ==> (#[trigger] sent[i]).timestamp <= u64::MAX,
    ensures
        sent.map_values(|c: Change| on_the_wire(c)) == sent,
{
    assert(sent.map_values(|c: Change| on_the_wire(c)) =~= sent);
}

/// What a leader answers to a handshake.
#[derive(Debug)]
pub struct HandshakeReply {
    pub leader_node_id: String,
    pub role: &'static str,
    pub current_sequence: Sequence,
}

pub fn handshake(node_id: &str, sequences: &Vec<u64>) -> (h: HandshakeReply)
    ensures
        h.leader_node_id@ == node_id@,
        h.role@ == "leader"@,
        h.current_sequence == max_of(sequences@),
{
    HandshakeReply {
        leader_node_id: node_id.to_owned(),
        role: "leader",
        current_sequence: current_sequence(sequences),
    }
}

/// A snapshot: everything in one chunk.
#[derive(Debug)]
pub struct SnapshotChunk {
    pub entries: Vec<ChangeEventProto>,
    pub snapshot_sequence: Sequence,
    pub is_final: bool,
}

pub fn snapshot(events: &Vec<ChangeEvent>, sequence: Sequence) -> (s: SnapshotChunk)
    ensures
        received_views(s.entries@) == change_views(events@).map_values(
            |c: Change| on_the_wire(c),
        ),
        s.snapshot_sequence == sequence,
        s.is_final,
{
    SnapshotChunk { entries: encode_changes(events), snapshot_sequence: sequence, is_final: true }
}

/// A leader's stream of changes to one follower: up to where it has sent.
#[derive(Debug)]
pub struct ChangeFeed {
    last_sent: Sequence,
}

/// The last sequence number sent, after sending changes.
pub open spec fn sent_after(last: Sequence, changes: Seq<Change>) -> Sequence
    decreases changes.len(),
{
    if changes.len() == 0 {
        last
    } else if changes.last().sequence > sent_after(last, changes.drop_last()) {
        changes.last().sequence
    } else {
        sent_after(last, changes.drop_last())
    }
}

impl ChangeFeed {
    /// Where the next read of the log starts.
    pub closed spec fn last(&self) -> Sequence {
        self.last_sent
    }

    pub fn new(resume_sequence: Sequence) -> (f: Self)
        ensures
            f.last() == resume_sequence,
    {
        ChangeFeed { last_sent: resume_sequence }
    }

    /// The sequence number after which the log is read next.
    pub fn position(&self) -> (s: Sequence)
        ensures
            s == self.last(),
    {
        self.last_sent
    }

    /// The messages for what the log held after the position.
    pub fn take(&mut self, events: &Vec<ChangeEvent>) -> (out: Vec<ChangeEventProto>)
        ensures
            received_views(out@) == change_views(events@).map_values(|c: Change| on_the_wire(c)),
            final(self).last() == sent_after(old(self).last(), change_views(events@)),
    {
        let ghost all = change_views(events@);
        let start: u64 = self.last_sent;
        let mut last: u64 = start;
        let mut i: usize = 0;
        while i < events.len()
            invariant
                i <= events.len(),
                all == change_views(events@),
                last == sent_after(start, all.take(i as int)),
            decreases events.len() - i,
        {
            assert(all.take(i + 1).drop_last() =~= all.take(i as int));
            assert(all[i as int] == events@[i as int]@);
            if events[i].sequence > last {
                last = events[i].sequence;
            }
            i = i + 1;
        }
        assert(all.take(i as int) =~= all);
        self.last_sent = last;
        encode_changes(events)
    }
}

/// What ends a leader's wait for new changes.
#[derive(Clone, Copy, Debug, PartialEq, Eq, Structural)]
pub enum Wake {
    Change,
    Lagged,
    /// Nothing came within the safety interval.
    Timeout,
    /// The keyspace is gone.
    Closed,
}

/// Whether the leader looks at its log again: whatever woke it is only a
/// hint, so always but at the end.
pub fn keeps_feeding(w: Wake) -> (r: bool)
    ensures
        r == (w != Wake::Closed),
{
    match w {
        Wake::Closed => false,
        _ => true,
    }
}

/// The changes of a log after a sequence number.
pub open spec fn changes_after(log: Seq<Change>, s: Sequence) -> Seq<Change>
    decreases log.len(),
{
    if log.len() == 0 {
        Seq::empty()
    } else if log.last().sequence > s {
        changes_after(log.drop_last(), s).push(log.last())
    } else {
        changes_after(log.drop_last(), s)
    }
}

proof fn lemma_sent_bounds(last: Sequence, changes: Seq<Change>)
    ensures
        last <= sent_after(last, changes),
        forall|i: int|
            0 <= i < changes.len() ==> (#[trigger] changes[i]).sequence <= sent_after(
                last,
                changes,
            ),
    decreases changes.len(),
{
    if changes.len() > 0 {
        let front = changes.drop_last();
        lemma_sent_bounds(last, front);
        assert forall|i: int| 0 <= i < changes.len() implies (#[trigger] changes[i]).sequence
            <= sent_after(last, changes) by {
            if i < front.len() {
                assert(changes[i] == front[i]);
            }
        }
    }
}

proof fn lemma_changes_after_members(log: Seq<Change>, s: Sequence, i: int)
    requires
        0 <= i < log.len(),
        log[i].sequence > s,
    ensures
        changes_after(log, s).contains(log[i]),
    decreases log.len(),
{
    let all = changes_after(log, s);
    if i == log.len() - 1 {
        assert(all[all.len() - 1] == log[i]);
    } else {
        let front = log.drop_last();
        assert(front[i] == log[i]);
        lemma_changes_after_members(front, s, i);
        let k = changes_after(front, s).index_of(log[i]);
        assert(all[k] == log[i]);
    }
}

/// A change that was sent is behind the feed's position: once a follower has
/// what a log holds, reading that log again sends nothing twice.
pub proof fn law_nothing_is_sent_twice(log: Seq<Change>, last: Sequence)
    ensures
        changes_after(log, sent_after(last, changes_after(log, last))).len() == 0,
    decreases log.len(),
{
    let new = changes_after(log, last);
    let pos = sent_after(last, new);
    lemma_sent_bounds(last, new);
    assert forall|i: int| 0 <= i < log.len() implies (#[trigger] log[i]).sequence <= pos by {
        if log[i].sequence > last {
            lemma_changes_after_members(log, last, i);
            let k = new.index_of(log[i]);
            assert(new[k].sequence <= pos);
        }
    }
    lemma_none_after(log, pos);
}

proof fn lemma_none_after(log: Seq<Change>, s: Sequence)
    requires
        forall|i: int| 0 <= i < log.len() ==> (#[trigger] log[i]).sequence <= s,
    ensures
        changes_after(log, s).len() == 0,
    decreases log.len(),
{
    if log.len() > 0 {
        let front = log.drop_last();
        assert forall|i: int| 0 <= i < front.len() implies (#[trigger] front[i]).sequence <= s by {
            assert(front[i] == log[i]);
        }
        lemma_none_after(front, s);
        assert(log[log.len() - 1].sequence <= s);
    }
}

/// Every change of a log after the feed's position is sent by the next look at
/// the log, whether a wake for it came or not.
pub proof fn law_nothing_is_missed(log: Seq<Change>, last: Sequence, i: int)
    requires
        0 <= i < log.len(),
        log[i].sequence > last,
    ensures
        changes_after(log, last).contains(log[i]),
{
    lemma_changes_after_members(log, last, i);
}

/// A write that another region forwarded.
#[derive(Debug)]
pub struct ForwardedWrite {
    pub key: Vec<u8>,
    /// The value to put; `None` deletes.
    pub value: Option<Vec<u8>>,
    /// Seconds to live; 0 leaves it to the keyspace.
    pub ttl_secs: u64,
}

/// A forwarded write that is to be committed here. `accepts` says whether the
/// keyspace is served (`None` where it is not) and commits forwarded writes.
pub fn forward_write(
    keyspace: &str,
    accepts: Option<bool>,
    key: Vec<u8>,
    value: Option<ProtoValue>,
    ttl_secs: u64,
) -> (r: Result<ForwardedWrite, RpcError>)
    ensures
        match accepts {
            None => r matches Err(RpcError::NotFound(m)) && m@ == "unknown keyspace '"@ + keyspace@
                + "'"@,
            Some(false) => r matches Err(RpcError::FailedPrecondition(m)) && m@ == "keyspace '"@
                + keyspace@ + "' is not a primary-queue primary here"@,
            Some(true) => r matches Ok(w) && w.key@ == key@ && w.ttl_secs == ttl_secs && (
            match w.value {
                Some(v) => crate::proto::proto_value(value) == Some(v@),
                None => crate::proto::proto_value(value) is None,
            }) && (w.value is Some <==> (value matches Some(p) && p is PutValue)) && (
            value matches Some(ProtoValue::PutValue(b)) ==> w.value == Some(b)),
        },
{
    match accepts {
        None => Err(unknown_source(keyspace)),
        Some(false) => Err(
            RpcError::FailedPrecondition(
                concat3("keyspace '", keyspace, "' is not a primary-queue primary here"),
            ),
        ),
        Some(true) => {
            let value = match value {
                Some(ProtoValue::PutValue(v)) => Some(v),
                _ => None,
            };
            Ok(ForwardedWrite { key, value, ttl_secs })
        },
    }
}

impl ForwardedWrite {
    /// The time to live that the write is committed with.
    pub fn ttl(&self) -> (t: Option<u64>)
        ensures
            t == if self.ttl_secs == 0 {
                None
            } else {
                Some(self.ttl_secs)
            },
    {
        if self.ttl_secs == 0 {
            None
        } else {
            Some(self.ttl_secs)
        }
    }
}

/// The answer to a forwarded write, given how its commit went.
pub fn forward_reply(outcome: Result<u64, String>) -> (r: Result<u64, RpcError>)
    ensures
        match outcome {
            Ok(s) => r == Ok::<u64, RpcError>(s),
            Err(e) => r matches Err(RpcError::Internal(m)) && m@ == "forwarded write failed: "@
                + e@,
        },
{
    match outcome {
        Ok(s) => Ok(s),
        Err(e) => Err(
            RpcError::Internal("forwarded write failed: ".to_owned().concat(e.as_str())),
        ),
    }
}

/// The switch of a keyspace alone decides whether it is replicated, whatever
/// its tier, and its write mode who writes to it; the order is that of the
/// configuration.
pub proof fn law_replication_is_by_its_switch(ks: Seq<KeyspaceConfig>, m: WriteMode)
    ensures
        replicated_names(ks) == ks.filter(|k: KeyspaceConfig| k.replication).map_values(
            |k: KeyspaceConfig| k.name@,
        ),
        names_with_mode(ks, m) == ks.filter(
            |k: KeyspaceConfig| k.replication && k.write_mode == m,
        ).map_values(|k: KeyspaceConfig| k.name@),
    decreases ks.len(),
{
    reveal(Seq::filter);
    let on = |k: KeyspaceConfig| k.replication;
    let mode = |k: KeyspaceConfig| k.replication && k.write_mode == m;
    let name = |k: KeyspaceConfig| k.name@;
    if ks.len() > 0 {
        let front = ks.drop_last();
        law_replication_is_by_its_switch(front, m);
        assert(front.filter(on).push(ks.last()).map_values(name) =~= front.filter(on).map_values(
            name,
        ).push(ks.last().name@));
        assert(front.filter(mode).push(ks.last()).map_values(name) =~= front.filter(
            mode,
        ).map_values(name).push(ks.last().name@));
        assert(replicated_names(ks) =~= ks.filter(on).map_values(name));
        assert(names_with_mode(ks, m) =~= ks.filter(mode).map_values(name));
    } else {
        assert(replicated_names(ks) =~= ks.filter(on).map_values(name));
        assert(names_with_mode(ks, m) =~= ks.filter(mode).map_values(name));
    }
}

/// Every keyspace with replication on is among the replicated ones, and every
/// name there is of one.
pub proof fn law_replicated_keyspaces_are_listed(ks: Seq<KeyspaceConfig>)
    ensures
        forall|i: int|
            0 <= i < ks.len() && (#[trigger] ks[i]).replication ==> replicated_names(ks).contains(
                ks[i].name@,
            ),
        forall|n: Seq<char>| #[trigger]
            replicated_names(ks).contains(n) ==> exists|i: int|
                0 <= i < ks.len() && (#[trigger] ks[i]).replication && ks[i].name@ == n,
        replicated_names(ks).len() == 0 <==> (forall|i: int|
            0 <= i < ks.len() ==> !(#[trigger] ks[i]).replication),
    decreases ks.len(),
{
    let all = replicated_names(ks);
    if ks.len() > 0 {
        let front = ks.drop_last();
        let rest = replicated_names(front);
        law_replicated_keyspaces_are_listed(front);
        assert forall|i: int| 0 <= i < ks.len() && (#[trigger] ks[i]).replication implies all.contains(
            ks[i].name@,
        ) by {
            if i < front.len() {
                assert(front[i] == ks[i]);
                let j = rest.index_of(ks[i].name@);
                assert(all[j] == ks[i].name@);
            } else {
                assert(all[all.len() - 1] == ks[i].name@);
            }
        }
        assert forall|n: Seq<char>| #[trigger] all.contains(n) implies exists|i: int|
            0 <= i < ks.len() && (#[trigger] ks[i]).replication && ks[i].name@ == n by {
            let j = all.index_of(n);
            if j < rest.len() {
                assert(rest[j] == n);
                assert(rest.contains(n));
                let i = choose|i: int|
                    0 <= i < front.len() && (#[trigger] front[i]).replication && front[i].name@ == n;
                assert(ks[i] == front[i]);
            } else {
                assert(ks[ks.len() - 1].name@ == n);
            }
        }
        if all.len() == 0 {
            assert forall|i: int| 0 <= i < ks.len() implies !(#[trigger] ks[i]).replication by {
                let on = ks[i].replication;
                if on {
                    assert(all.contains(ks[i].name@));
                }
            }
        } else {
            assert(all.contains(all[0]));
        }
    }
}

/// A source stands for the keyspace it names, and commits forwarded writes
/// exactly where a keyspace of that name has a primary.
pub proof fn law_sources_are_the_keyspaces(c: Config, sources: Seq<SourcePlan>, i: int)
    requires
        are_sources(c, replicated_names(c.keyspaces@), sources),
        0 <= i < sources.len(),
    ensures
        sources.len() == replicated_names(c.keyspaces@).len(),
        sources[i].keyspace@ == replicated_names(c.keyspaces@)[i],
        sources[i].accepts_forwarded <==> exists|j: int|
            0 <= j < c.keyspaces@.len() && (#[trigger] c.keyspaces@[j]).name@
                == sources[i].keyspace@ && c.keyspaces@[j].write_mode == WriteMode::PrimaryQueue,
{
}

/// Where several regions write, every such keyspace is followed on every peer,
/// and nothing else is.
pub proof fn law_every_peer_is_followed(names: Seq<Seq<char>>, peers: Seq<Seq<char>>)
    ensures
        forall|i: int, j: int|
            0 <= i < names.len() && 0 <= j < peers.len() ==> all_follows(names, peers).contains(
                (#[trigger] names[i], #[trigger] peers[j]),
            ),
        forall|n: Seq<char>, p: Seq<char>| #[trigger]
            all_follows(names, peers).contains((n, p)) ==> names.contains(n) && peers.contains(p),
        all_follows(names, peers).len() == names.len() * peers.len(),
{
    let all = all_follows(names, peers);
    let m = peers.len() as int;
    assert forall|i: int, j: int| 0 <= i < names.len() && 0 <= j < peers.len() implies all.contains(
        (#[trigger] names[i], #[trigger] peers[j]),
    ) by {
        lemma_follow_index(m, i, j);
        assert(0 <= i * m + j < names.len() * m) by (nonlinear_arith)
            requires
                0 <= i < names.len(),
                0 <= j < m,
        ;
        assert(all[i * m + j] == (names[i], peers[j]));
    }
    assert forall|n: Seq<char>, p: Seq<char>| #[trigger] all.contains((n, p)) implies names.contains(
        n,
    ) && peers.contains(p) by {
        let k = all.index_of((n, p));
        assert(m > 0) by (nonlinear_arith)
            requires
                0 <= k < names.len() * m,
                m >= 0,
        ;
        vstd::arithmetic::div_mod::lemma_fundamental_div_mod(k, m);
        vstd::arithmetic::div_mod::lemma_mod_bound(k, m);
        assert(0 <= k / m < names.len()) by (nonlinear_arith)
            requires
                0 <= k < names.len() * m,
                m > 0,
                k == m * (k / m) + k % m,
                0 <= k % m < m,
        ;
        assert(names[k / m] == n && peers[k % m] == p);
    }
}

/// A follower takes a snapshot exactly where it has nothing yet or is more
/// than ten thousand changes behind.
pub proof fn law_snapshot_when_far_behind(current: Sequence, resume: Sequence)
    ensures
        wants_snapshot(current, resume) <==> resume == 0 || current > resume + 10000,
{
}

/// The waits after failures, in milliseconds.
pub proof fn law_backoff_steps(attempt: nat)
    ensures
        attempt < 4 ==> backoff_ms(attempt) == seq![200u64, 500, 1000, 3000][attempt as int],
        attempt >= 4 ==> backoff_ms(attempt) == 5000,
{
}

/// A leader is as far as the furthest of its keyspaces.
pub proof fn law_leader_is_as_far_as_its_furthest(v: Seq<u64>)
    ensures
        forall|i: int| 0 <= i < v.len() ==> #[trigger] v[i] <= max_of(v),
        v.len() > 0 ==> v.contains(max_of(v)),
        v.len() == 0 ==> max_of(v) == 0,
    decreases v.len(),
{
    if v.len() > 0 {
        let front = v.drop_last();
        law_leader_is_as_far_as_its_furthest(front);
        assert forall|i: int| 0 <= i < v.len() implies #[trigger] v[i] <= max_of(v) by {
            if i < front.len() {
                assert(front[i] == v[i]);
            }
        }
        if v.last() > max_of(front) || front.len() == 0 {
            assert(v[v.len() - 1] == max_of(v));
        } else {
            let k = front.index_of(max_of(front));
            assert(v[k] == max_of(v));
        }
    }
}

/// A feed stands at the furthest of where it stood and what it sent.
pub proof fn law_feed_stands_at_the_furthest(last: Sequence, changes: Seq<Change>)
    ensures
        last <= sent_after(last, changes),
        forall|i: int|
            0 <= i < changes.len() ==> (#[trigger] changes[i]).sequence <= sent_after(
                last,
                changes,
            ),
        sent_after(last, changes) == last || exists|i: int|
            0 <= i < changes.len() && (#[trigger] changes[i]).sequence == sent_after(last, changes),
    decreases changes.len(),
{
    lemma_sent_bounds(last, changes);
    if changes.len() > 0 {
        let front = changes.drop_last();
        law_feed_stands_at_the_furthest(last, front);
        if changes.last().sequence > sent_after(last, front) {
            assert(changes[changes.len() - 1].sequence == sent_after(last, changes));
        } else if sent_after(last, front) != last {
            let i = choose|i: int|
                0 <= i < front.len() && (#[trigger] front[i]).sequence == sent_after(last, front);
            assert(changes[i] == front[i]);
        }
    }
}

/// What a log holds after a sequence number is exactly its changes with a
/// larger one, in order.
pub proof fn law_changes_after_are_the_later_ones(log: Seq<Change>, s: Sequence)
    ensures
        changes_after(log, s) == log.filter(|c: Change| c.sequence > s),
    decreases log.len(),
{
    reveal(Seq::filter);
    if log.len() > 0 {
        law_changes_after_are_the_later_ones(log.drop_last(), s);
    }
}

/// A change arrives with everything it had; of its time the low 64 bits.
pub proof fn law_change_arrives_whole(c: Change)
    ensures
        ({
            let a = on_the_wire(c);
            &&& a.keyspace == c.keyspace
            &&& a.key == c.key
            &&& a.value == c.value
            &&& a.sequence == c.sequence
            &&& a.origin_region == c.origin_region
            &&& a.hlc == c.hlc
            &&& a.timestamp == c.timestamp as nat % 18446744073709551616
        }),
{
}

/// Changes, messages and peers stand for what they hold, one by one.
pub proof fn law_lists_are_what_they_hold(
    changes: Seq<ChangeEvent>,
    messages: Seq<ChangeEventProto>,
    follows: Seq<PeerFollow>,
    c: Config,
)
    ensures
        change_views(changes).len() == changes.len(),
        forall|i: int|
            0 <= i < changes.len() ==> #[trigger] change_views(changes)[i] == changes[i]@,
        received_views(messages).len() == messages.len(),
        forall|i: int|
            0 <= i < messages.len() ==> #[trigger] received_views(messages)[i] == received(
                messages[i],
            ),
        follow_views(follows).len() == follows.len(),
        forall|i: int|
            0 <= i < follows.len() ==> #[trigger] follow_views(follows)[i] == (
                follows[i].keyspace@,
                follows[i].peer_addr@,
            ),
        peer_addrs(c).len() == c.replication.peers@.len(),
        forall|i: int|
            0 <= i < c.replication.peers@.len() ==> #[trigger] peer_addrs(c)[i]
                == c.replication.peers@[i].addr@,
{
}

/// A tier has a log to serve followers from where it keeps its changes in
/// order.
pub proof fn law_tiers_with_logs(t: TierName)
    ensures
        tier_has_log(t) <==> t != TierName::Hot && t != TierName::Sharded,
        SNAPSHOT_CATCHUP_THRESHOLD == 10000,
        SAFETY_POLL_MS == 25,
{
}

} // verus!
