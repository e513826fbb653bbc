//! A keyspace: what a write, a read, an expiry and a replicated change do
//! around the storage engine that holds the data.
//!
//! The engine is driven by the caller. A keyspace says which path a write
//! takes, keeps track of expiry, and turns a committed write into the change
//! event that subscribers and other regions see. Expiries are deletions like
//! any other, so that both see them too.

use crate::bus::EventBus;
use crate::config::TierName;
use crate::event::{now_millis, Change, ChangeEvent, ChangeValue, Sequence, Timestamp};
use crate::expiry::{has_expired, key_views, ExpiryTable};
use crate::hlc::{ClockState, Hlc, HlcClock, Stamp};
use vstd::prelude::*;
use vstd::slice::slice_to_vec;

verus! {

/// The path of a write.
#[derive(Debug)]
pub enum WritePlan {
    /// To the primary, which commits it; it comes back as a replicated
    /// change, so nothing is written here.
    Forward,
    /// To the engine.
    Engine,
    /// To the engine's last-write-wins path, under this stamp.
    Lww(Hlc),
}

/// The path of a replicated change.
#[derive(Clone, Copy, Debug, PartialEq, Eq, Structural)]
pub enum ApplyPlan {
    Engine,
    Lww,
}

/// What a read does.
#[derive(Clone, Copy, Debug, PartialEq, Eq, Structural)]
pub enum ReadPlan {
    /// The key has expired: delete it and report that it is not there.
    Expire,
    /// Ask the engine.
    Read,
}

/// One keyspace.
pub struct Keyspace {
    name: String,
    region: String,
    tier: TierName,
    events: Option<EventBus>,
    expiry: ExpiryTable,
    default_ttl_ms: u128,
    multi_leader: Option<HlcClock>,
    forwards: bool,
}

/// A keyspace by its contents.
pub ghost struct KeyspaceState {
    pub name: Seq<char>,
    pub region: Seq<char>,
    pub tier: TierName,
    /// Whether changes are published.
    pub publishes: bool,
    /// The changes that were published, in order.
    pub published: Seq<Change>,
    /// How many changes a slow subscriber can lag behind, where changes are
    /// published.
    pub capacity: Option<usize>,
    /// When keys expire.
    pub expiry: Map<Seq<u8>, u128>,
    pub default_ttl_ms: u128,
    /// The clock of a keyspace that several regions write to.
    pub clock: Option<ClockState>,
    /// Whether writes go to the primary.
    pub forwards: bool,
}

impl KeyspaceState {
    /// Milliseconds until a write with the given time to live expires; 0 is
    /// never. A write that names no time takes the keyspace's.
    pub open spec fn ttl_ms(self, ttl_secs: Option<u64>) -> int {
        match ttl_secs {
            Some(s) => s * 1000,
            None => self.default_ttl_ms as int,
        }
    }

    /// When keys expire after a committed write at `at`.
    pub open spec fn expiry_after_put(self, key: Seq<u8>, ttl_secs: Option<u64>, at: u128) -> Map<
        Seq<u8>,
        u128,
    > {
        if self.ttl_ms(ttl_secs) > 0 {
            self.expiry.insert(key, (at + self.ttl_ms(ttl_secs)) as u128)
        } else {
            self.expiry.remove(key)
        }
    }

    /// The published changes after another one, where changes are published.
    pub open spec fn published_after(self, c: Change) -> Seq<Change> {
        if self.publishes {
            self.published.push(c)
        } else {
            self.published
        }
    }

    /// The change that a committed write makes.
    pub open spec fn change(
        self,
        key: Seq<u8>,
        value: Option<Seq<u8>>,
        sequence: Sequence,
        hlc: Stamp,
        at: u128,
    ) -> Change {
        Change {
            keyspace: self.name,
            key,
            value,
            sequence,
            timestamp: at,
            origin_region: self.region,
            hlc,
        }
    }
}

/// The events published on a bus, where there is one.
pub open spec fn events_of(bus: Option<EventBus>) -> Seq<Change> {
    match bus {
        Some(b) => b@,
        None => Seq::empty(),
    }
}

/// The capacity of a bus, where there is one.
pub open spec fn capacity_of(bus: Option<EventBus>) -> Option<usize> {
    match bus {
        Some(b) => Some(b.capacity()),
        None => None,
    }
}

impl View for Keyspace {
    type V = KeyspaceState;

    closed spec fn view(&self) -> KeyspaceState {
        KeyspaceState {
            name: self.name@,
            region: self.region@,
            tier: self.tier,
            publishes: self.events is Some,
            published: events_of(self.events),
            capacity: capacity_of(self.events),
            expiry: self.expiry@,
            default_ttl_ms: self.default_ttl_ms,
            clock: match self.multi_leader {
                Some(c) => Some(c@),
                None => None,
            },
            forwards: self.forwards,
        }
    }
}

impl Keyspace {
    pub fn new(
        name: String,
        region: String,
        tier: TierName,
        events: Option<EventBus>,
        default_ttl_secs: u64,
    ) -> (k: Self)
        ensures
            k@ == (KeyspaceState {
                name: name@,
                region: region@,
                tier,
                publishes: events is Some,
                published: events_of(events),
                capacity: capacity_of(events),
                expiry: Map::empty(),
                default_ttl_ms: (default_ttl_secs * 1000) as u128,
                clock: None,
                forwards: false,
            }),
    {
        Keyspace {
            name,
            region,
            tier,
            events,
            expiry: ExpiryTable::new(),
            default_ttl_ms: default_ttl_secs as u128 * 1000,
            multi_leader: None,
            forwards: false,
        }
    }

    /// From now on writes go to the primary.
    pub fn set_forwarder(&mut self)
        ensures
            final(self)@ == (KeyspaceState { forwards: true, ..old(self)@ }),
    {
        self.forwards = true;
    }

    /// Lets several regions write: local writes are stamped, and the latest
    /// stamp wins. Only the warm tier can.
    pub fn with_multi_leader(self, region: String) -> (k: Self)
        ensures
            k@ == if self@.tier == TierName::Warm {
                KeyspaceState {
                    clock: Some(ClockState { wall: 0, logical: 0, region: region@ }),
                    ..self@
                }
            } else {
                self@
            },
    {
        let mut k = self;
        if k.tier == TierName::Warm {
            k.multi_leader = Some(HlcClock::new(region));
        }
        k
    }

    pub fn is_multi_leader(&self) -> (r: bool)
        ensures
            r == (self@.clock is Some),
    {
        self.multi_leader.is_some()
    }

    pub fn name(&self) -> (s: &str)
        ensures
            s@ == self@.name,
    {
        self.name.as_str()
    }

    pub fn tier(&self) -> (t: TierName)
        ensures
            t == self@.tier,
    {
        self.tier
    }

    pub fn events(&self) -> (b: Option<&EventBus>)
        ensures
            b is Some <==> self@.publishes,
            b matches Some(bus) ==> bus@ == self@.published && self@.capacity == Some(
                bus.capacity(),
            ),
    {
        self.events.as_ref()
    }

    /// What a read at `now` does.
    pub fn get(&self, key: &[u8], now: u128) -> (p: ReadPlan)
        ensures
            p == if has_expired(self@.expiry, key@, now) {
                ReadPlan::Expire
            } else {
                ReadPlan::Read
            },
    {
        if self.expiry.is_expired(key, now) {
            ReadPlan::Expire
        } else {
            ReadPlan::Read
        }
    }

    /// The path of a write at physical time `phys`. A stamped write moves the
    /// clock.
    pub fn plan_write(&mut self, phys: u64) -> (p: WritePlan)
        requires
            !old(self)@.forwards ==> (old(self)@.clock matches Some(c) ==> c.can_tick(phys)),
        ensures
            if old(self)@.forwards {
                p is Forward && final(self)@ == old(self)@
            } else {
                match old(self)@.clock {
                    None => p is Engine && final(self)@ == old(self)@,
                    Some(c) => {
                        &&& final(self)@ == (KeyspaceState {
                            clock: Some(c.ticked(phys)),
                            ..old(self)@
                        })
                        &&& p matches WritePlan::Lww(h) && h@ == c.ticked(phys).stamp()
                    },
                }
            },
    {
        if self.forwards {
            return WritePlan::Forward;
        }
        match &mut self.multi_leader {
            Some(clock) => WritePlan::Lww(clock.tick(phys)),
            None => WritePlan::Engine,
        }
    }

    /// The path of a write now. `None`, with nothing changed, where a stamp
    /// is needed and the clock cannot make one.
    pub fn begin_write(&mut self) -> (p: Option<WritePlan>)
        ensures
            if old(self)@.forwards {
                p == Some(WritePlan::Forward) && final(self)@ == old(self)@
            } else {
                match old(self)@.clock {
                    None => p == Some(WritePlan::Engine) && final(self)@ == old(self)@,
                    Some(c) => match p {
                        None => final(self)@ == old(self)@,
                        Some(WritePlan::Lww(h)) => exists|phys: u64|
                            c.can_tick(phys) && h@ == (#[trigger] c.ticked(phys)).stamp()
                                && final(self)@ == (KeyspaceState {
                                clock: Some(c.ticked(phys)),
                                ..old(self)@
                            }),
                        Some(_) => false,
                    },
                }
            },
    {
        if self.forwards {
            return Some(WritePlan::Forward);
        }
        let ghost before = self@;
        let stamp = match &mut self.multi_leader {
            Some(clock) => clock.now(),
            None => {
                return Some(WritePlan::Engine);
            },
        };
        match stamp {
            Some(h) => {
                proof {
                    let c = before.clock->0;
                    let phys = choose|phys: u64|
                        c.can_tick(phys) && self@.clock == Some(#[trigger] c.ticked(phys));
                    assert(self@ == (KeyspaceState { clock: Some(c.ticked(phys)), ..before }));
                }
                Some(WritePlan::Lww(h))
            },
            None => {
                assert(self@ == before);
                None
            },
        }
    }

    /// What a put ends in, given how the engine's write went: the key's
    /// expiry is set at `written_at`, and the change, made at `published_at`,
    /// is published. Returns the put's result and the published change.
    pub fn finish_put<E>(
        &mut self,
        key: &[u8],
        value: &[u8],
        ttl_secs: Option<u64>,
        outcome: Result<Sequence, E>,
        hlc: Hlc,
        written_at: u128,
        published_at: u128,
    ) -> (r: (Result<Sequence, E>, Option<ChangeEvent>))
        requires
            written_at + old(self)@.ttl_ms(ttl_secs) <= u128::MAX,
        ensures
            r.0 == outcome,
            match outcome {
                Ok(sequence) => {
                    let c = old(self)@.change(key@, Some(value@), sequence, hlc@, published_at);
                    &&& final(self)@ == (KeyspaceState {
                        expiry: old(self)@.expiry_after_put(key@, ttl_secs, written_at),
                        published: old(self)@.published_after(c),
                        ..old(self)@
                    })
                    &&& r.1 is Some <==> old(self)@.publishes
                    &&& r.1 matches Some(e) ==> e@ == c
                },
                Err(_) => final(self)@ == old(self)@ && r.1 is None,
            },
            outcome matches Ok(sequence) ==> final(self)@.published == if old(self)@.publishes {
                old(self)@.published.push(
                    Change {
                        keyspace: old(self)@.name,
                        key: key@,
                        value: Some(value@),
                        sequence,
                        timestamp: published_at,
                        origin_region: old(self)@.region,
                        hlc: hlc@,
                    },
                )
            } else {
                old(self)@.published
            },
            outcome is Ok ==> (ttl_secs matches Some(s) ==> final(self)@.expiry == if s > 0 {
                old(self)@.expiry.insert(key@, (written_at + s * 1000) as u128)
            } else {
                old(self)@.expiry.remove(key@)
            }),
    {
        match outcome {
            Ok(sequence) => {
                let ttl_ms: u128 = match ttl_secs {
                    Some(s) => s as u128 * 1000,
                    None => self.default_ttl_ms,
                };
                if ttl_ms > 0 {
                    self.expiry.set(key, written_at + ttl_ms);
                } else {
                    self.expiry.clear(key);
                }
                let event = self.publish(
                    key,
                    ChangeValue::Put(slice_to_vec(value)),
                    sequence,
                    hlc,
                    published_at,
                );
                (Ok(sequence), event)
            },
            Err(e) => (Err(e), None),
        }
    }

    /// What a deletion ends in, given how the engine's went: the key no
    /// longer expires, and the change is published.
    pub fn finish_delete<E>(
        &mut self,
        key: &[u8],
        outcome: Result<Sequence, E>,
        hlc: Hlc,
        published_at: u128,
    ) -> (r: (Result<Sequence, E>, Option<ChangeEvent>))
        ensures
            r.0 == outcome,
            match outcome {
                Ok(sequence) => {
                    let c = old(self)@.change(key@, None, sequence, hlc@, published_at);
                    &&& final(self)@ == (KeyspaceState {
                        expiry: old(self)@.expiry.remove(key@),
                        published: old(self)@.published_after(c),
                        ..old(self)@
                    })
                    &&& r.1 is Some <==> old(self)@.publishes
                    &&& r.1 matches Some(e) ==> e@ == c
                },
                Err(_) => final(self)@ == old(self)@ && r.1 is None,
            },
            outcome matches Ok(sequence) ==> final(self)@.published == if old(self)@.publishes {
                old(self)@.published.push(
                    Change {
                        keyspace: old(self)@.name,
                        key: key@,
                        value: None,
                        sequence,
                        timestamp: published_at,
                        origin_region: old(self)@.region,
                        hlc: hlc@,
                    },
                )
            } else {
                old(self)@.published
            },
    {
        match outcome {
            Ok(sequence) => {
                self.expiry.clear(key);
                let event = self.publish(key, ChangeValue::Delete, sequence, hlc, published_at);
                (Ok(sequence), event)
            },
            Err(e) => (Err(e), None),
        }
    }

    /// Publishes a change, where anybody may want it, and returns it.
    fn publish(
        &mut self,
        key: &[u8],
        value: ChangeValue,
        sequence: Sequence,
        hlc: Hlc,
        timestamp: u128,
    ) -> (r: Option<ChangeEvent>)
        ensures
            ({
                let c = old(self)@.change(key@, value@, sequence, hlc@, timestamp);
                &&& final(self)@ == (KeyspaceState {
                    published: old(self)@.published_after(c),
                    ..old(self)@
                })
                &&& r is Some <==> old(self)@.publishes
                &&& r matches Some(e) ==> e@ == c
            }),
    {
        match &mut self.events {
            Some(bus) => {
                let event = ChangeEvent {
                    keyspace: self.name.clone(),
                    key: slice_to_vec(key),
                    value,
                    sequence,
                    timestamp,
                    origin_region: self.region.clone(),
                    hlc,
                };
                bus.publish(event.clone());
                Some(event)
            },
            None => None,
        }
    }

    /// The keys that have expired at `now`, each once. They are deleted one by
    /// one, each only where `still_expired` holds when its turn comes.
    pub fn reap_expired(&self, now: u128) -> (out: Vec<Vec<u8>>)
        ensures
            key_views(out@).no_duplicates(),
            forall|k: Seq<u8>| #[trigger]
                key_views(out@).contains(k) <==> has_expired(self@.expiry, k, now),
    {
        self.expiry.expired(now)
    }

    /// Whether a key has expired at `now`.
    pub fn still_expired(&self, key: &[u8], now: u128) -> (r: bool)
        ensures
            r == has_expired(self@.expiry, key@, now),
    {
        self.expiry.is_expired(key, now)
    }

    /// How many keys have a time to expire.
    pub fn tracked_ttl_keys(&self) -> (n: usize)
        ensures
            n == self@.expiry.len(),
    {
        self.expiry.len()
    }

    /// The path of a replicated change at the time that the machine's clock
    /// shows (`None` where it stands before the Unix epoch). A stamped keyspace
    /// moves its clock past the change; where it cannot, there is no path and
    /// nothing is changed.
    pub fn plan_apply(&mut self, event: &ChangeEvent, ms: Option<Timestamp>) -> (p: Option<
        ApplyPlan,
    >)
        ensures
            match old(self)@.clock {
                None => p == Some(ApplyPlan::Engine) && final(self)@ == old(self)@,
                Some(c) => match c.merged_at(event@.hlc, ms) {
                    Some(d) => p == Some(ApplyPlan::Lww) && final(self)@ == (KeyspaceState {
                        clock: Some(d),
                        ..old(self)@
                    }),
                    None => p is None && final(self)@ == old(self)@,
                },
            },
    {
        match &mut self.multi_leader {
            Some(clock) => match clock.observe_at(&event.hlc, ms) {
                Some(_) => Some(ApplyPlan::Lww),
                None => None,
            },
            None => Some(ApplyPlan::Engine),
        }
    }

    /// The path of a replicated change now: `plan_apply` of the current time.
    /// A stamped keyspace moves its clock past the change; `None`, with
    /// nothing changed, where the clock cannot.
    pub fn apply_replicated(&mut self, event: &ChangeEvent) -> (p: Option<ApplyPlan>)
        ensures
            match old(self)@.clock {
                None => p == Some(ApplyPlan::Engine) && final(self)@ == old(self)@,
                Some(c) => match p {
                    None => final(self)@ == old(self)@,
                    Some(plan) => plan == ApplyPlan::Lww && exists|phys: u64|
                        c.can_merge(event@.hlc, phys) && final(self)@ == (KeyspaceState {
                            clock: Some(#[trigger] c.merged(event@.hlc, phys)),
                            ..old(self)@
                        }),
                },
            },
    {
        self.plan_apply(event, now_millis())
    }

    /// Publishes a replicated change after the engine took it: always with a
    /// single leader, and only where it won with several, so that a change
    /// that lost or came twice goes no further. Returns the published change.
    pub fn finish_apply(&mut self, event: &ChangeEvent, won: bool) -> (r: Option<ChangeEvent>)
        ensures
            final(self)@ == if old(self)@.clock is None || won {
                KeyspaceState { published: old(self)@.published_after(event@), ..old(self)@ }
            } else {
                old(self)@
            },
            r is Some <==> old(self)@.publishes && (old(self)@.clock is None || won),
            r matches Some(e) ==> e@ == event@,
            final(self)@.published == if old(self)@.publishes && (old(self)@.clock is None || won) {
                old(self)@.published.push(event@)
            } else {
                old(self)@.published
            },
    {
        if self.multi_leader.is_some() && !won {
            return None;
        }
        match &mut self.events {
            Some(bus) => {
                let copy = event.clone();
                bus.publish(event.clone());
                Some(copy)
            },
            None => None,
        }
    }
}

/// A key written with a time to live is there until that time has passed and
/// is gone from then on, until it is written again.
pub proof fn law_key_expires_in_time(
    k: KeyspaceState,
    key: Seq<u8>,
    ttl_secs: Option<u64>,
    at: u128,
    now: u128,
)
    requires
        at + k.ttl_ms(ttl_secs) <= u128::MAX,
    ensures
        has_expired(k.expiry_after_put(key, ttl_secs, at), key, now) <==> k.ttl_ms(ttl_secs) > 0
            && now >= at + k.ttl_ms(ttl_secs),
{
}

/// A write leaves the expiry of other keys alone, and so does a deletion.
pub proof fn law_other_keys_keep_their_time(
    k: KeyspaceState,
    key: Seq<u8>,
    other: Seq<u8>,
    ttl_secs: Option<u64>,
    at: u128,
    now: u128,
)
    requires
        other != key,
    ensures
        has_expired(k.expiry_after_put(key, ttl_secs, at), other, now) == has_expired(
            k.expiry,
            other,
            now,
        ),
        has_expired(k.expiry.remove(key), other, now) == has_expired(k.expiry, other, now),
{
}

/// A deleted key has no time left to expire.
pub proof fn law_deleted_key_does_not_expire(k: KeyspaceState, key: Seq<u8>, now: u128)
    ensures
        !has_expired(k.expiry.remove(key), key, now),
{
}

/// Every stamped local write is later than every change seen before it.
pub proof fn law_local_write_is_later_than_seen(
    c: ClockState,
    seen: Stamp,
    phys: u64,
    later: u64,
)
    requires
        c.can_merge(seen, phys),
        c.merged(seen, phys).can_tick(later),
    ensures
        seen.before(c.merged(seen, phys).ticked(later).stamp()),
{
    crate::hlc::law_stays_past_observed(c, seen, phys, later);
}

/// A write with a number of seconds to live is there for exactly so many
/// seconds, however many; one with none is there for good. One that names no
/// time takes the keyspace's, which is in milliseconds.
pub proof fn law_key_lives_its_seconds(k: KeyspaceState, key: Seq<u8>, s: u64, at: u128, now: u128)
    requires
        at + 1000 * s <= u128::MAX,
        at + k.default_ttl_ms <= u128::MAX,
    ensures
        has_expired(k.expiry_after_put(key, Some(s), at), key, now) <==> s > 0 && now >= at + 1000
            * s,
        has_expired(k.expiry_after_put(key, None, at), key, now) <==> k.default_ttl_ms > 0 && now
            >= at + k.default_ttl_ms,
{
}

/// One second more to live is a second later gone, whatever the time was.
pub proof fn law_a_longer_life_ends_later(
    k: KeyspaceState,
    key: Seq<u8>,
    s: u64,
    more: u64,
    at: u128,
    now: u128,
)
    requires
        0 < s < more,
        at + 1000 * more <= u128::MAX,
        now + 1000 * (more - s) <= u128::MAX,
    ensures
        has_expired(k.expiry_after_put(key, Some(s), at), key, now) <==> has_expired(
            k.expiry_after_put(key, Some(more), at),
            key,
            (now + 1000 * (more - s)) as u128,
        ),
{
}

/// Every change that a keyspace takes is heard, whatever key or region it is
/// of: what was published before stays, and the change comes after it. A
/// keyspace without a bus publishes nothing.
pub proof fn law_every_change_is_heard(k: KeyspaceState, c: Change)
    ensures
        k.publishes ==> k.published_after(c) == k.published.push(c),
        !k.publishes ==> k.published_after(c) == k.published,
{
}

/// A change tells what was written, where, when, in which region and under
/// which sequence number and stamp.
pub proof fn law_change_tells_the_write(
    k: KeyspaceState,
    key: Seq<u8>,
    value: Option<Seq<u8>>,
    sequence: Sequence,
    hlc: Stamp,
    at: u128,
)
    ensures
        ({
            let c = k.change(key, value, sequence, hlc, at);
            &&& c.keyspace == k.name
            &&& c.key == key
            &&& c.value == value
            &&& c.sequence == sequence
            &&& c.timestamp == at
            &&& c.origin_region == k.region
            &&& c.hlc == hlc
        }),
{
}

/// A keyspace starts with the bus that it is given: what was published there,
/// and its capacity. Without a bus nothing was published.
pub proof fn law_keyspace_takes_its_bus(b: EventBus)
    ensures
        events_of(Some(b)) == b@,
        events_of(None).len() == 0,
        capacity_of(Some(b)) == Some(b.capacity()),
        capacity_of(None) is None,
{
}

} // verus!
