//! Durable work queues with at-least-once delivery.
//!
//! A queue is a durable log and, for each consumer group, a cursor and the
//! messages in flight. `pop` hands the next message to a consumer and gives
//! it a deadline; `ack` takes it out of flight. A message whose deadline
//! passes is delivered again. Consumers of one group share the messages;
//! different groups each get all of them.

use crate::error::MessagingError;
use crate::log::{
    entries, frame, has_room, payload_fits, since, Entry, LogState, MessageLog, Offset,
    WriteRequest,
};
use crate::text::concat3;
use std::collections::BTreeMap;
use vstd::hash_map::StringHashMap;
use vstd::prelude::*;
use vstd::slice::slice_to_vec;
use vstd::std_specs::btree::spec_btree_map_iter;
use vstd::std_specs::iter::IteratorSpec;

verus! {

broadcast use {
    vstd::std_specs::btree::group_btree_axioms,
    vstd::hash_map::group_hash_map_axioms,
};

/// A delivered message.
#[derive(Debug)]
pub struct QueueMessage {
    pub offset: Offset,
    pub payload: Vec<u8>,
}

/// A consumer group by its contents.
pub ghost struct Group {
    /// The next offset that the group was never given.
    pub cursor: Offset,
    /// Delivered offsets that nobody acknowledged, with their deadlines.
    pub in_flight: Map<Offset, u128>,
}

pub open spec fn new_group() -> Group {
    Group { cursor: 1, in_flight: Map::empty() }
}

/// Whether `o` is the smallest offset in flight whose deadline has passed.
pub open spec fn is_oldest_due(in_flight: Map<Offset, u128>, now: u128, o: Offset) -> bool {
    &&& in_flight.contains_key(o)
    &&& in_flight[o] <= now
    &&& forall|k: Offset| #[trigger] in_flight.contains_key(k) && in_flight[k] <= now ==> o <= k
}

/// Whether any deadline has passed.
pub open spec fn any_due(in_flight: Map<Offset, u128>, now: u128) -> bool {
    exists|k: Offset| #[trigger] in_flight.contains_key(k) && in_flight[k] <= now
}

/// The message to deliver again: the oldest whose deadline has passed.
pub open spec fn oldest_due(in_flight: Map<Offset, u128>, now: u128) -> Option<Offset> {
    if any_due(in_flight, now) {
        Some(choose|o: Offset| is_oldest_due(in_flight, now, o))
    } else {
        None
    }
}

proof fn lemma_oldest_unique(in_flight: Map<Offset, u128>, now: u128, a: Offset)
    requires
        is_oldest_due(in_flight, now, a),
    ensures
        oldest_due(in_flight, now) == Some(a),
{
    let b = choose|o: Offset| is_oldest_due(in_flight, now, o);
    assert(in_flight.contains_key(a));
    assert(in_flight.contains_key(b));
}

/// The record with a given offset that comes first.
pub open spec fn find_offset(es: Seq<Entry>, o: Offset) -> Option<Entry>
    decreases es.len(),
{
    if es.len() == 0 {
        None
    } else if es[0].offset == o {
        Some(es[0])
    } else {
        find_offset(es.skip(1), o)
    }
}

impl Group {
    /// What stays true of a group: only what was delivered is in flight.
    pub open spec fn wf(self) -> bool {
        forall|o: Offset| #[trigger] self.in_flight.contains_key(o) ==> o < self.cursor
    }

    /// The group after a delivery at `now` from a log with the given records,
    /// and what is delivered. `deadline` is for a message delivered again,
    /// `fresh_deadline` for one delivered for the first time.
    pub open spec fn popped(
        self,
        now: u128,
        es: Seq<Entry>,
        deadline: u128,
        fresh_deadline: u128,
    ) -> (Group, Option<Entry>) {
        match oldest_due(self.in_flight, now) {
            Some(o) => (
                Group { in_flight: self.in_flight.insert(o, deadline), ..self },
                find_offset(since(es, o), o),
            ),
            None => {
                let fresh = since(es, self.cursor);
                if fresh.len() == 0 {
                    (self, None)
                } else {
                    (
                        Group {
                            cursor: (fresh[0].offset + 1) as u64,
                            in_flight: self.in_flight.insert(fresh[0].offset, fresh_deadline),
                        },
                        Some(fresh[0]),
                    )
                }
            },
        }
    }

    /// The group after a delivery for which the log could not be read.
    pub open spec fn pop_failed(self, now: u128, deadline: u128) -> Group {
        match oldest_due(self.in_flight, now) {
            Some(o) => Group { in_flight: self.in_flight.insert(o, deadline), ..self },
            None => self,
        }
    }

    /// The group after an acknowledgement.
    pub open spec fn acked(self, o: Offset) -> Group {
        Group { in_flight: self.in_flight.remove(o), ..self }
    }
}

/// One consumer group of a queue.
struct GroupState {
    cursor: Offset,
    in_flight: BTreeMap<Offset, u128>,
}

impl View for GroupState {
    type V = Group;

    closed spec fn view(&self) -> Group {
        Group { cursor: self.cursor, in_flight: self.in_flight@ }
    }
}

impl GroupState {
    fn new() -> (g: Self)
        ensures
            g@ == new_group(),
    {
        GroupState { cursor: 1, in_flight: BTreeMap::new() }
    }

    fn copy(&self) -> (g: Self)
        ensures
            g@ == self@,
    {
        GroupState { cursor: self.cursor, in_flight: self.in_flight.clone() }
    }

    /// The oldest message whose deadline has passed.
    fn redeliver(&self, now: u128) -> (r: Option<Offset>)
        ensures
            r == oldest_due(self@.in_flight, now),
    {
        let ghost m = self.in_flight@;
        let mut best: Option<Offset> = None;
        let ghost pairs = IteratorSpec::remaining(
                    &spec_btree_map_iter(&self.in_flight),
                );
        for (off, deadline) in it: self.in_flight.iter()
            invariant
                m == self.in_flight@,
                it.seq() == pairs,
                pairs == IteratorSpec::remaining(
                    &spec_btree_map_iter(&self.in_flight),
                ),
                match best {
                    Some(b) => m.contains_key(b) && m[b] <= now && forall|j: int|
                        0 <= j < it.index() && *(#[trigger] pairs[j]).1 <= now ==> b <= *pairs[j].0,
                    None => forall|j: int| 0 <= j < it.index() ==> *(#[trigger] pairs[j]).1 > now,
                },
        {
            assert(m.contains_key(*pairs[it.index() as int].0));
            if *deadline <= now {
                best = match best {
                    Some(b) => if *off < b {
                        Some(*off)
                    } else {
                        Some(b)
                    },
                    None => Some(*off),
                };
            }
        }
        proof {
            assert forall|k: Offset| #[trigger] m.contains_key(k) implies match best {
                Some(b) => m[k] <= now ==> b <= k,
                None => m[k] > now,
            } by {
                assert(pairs.contains((&k, &m[k])));
                let j = pairs.index_of((&k, &m[k]));
                assert(*pairs[j].1 == m[k]);
            }
            match best {
                Some(b) => {
                    assert(is_oldest_due(m, now, b));
                    lemma_oldest_unique(m, now, b);
                },
                None => {},
            }
        }
        best
    }
}

/// A durable work queue.
pub struct Queue {
    name: String,
    log: MessageLog,
    ack_timeout: u128,
    groups: StringHashMap<GroupState>,
}

/// A queue by its contents.
pub ghost struct QueueState {
    pub name: Seq<char>,
    pub log: LogState,
    /// Nanoseconds from a delivery to its deadline.
    pub ack_timeout: u128,
    pub groups: Map<Seq<char>, Group>,
}

impl QueueState {
    /// A group's state; a group that was never heard of is new.
    pub open spec fn group(self, name: Seq<char>) -> Group {
        if self.groups.contains_key(name) {
            self.groups[name]
        } else {
            new_group()
        }
    }

    pub open spec fn with_group(self, name: Seq<char>, g: Group) -> QueueState {
        QueueState { groups: self.groups.insert(name, g), ..self }
    }
}

impl View for Queue {
    type V = QueueState;

    closed spec fn view(&self) -> QueueState {
        QueueState {
            name: self.name@,
            log: self.log@,
            ack_timeout: self.ack_timeout,
            groups: self.groups@.map_values(|g: GroupState| g@),
        }
    }
}

pub open spec fn queue_file_name(name: Seq<char>) -> Seq<char> {
    "queue_"@ + name + ".log"@
}

/// The name of a queue's log file.
pub fn queue_file(name: &str) -> (f: String)
    ensures
        f@ == queue_file_name(name@),
{
    concat3("queue_", name, ".log")
}

/// The record with a given offset among the records of a file.
fn find_record(image: &[u8], o: Offset) -> (r: Option<QueueMessage>)
    ensures
        match r {
            Some(m) => find_offset(since(entries(image@), o), o) matches Some(e) && e.offset
                == m.offset && e.payload == m.payload@,
            None => find_offset(since(entries(image@), o), o) is None,
        },
{
    let msgs = MessageLog::read_from(image, o);
    let ghost es = since(entries(image@), o);
    let mut i: usize = 0;
    assert(es.skip(0) =~= es);
    while i < msgs.len()
        invariant
            i <= msgs.len(),
            crate::log::entry_views(msgs@) == es,
            es == since(entries(image@), o),
            find_offset(es, o) == find_offset(es.skip(i as int), o),
        decreases msgs.len() - i,
    {
        assert(es[i as int] == msgs@[i as int]@);
        assert(es.skip(i as int)[0] == es[i as int]);
        if msgs[i].offset == o {
            return Some(
                QueueMessage {
                    offset: msgs[i].offset,
                    payload: slice_to_vec(msgs[i].payload.as_slice()),
                },
            );
        }
        assert(es.skip(i as int).skip(1) =~= es.skip(i + 1));
        i = i + 1;
    }
    None
}

impl Queue {
    /// The queue whose log file holds `image` (empty where there is no file
    /// yet). `None` where the log can take no more records.
    pub fn open(name: &str, image: &[u8], file_id: usize, ack_timeout: u128) -> (r: Option<Queue>)
        ensures
            match r {
                Some(q) => {
                    &&& q@.name == name@
                    &&& q@.ack_timeout == ack_timeout
                    &&& q@.groups == Map::<Seq<char>, Group>::empty()
                    &&& q@.log.file_id == file_id
                    &&& q@.log.next == crate::log::offset_after(entries(image@))
                },
                None => crate::log::offset_after(entries(image@)) > u64::MAX,
            },
    {
        match MessageLog::open(image, file_id) {
            Some(log) => {
                let q = Queue {
                    name: name.to_owned(),
                    log,
                    ack_timeout,
                    groups: StringHashMap::new(),
                };
                assert(q@.groups =~= Map::<Seq<char>, Group>::empty());
                Some(q)
            },
            None => None,
        }
    }

    pub fn name(&self) -> (s: &str)
        ensures
            s@ == self@.name,
    {
        self.name.as_str()
    }

    /// Puts a message at the end of the queue. The append goes to the log's
    /// writer.
    pub fn push(&mut self, timestamp: u128, payload: &[u8]) -> (req: WriteRequest)
        requires
            old(self)@.log.next < u64::MAX,
            payload_fits(payload@.len()),
            payload@.len() + 28 <= usize::MAX,
        ensures
            final(self)@ == (QueueState {
                log: LogState { next: (old(self)@.log.next + 1) as u64, ..old(self)@.log },
                ..old(self)@
            }),
            req.file_id == old(self)@.log.file_id,
            req.offset == old(self)@.log.next,
            req.framed@ == frame(
                Entry { offset: old(self)@.log.next, timestamp, payload: payload@ },
            ),
    {
        self.log.append(timestamp, payload)
    }

    /// Takes back the last push, which no writer accepted.
    pub fn withdraw(&mut self, req: &WriteRequest)
        requires
            old(self)@.log.next == req.offset + 1,
        ensures
            final(self)@ == (QueueState {
                log: LogState { next: req.offset, ..old(self)@.log },
                ..old(self)@
            }),
    {
        self.log.withdraw(req);
    }

    /// Delivers the next message to a consumer of a group: the oldest one
    /// whose deadline has passed, else the next that the group was never
    /// given. `image` is what the queue's log file holds, or why it could not
    /// be read; `now` is the time of the call and `marked` that of marking a
    /// fresh message, in nanoseconds.
    pub fn pop(
        &mut self,
        group: &str,
        now: u128,
        image: Result<Vec<u8>, String>,
        marked: u128,
    ) -> (r: Result<Option<QueueMessage>, MessagingError>)
        requires
            now + old(self)@.ack_timeout <= u128::MAX,
            marked + old(self)@.ack_timeout <= u128::MAX,
            image matches Ok(bytes) ==> has_room(entries(bytes@)),
        ensures
            match image {
                Ok(bytes) => {
                    let before = old(self)@.group(group@);
                    let (after, out) = before.popped(
                        now,
                        entries(bytes@),
                        (now + old(self)@.ack_timeout) as u128,
                        (marked + old(self)@.ack_timeout) as u128,
                    );
                    &&& final(self)@ == old(self)@.with_group(group@, after)
                    &&& match out {
                        Some(e) => r matches Ok(Some(m)) && m.offset == e.offset && m.payload@
                            == e.payload,
                        None => r matches Ok(None),
                    }
                },
                Err(e) => {
                    &&& r == Err::<Option<QueueMessage>, MessagingError>(MessagingError::Io(e))
                    &&& final(self)@ == old(self)@.with_group(
                        group@,
                        old(self)@.group(group@).pop_failed(
                            now,
                            (now + old(self)@.ack_timeout) as u128,
                        ),
                    )
                },
            },
    {
        let ghost start = self@;
        let mut state = match self.groups.get(group) {
            Some(g) => g.copy(),
            None => GroupState::new(),
        };
        assert(state@ == start.group(group@));
        let deadline: u128 = now + self.ack_timeout;
        let result: Result<Option<QueueMessage>, MessagingError> = match state.redeliver(now) {
            Some(off) => {
                state.in_flight.insert(off, deadline);
                match image {
                    Ok(bytes) => Ok(find_record(bytes.as_slice(), off)),
                    Err(e) => Err(MessagingError::Io(e)),
                }
            },
            None => match image {
                Ok(bytes) => {
                    let cursor: u64 = state.cursor;
                    let msgs = MessageLog::read_from(bytes.as_slice(), cursor);
                    let ghost fresh = since(entries(bytes@), cursor);
                    if msgs.len() > 0 {
                        let offset: u64 = msgs[0].offset;
                        let payload = slice_to_vec(msgs[0].payload.as_slice());
                        proof {
                            assert(fresh[0] == msgs@[0]@);
                            crate::log::lemma_since_members(entries(bytes@), cursor);
                            let k = entries(bytes@).index_of(fresh[0]);
                            assert(entries(bytes@)[k].offset < u64::MAX);
                        }
                        state.cursor = offset + 1;
                        state.in_flight.insert(offset, marked + self.ack_timeout);
                        Ok(Some(QueueMessage { offset, payload }))
                    } else {
                        assert(fresh.len() == 0);
                        Ok(None)
                    }
                },
                Err(e) => Err(MessagingError::Io(e)),
            },
        };
        let ghost after = state@;
        self.groups.insert(group.to_owned(), state);
        assert(self@.groups =~= start.groups.insert(group@, after));
        result
    }

    /// Takes a delivered message out of flight, so that it is not delivered
    /// again.
    pub fn ack(&mut self, group: &str, offset: Offset)
        ensures
            final(self)@ == if old(self)@.groups.contains_key(group@) {
                old(self)@.with_group(group@, old(self)@.group(group@).acked(offset))
            } else {
                old(self)@
            },
    {
        let ghost start = self@;
        let found = match self.groups.get(group) {
            Some(g) => Some(g.copy()),
            None => None,
        };
        if let Some(mut state) = found {
            state.in_flight.remove(&offset);
            let ghost after = state@;
            assert(after.in_flight =~= start.group(group@).in_flight.remove(offset));
            self.groups.insert(group.to_owned(), state);
            assert(self@.groups =~= start.groups.insert(group@, after));
        }
    }

    /// How many messages of a group are in flight.
    pub fn in_flight_count(&self, group: &str) -> (n: usize)
        ensures
            n == self@.group(group@).in_flight.len(),
    {
        match self.groups.get(group) {
            Some(g) => g.in_flight.len(),
            None => 0,
        }
    }

    /// How many messages were ever put into the queue.
    pub fn depth(&self) -> (n: Offset)
        ensures
            n == if self@.log.next == 0 {
                0
            } else {
                self@.log.next - 1
            },
    {
        let next: u64 = self.log.next_offset();
        if next == 0 {
            0
        } else {
            next - 1
        }
    }
}

/// Every operation keeps a group's invariant: only what was delivered is in
/// flight.
pub proof fn law_operations_keep_wf(
    g: Group,
    now: u128,
    es: Seq<Entry>,
    deadline: u128,
    fresh_deadline: u128,
    o: Offset,
)
    requires
        g.wf(),
        has_room(es),
    ensures
        new_group().wf(),
        g.acked(o).wf(),
        g.pop_failed(now, deadline).wf(),
        g.popped(now, es, deadline, fresh_deadline).0.wf(),
        g.cursor <= g.popped(now, es, deadline, fresh_deadline).0.cursor,
{
    lemma_due(g, now);
    let fresh = since(es, g.cursor);
    crate::log::lemma_since_members(es, g.cursor);
    if fresh.len() > 0 {
        let k = es.index_of(fresh[0]);
        assert(es[k].offset < u64::MAX);
    }
}

proof fn lemma_due(g: Group, now: u128)
    ensures
        oldest_due(g.in_flight, now) matches Some(o) ==> is_oldest_due(g.in_flight, now, o),
{
    if any_due(g.in_flight, now) {
        let k = choose|k: Offset| #[trigger] g.in_flight.contains_key(k) && g.in_flight[k] <= now;
        lemma_oldest_exists(g.in_flight, now, k);
    }
}

proof fn lemma_oldest_exists(in_flight: Map<Offset, u128>, now: u128, k: Offset)
    requires
        in_flight.contains_key(k),
        in_flight[k] <= now,
    ensures
        exists|o: Offset| is_oldest_due(in_flight, now, o),
    decreases k,
{
    if !is_oldest_due(in_flight, now, k) {
        let j = choose|j: Offset| #[trigger] in_flight.contains_key(j) && in_flight[j] <= now && j < k;
        lemma_oldest_exists(in_flight, now, j);
    }
}

/// A message delivered for the first time lies at or after the group's
/// cursor, and the cursor moves past it: no two consumers of a group are
/// given the same message while nobody is late.
pub proof fn law_fresh_messages_are_new(
    g: Group,
    now: u128,
    es: Seq<Entry>,
    deadline: u128,
    fresh_deadline: u128,
)
    requires
        g.wf(),
        has_room(es),
        !any_due(g.in_flight, now),
    ensures
        g.popped(now, es, deadline, fresh_deadline).1 matches Some(e) ==> {
            &&& e.offset >= g.cursor
            &&& !g.in_flight.contains_key(e.offset)
            &&& g.popped(now, es, deadline, fresh_deadline).0.cursor == e.offset + 1
        },
{
    crate::log::lemma_since_members(es, g.cursor);
    let fresh = since(es, g.cursor);
    if fresh.len() > 0 {
        let k = es.index_of(fresh[0]);
        assert(es[k].offset < u64::MAX);
        assert(fresh[0].offset >= g.cursor);
    }
}

/// Where nobody is late, a group gets the messages in the order in which they
/// were put in, each of them, up to the last.
pub proof fn law_messages_come_in_order(
    g: Group,
    now: u128,
    es: Seq<Entry>,
    deadline: u128,
    fresh_deadline: u128,
)
    requires
        !any_due(g.in_flight, now),
        crate::log::numbered(es),
        1 <= g.cursor,
        es.len() < u64::MAX,
    ensures
        ({
            let (after, out) = g.popped(now, es, deadline, fresh_deadline);
            if g.cursor <= es.len() {
                out == Some(es[g.cursor - 1]) && after.cursor == g.cursor + 1
            } else {
                out is None && after == g
            }
        }),
{
    crate::log::law_since_of_numbered(es, g.cursor);
}

/// A message that was acknowledged is never delivered to its group again.
pub proof fn law_acked_is_done(
    g: Group,
    o: Offset,
    now: u128,
    es: Seq<Entry>,
    deadline: u128,
    fresh_deadline: u128,
)
    requires
        g.wf(),
        has_room(es),
        o < g.cursor,
        !g.in_flight.contains_key(o),
    ensures
        ({
            let (after, out) = g.popped(now, es, deadline, fresh_deadline);
            &&& out matches Some(e) ==> e.offset != o
            &&& o < after.cursor
            &&& !after.in_flight.contains_key(o)
        }),
        !g.acked(o).in_flight.contains_key(o),
{
    lemma_due(g, now);
    crate::log::lemma_since_members(es, g.cursor);
    let fresh = since(es, g.cursor);
    if fresh.len() > 0 {
        let k = es.index_of(fresh[0]);
        assert(es[k].offset < u64::MAX);
        assert(fresh[0].offset >= g.cursor);
    }
    match oldest_due(g.in_flight, now) {
        Some(d) => {
            lemma_found_offset(since(es, d), d);
        },
        None => {},
    }
}

proof fn lemma_found_offset(es: Seq<Entry>, o: Offset)
    ensures
        find_offset(es, o) matches Some(e) ==> e.offset == o,
    decreases es.len(),
{
    if es.len() > 0 {
        lemma_found_offset(es.skip(1), o);
    }
}

/// A message whose deadline has passed is delivered again before anything
/// new: the oldest such message, with a new deadline.
pub proof fn law_late_message_comes_back(
    g: Group,
    o: Offset,
    now: u128,
    es: Seq<Entry>,
    deadline: u128,
    fresh_deadline: u128,
)
    requires
        crate::log::numbered(es),
        forall|k: Offset| #[trigger] g.in_flight.contains_key(k) ==> 1 <= k <= es.len(),
        g.in_flight.contains_key(o),
        g.in_flight[o] <= now,
    ensures
        ({
            let (after, out) = g.popped(now, es, deadline, fresh_deadline);
            &&& out matches Some(e) && e.offset <= o && is_oldest_due(
                g.in_flight,
                now,
                e.offset,
            ) && e == es[e.offset - 1] && after.in_flight == g.in_flight.insert(
                e.offset,
                deadline,
            )
            &&& after.cursor == g.cursor
        }),
{
    lemma_due(g, now);
    assert(any_due(g.in_flight, now));
    let d = oldest_due(g.in_flight, now)->0;
    assert(g.in_flight.contains_key(d));
    crate::log::law_since_of_numbered(es, d);
    assert(since(es, d)[0] == es[d - 1]);
}

/// A message in flight is not delivered again before its own deadline has
/// passed, whoever of the group asks and whatever else is late.
pub proof fn law_no_early_redelivery(
    g: Group,
    o: Offset,
    now: u128,
    es: Seq<Entry>,
    deadline: u128,
    fresh_deadline: u128,
)
    requires
        g.wf(),
        has_room(es),
        g.in_flight.contains_key(o),
        now < g.in_flight[o],
    ensures
        ({
            let (after, out) = g.popped(now, es, deadline, fresh_deadline);
            &&& out matches Some(e) ==> e.offset != o
            &&& after.in_flight.contains_key(o) && after.in_flight[o] == g.in_flight[o]
        }),
{
    lemma_due(g, now);
    match oldest_due(g.in_flight, now) {
        Some(d) => {
            lemma_found_offset(since(es, d), d);
        },
        None => {
            law_fresh_messages_are_new(g, now, es, deadline, fresh_deadline);
        },
    }
}

/// What happens to one group leaves the other groups as they were.
pub proof fn law_groups_are_independent(q: QueueState, a: Seq<char>, b: Seq<char>, g: Group)
    requires
        a != b,
    ensures
        q.with_group(a, g).group(b) == q.group(b),
        q.with_group(a, g).group(a) == g,
{
}

/// Where nothing is due, a group is handed the first record at its cursor or
/// after it, which is then in flight until its deadline, and the cursor goes
/// past it; where there is no such record it is handed nothing and nothing
/// changes.
pub proof fn law_next_record_is_handed_out(
    g: Group,
    now: u128,
    es: Seq<Entry>,
    deadline: u128,
    fresh_deadline: u128,
)
    requires
        has_room(es),
        forall|k: Offset| #[trigger] g.in_flight.contains_key(k) ==> g.in_flight[k] > now,
    ensures
        ({
            let (after, out) = g.popped(now, es, deadline, fresh_deadline);
            let fresh = es.filter(|e: Entry| e.offset >= g.cursor);
            if fresh.len() == 0 {
                out is None && after == g
            } else {
                &&& out == Some(fresh[0])
                &&& after.cursor == fresh[0].offset + 1
                &&& after.in_flight == g.in_flight.insert(fresh[0].offset, fresh_deadline)
            }
        }),
{
    crate::log::law_reading_gives_all_later_records(es, g.cursor);
    crate::log::lemma_since_members(es, g.cursor);
    if since(es, g.cursor).len() > 0 {
        let e = since(es, g.cursor)[0];
        let k = es.index_of(e);
        assert(es[k].offset < u64::MAX);
    }
}

/// A record whose deadline has passed comes before any new one: the one with
/// the smallest offset, which is in flight again until the new deadline. The
/// cursor stays.
pub proof fn law_due_records_come_first(
    g: Group,
    now: u128,
    es: Seq<Entry>,
    deadline: u128,
    fresh_deadline: u128,
    o: Offset,
)
    requires
        g.in_flight.contains_key(o),
        g.in_flight[o] <= now,
        forall|k: Offset| #[trigger] g.in_flight.contains_key(k) && k < o ==> g.in_flight[k] > now,
    ensures
        ({
            let (after, out) = g.popped(now, es, deadline, fresh_deadline);
            &&& after.cursor == g.cursor
            &&& after.in_flight == g.in_flight.insert(o, deadline)
            &&& out matches Some(e) ==> e.offset == o && es.contains(e)
            &&& (exists|i: int| 0 <= i < es.len() && (#[trigger] es[i]).offset == o) ==> out is Some
            &&& g.pop_failed(now, deadline) == after
        }),
{
    assert(is_oldest_due(g.in_flight, now, o));
    lemma_oldest_unique(g.in_flight, now, o);
    let later = since(es, o);
    crate::log::law_reading_gives_all_later_records(es, o);
    crate::log::lemma_since_members(es, o);
    lemma_find_offset(later, o);
    if exists|i: int| 0 <= i < es.len() && (#[trigger] es[i]).offset == o {
        let i = choose|i: int| 0 <= i < es.len() && (#[trigger] es[i]).offset == o;
        assert(later.contains(es[i]));
        let k = later.index_of(es[i]);
        assert(later[k].offset == o);
    }
    if let Some(e) = find_offset(later, o) {
        let k = later.index_of(e);
        assert(es.contains(later[k]));
    }
}

proof fn lemma_find_offset(es: Seq<Entry>, o: Offset)
    ensures
        find_offset(es, o) matches Some(e) ==> e.offset == o && es.contains(e),
        find_offset(es, o) is None ==> forall|i: int|
            0 <= i < es.len() ==> (#[trigger] es[i]).offset != o,
    decreases es.len(),
{
    if es.len() > 0 {
        assert(es[0] == es.first());
        let rest = es.skip(1);
        lemma_find_offset(rest, o);
        if es[0].offset != o {
            if let Some(e) = find_offset(rest, o) {
                let k = rest.index_of(e);
                assert(es[k + 1] == e);
            } else {
                assert forall|i: int| 0 <= i < es.len() implies (#[trigger] es[i]).offset != o by {
                    if i > 0 {
                        assert(rest[i - 1] == es[i]);
                    }
                }
            }
        }
    }
}

/// Where nothing is due, a pop that could not read the log changes nothing.
pub proof fn law_failed_pop_keeps_the_group(g: Group, now: u128, deadline: u128)
    requires
        forall|k: Offset| #[trigger] g.in_flight.contains_key(k) ==> g.in_flight[k] > now,
    ensures
        g.pop_failed(now, deadline) == g,
{
}

/// An acknowledged record is no longer in flight; the others stay in flight
/// until their own deadlines, and the cursor stays.
pub proof fn law_ack_takes_one_record(g: Group, o: Offset)
    ensures
        g.acked(o).in_flight == g.in_flight.remove(o),
        g.acked(o).cursor == g.cursor,
{
}

/// A group that was never seen starts at the first record with nothing in
/// flight, and what one group does changes nothing but that group.
pub proof fn law_new_groups_start_at_the_first_record(
    q: QueueState,
    name: Seq<char>,
    g: Group,
)
    ensures
        !q.groups.contains_key(name) ==> q.group(name).cursor == 1 && q.group(name).in_flight
            == Map::<Offset, u128>::empty(),
        q.groups.contains_key(name) ==> q.group(name) == q.groups[name],
        q.with_group(name, g).groups == q.groups.insert(name, g),
        q.with_group(name, g).log == q.log,
        q.with_group(name, g).name == q.name,
        q.with_group(name, g).ack_timeout == q.ack_timeout,
        queue_file_name(name) == "queue_"@ + name + ".log"@,
{
}

/// Two workers of a group get different jobs: what was handed to one is handed
/// to no other before its time to acknowledge has passed.
pub proof fn law_workers_get_different_jobs(
    g: Group,
    now: u128,
    later: u128,
    es: Seq<Entry>,
    deadline: u128,
    fresh_deadline: u128,
    next_deadline: u128,
    next_fresh_deadline: u128,
)
    requires
        g.wf(),
        has_room(es),
        later < deadline,
        later < fresh_deadline,
    ensures
        ({
            let (after, first) = g.popped(now, es, deadline, fresh_deadline);
            let (_, second) = after.popped(later, es, next_deadline, next_fresh_deadline);
            first is Some && second is Some ==> (first->0).offset != (second->0).offset
        }),
{
    let (after, first) = g.popped(now, es, deadline, fresh_deadline);
    law_operations_keep_wf(g, now, es, deadline, fresh_deadline, 0);
    if let Some(e) = first {
        let o = e.offset;
        assert(after.in_flight.contains_key(o) && later < after.in_flight[o]) by {
            match oldest_due(g.in_flight, now) {
                Some(d) => {
                    lemma_find_offset(since(es, d), d);
                },
                None => {},
            }
        }
        law_no_early_redelivery(after, o, later, es, next_deadline, next_fresh_deadline);
    }
}

} // verus!
