//! Publish/subscribe topics.
//!
//! An ephemeral topic only fans messages out to whoever listens. A durable
//! topic appends every message to a log before it is fanned out, so that a
//! subscriber can replay what it missed.

use crate::broadcast::{
    deliveries_before, delivery_channel, delivery_limit, given_deliveries, hear_deliveries,
    send_delivery,
};
use crate::error::MessagingError;
use crate::log::{
    entries, frame, payload_fits, since, Entry, LogState, MessageLog, Offset, WriteRequest,
};
use crate::text::concat3;
use std::sync::Arc;
use tokio::sync::broadcast::{Receiver, Sender};
use vstd::prelude::*;
use vstd::slice::slice_to_vec;

verus! {

/// The smallest number of messages that a topic's fan-out holds.
pub const MIN_CAPACITY: usize = 16;

#[derive(Clone, Copy, Debug, PartialEq, Eq, Structural)]
pub enum TopicMode {
    Ephemeral,
    Durable,
}

/// A message on its way to a subscriber. Ephemeral messages are counted from 0
/// while the topic is open.
#[derive(Clone, Debug)]
pub struct Delivery {
    pub offset: Offset,
    pub payload: Arc<Vec<u8>>,
}

impl View for Delivery {
    type V = (Offset, Seq<u8>);

    open spec fn view(&self) -> (Offset, Seq<u8>) {
        (self.offset, self.payload@)
    }
}

/// The deliveries of a list by their contents.
pub open spec fn delivery_views(v: Seq<Delivery>) -> Seq<(Offset, Seq<u8>)> {
    v.map_values(|d: Delivery| d@)
}

/// Log records as deliveries.
pub open spec fn as_deliveries(es: Seq<Entry>) -> Seq<(Offset, Seq<u8>)> {
    es.map_values(|e: Entry| (e.offset, e.payload))
}

/// One topic.
pub struct Topic {
    name: String,
    mode: TopicMode,
    tx: Sender<Delivery>,
    log: Option<MessageLog>,
    count: Offset,
}

/// A topic by its contents.
pub ghost struct TopicState {
    pub name: Seq<char>,
    pub mode: TopicMode,
    pub log: Option<LogState>,
    /// What went out to the subscribers, in order.
    pub sent: Seq<(Offset, Seq<u8>)>,
    /// How many messages a subscriber can lag behind, at least.
    pub capacity: usize,
    /// The offset of the next ephemeral message.
    pub count: Offset,
}

impl TopicState {
    /// What stays true of a topic: a log exactly where it is durable.
    pub open spec fn wf(self) -> bool {
        self.log is Some <==> self.mode == TopicMode::Durable
    }

    /// The topic after a message went out under an offset. Ephemeral messages
    /// are counted.
    pub open spec fn after_publish(self, offset: Offset, payload: Seq<u8>) -> TopicState {
        TopicState {
            sent: self.sent.push((offset, payload)),
            count: if self.mode == TopicMode::Ephemeral {
                (self.count + 1) as u64
            } else {
                self.count
            },
            ..self
        }
    }

    /// Whether another message can get an offset.
    pub open spec fn has_room(self) -> bool {
        match self.log {
            Some(l) => l.next < u64::MAX,
            None => self.count < u64::MAX,
        }
    }
}

impl View for Topic {
    type V = TopicState;

    closed spec fn view(&self) -> TopicState {
        TopicState {
            name: self.name@,
            mode: self.mode,
            log: match self.log {
                Some(l) => Some(l@),
                None => None,
            },
            sent: given_deliveries(self.tx),
            capacity: delivery_limit(self.tx),
            count: self.count,
        }
    }
}

pub open spec fn topic_file_name(name: Seq<char>) -> Seq<char> {
    "topic_"@ + name + ".log"@
}

/// The name of a durable topic's log file.
pub fn topic_file(name: &str) -> (f: String)
    ensures
        f@ == topic_file_name(name@),
{
    concat3("topic_", name, ".log")
}

/// How many messages a fan-out of the asked capacity holds.
pub open spec fn channel_capacity(asked: usize) -> usize {
    if asked < MIN_CAPACITY {
        MIN_CAPACITY
    } else {
        asked
    }
}

/// The delivery that a publish fans out, given how the append to the topic's
/// log went (`None` where the topic has no log): with the record's offset, or
/// with the topic's count where there is no log. Nothing is fanned out where
/// the append failed.
pub fn delivery_of(
    payload: Vec<u8>,
    appended: Option<Result<Offset, MessagingError>>,
    count: Offset,
) -> (r: Result<Delivery, MessagingError>)
    ensures
        match appended {
            Some(Ok(o)) => r matches Ok(d) && d@ == (o, payload@),
            Some(Err(e)) => r == Err::<Delivery, MessagingError>(e),
            None => r matches Ok(d) && d@ == (count, payload@),
        },
{
    match appended {
        Some(Ok(offset)) => Ok(Delivery { offset, payload: Arc::new(payload) }),
        Some(Err(e)) => Err(e),
        None => Ok(Delivery { offset: count, payload: Arc::new(payload) }),
    }
}

impl Topic {
    /// A topic. `image` is what the log file of a durable topic holds (empty
    /// where there is none yet). `None` where that log can take no more
    /// records.
    pub fn open(
        name: &str,
        mode: TopicMode,
        capacity: usize,
        image: &[u8],
        file_id: usize,
    ) -> (r: Option<Topic>)
        requires
            channel_capacity(capacity) <= usize::MAX / 2,
        ensures
            match r {
                Some(t) => {
                    &&& t@.name == name@
                    &&& t@.mode == mode
                    &&& t@.sent.len() == 0
                    &&& t@.count == 0
                    &&& t@.capacity == channel_capacity(capacity)
                    &&& t@.wf()
                    &&& t@.log matches Some(l) ==> l.file_id == file_id && l.next
                        == crate::log::offset_after(entries(image@))
                },
                None => mode == TopicMode::Durable && crate::log::offset_after(entries(image@))
                    > u64::MAX,
            },
    {
        let size: usize = if capacity < MIN_CAPACITY {
            MIN_CAPACITY
        } else {
            capacity
        };
        let tx = delivery_channel(size);
        let log = match mode {
            TopicMode::Ephemeral => None,
            TopicMode::Durable => match MessageLog::open(image, file_id) {
                Some(l) => Some(l),
                None => {
                    return None;
                },
            },
        };
        Some(Topic { name: name.to_owned(), mode, tx, log, count: 0 })
    }

    pub fn name(&self) -> (s: &str)
        ensures
            s@ == self@.name,
    {
        self.name.as_str()
    }

    pub fn mode(&self) -> (m: TopicMode)
        ensures
            m == self@.mode,
    {
        self.mode
    }

    /// The append that a message needs before it is published: one for a
    /// durable topic, none for an ephemeral one.
    pub fn append(&mut self, timestamp: u128, payload: &[u8]) -> (r: Option<WriteRequest>)
        requires
            old(self)@.log matches Some(l) ==> l.next < u64::MAX,
            payload_fits(payload@.len()),
            payload@.len() + 28 <= usize::MAX,
        ensures
            match old(self)@.log {
                Some(l) => {
                    &&& r matches Some(req) && req.file_id == l.file_id && req.offset == l.next
                        && req.framed@ == frame(
                        Entry { offset: l.next, timestamp, payload: payload@ },
                    )
                    &&& final(self)@ == (TopicState {
                        log: Some(LogState { next: (l.next + 1) as u64, ..l }),
                        ..old(self)@
                    })
                },
                None => r is None && final(self)@ == old(self)@,
            },
    {
        match &mut self.log {
            Some(l) => Some(l.append(timestamp, payload)),
            None => None,
        }
    }

    /// Takes back the last append, which no writer accepted.
    pub fn withdraw(&mut self, req: &WriteRequest)
        requires
            old(self)@.log matches Some(l) ==> l.next == req.offset + 1,
        ensures
            final(self)@ == (TopicState {
                log: match old(self)@.log {
                    Some(l) => Some(LogState { next: req.offset, ..l }),
                    None => None,
                },
                ..old(self)@
            }),
    {
        match &mut self.log {
            Some(l) => l.withdraw(req),
            None => {},
        }
    }

    /// Fans a message out, given how its append went, and returns its offset:
    /// that of its record, or how many ephemeral messages went before it. A
    /// message that is not durable on a durable topic is not fanned out.
    pub fn publish(
        &mut self,
        payload: Vec<u8>,
        appended: Option<Result<Offset, MessagingError>>,
    ) -> (r: Result<Offset, MessagingError>)
        requires
            old(self)@.wf(),
            appended is Some <==> old(self)@.mode == TopicMode::Durable,
            appended is None ==> old(self)@.has_room(),
        ensures
            match appended {
                Some(a) => r == a,
                None => r == Ok::<Offset, MessagingError>(old(self)@.count),
            },
            final(self)@ == match r {
                Ok(o) => old(self)@.after_publish(o, payload@),
                Err(_) => old(self)@,
            },
            final(self)@.sent == match r {
                Ok(o) => old(self)@.sent.push((o, payload@)),
                Err(_) => old(self)@.sent,
            },
    {
        match delivery_of(payload, appended, self.count) {
            Ok(d) => {
                let offset: u64 = d.offset;
                if self.mode == TopicMode::Ephemeral {
                    self.count = self.count + 1;
                }
                send_delivery(&mut self.tx, d);
                Ok(offset)
            },
            Err(e) => Err(e),
        }
    }

    /// A receiver of the messages published from now on.
    pub fn subscribe(&self) -> (r: Receiver<Delivery>)
        ensures
            deliveries_before(r) == self@.sent,
    {
        hear_deliveries(&self.tx)
    }

    /// The durable messages at `from` or later; none of an ephemeral topic.
    /// `image` is what the topic's log file holds, or why it could not be
    /// read.
    pub fn replay_from(&self, image: Result<Vec<u8>, String>, from: Offset) -> (r: Result<
        Vec<Delivery>,
        MessagingError,
    >)
        ensures
            match (self@.log, image) {
                (None, _) => r matches Ok(v) && v@.len() == 0,
                (Some(_), Ok(bytes)) => r matches Ok(v) && delivery_views(v@) == as_deliveries(
                    since(entries(bytes@), from),
                ),
                (Some(_), Err(e)) => r == Err::<Vec<Delivery>, MessagingError>(
                    MessagingError::Io(e),
                ),
            },
    {
        match &self.log {
            None => Ok(Vec::new()),
            Some(_) => match image {
                Ok(bytes) => Ok(deliveries_since(bytes.as_slice(), from)),
                Err(e) => Err(MessagingError::Io(e)),
            },
        }
    }

    /// Whether another message can get an offset.
    pub fn has_room(&self) -> (r: bool)
        ensures
            r == self@.has_room(),
    {
        match &self.log {
            Some(l) => l.next_offset() < u64::MAX,
            None => self.count < u64::MAX,
        }
    }

    /// The offset of the next durable message; 0 for an ephemeral topic.
    pub fn next_offset(&self) -> (o: Offset)
        ensures
            o == match self@.log {
                Some(l) => l.next,
                None => 0,
            },
    {
        match &self.log {
            Some(l) => l.next_offset(),
            None => 0,
        }
    }
}

fn deliveries_since(image: &[u8], from: Offset) -> (out: Vec<Delivery>)
    ensures
        delivery_views(out@) == as_deliveries(since(entries(image@), from)),
{
    let msgs = MessageLog::read_from(image, from);
    let ghost es = since(entries(image@), from);
    let mut out: Vec<Delivery> = Vec::new();
    let mut i: usize = 0;
    while i < msgs.len()
        invariant
            i <= msgs.len(),
            crate::log::entry_views(msgs@) == es,
            out@.len() == i,
            forall|j: int| 0 <= j < i ==> (#[trigger] out@[j])@ == (es[j].offset, es[j].payload),
        decreases msgs.len() - i,
    {
        assert(es[i as int] == msgs@[i as int]@);
        out.push(
            Delivery {
                offset: msgs[i].offset,
                payload: Arc::new(slice_to_vec(msgs[i].payload.as_slice())),
            },
        );
        i = i + 1;
    }
    assert(delivery_views(out@) =~= as_deliveries(es));
    out
}

/// Of two messages on an ephemeral topic, one right after the other, the later
/// one has the larger offset, and the offset is the next one.
pub proof fn law_ephemeral_offsets_grow(t: TopicState, x: Seq<u8>)
    requires
        t.wf(),
        t.mode == TopicMode::Ephemeral,
        t.has_room(),
    ensures
        t.after_publish(t.count, x).count == t.count + 1,
        t.after_publish(t.count, x).wf(),
{
}

/// What is published on a durable topic replays from any offset up to its
/// own, after a restart too: as the record that its append wrote.
pub proof fn law_published_replays(es: Seq<Entry>, e: Entry, from: Offset)
    requires
        forall|i: int| 0 <= i < es.len() ==> crate::log::fits_frame(#[trigger] es[i]),
        crate::log::fits_frame(e),
        from <= e.offset,
    ensures
        as_deliveries(since(entries(crate::log::frames(es) + frame(e)), from)).last() == (
            e.offset,
            e.payload,
        ),
{
    let all = es.push(e);
    assert(all.drop_last() =~= es);
    assert(crate::log::frames(all) == crate::log::frames(es) + frame(e));
    assert forall|i: int| 0 <= i < all.len() implies crate::log::fits_frame(#[trigger] all[i]) by {
        if i < es.len() {
            assert(all[i] == es[i]);
        }
    }
    crate::log::law_replay_of_appends(all);
}

/// What a replay hands out is every message that was read, one by one, with
/// its own offset and payload.
pub proof fn law_every_message_is_handed_out(es: Seq<Entry>, v: Seq<Delivery>)
    ensures
        as_deliveries(es).len() == es.len(),
        forall|i: int|
            0 <= i < es.len() ==> #[trigger] as_deliveries(es)[i] == (es[i].offset, es[i].payload),
        delivery_views(v).len() == v.len(),
        forall|i: int|
            0 <= i < v.len() ==> #[trigger] delivery_views(v)[i] == (v[i].offset, v[i].payload@),
{
}

/// A published message goes to the subscribers after all that went before it,
/// and nothing else changes but the count of an ephemeral topic.
pub proof fn law_published_is_sent(t: TopicState, offset: Offset, payload: Seq<u8>)
    requires
        t.mode == TopicMode::Ephemeral ==> t.count < u64::MAX,
    ensures
        ({
            let a = t.after_publish(offset, payload);
            &&& a.sent == t.sent.push((offset, payload))
            &&& a.name == t.name && a.mode == t.mode && a.log == t.log && a.capacity == t.capacity
            &&& a.count == t.count + (if t.mode == TopicMode::Ephemeral {
                1int
            } else {
                0
            })
        }),
{
}

/// A channel has the capacity that was asked for, and at least sixteen.
pub proof fn law_capacity_is_at_least_sixteen(asked: usize)
    ensures
        channel_capacity(asked) >= asked,
        channel_capacity(asked) >= 16,
        channel_capacity(asked) == asked || channel_capacity(asked) == 16,
{
}

/// A topic can publish until its offsets are used up, and its file bears its
/// name.
pub proof fn law_topic_has_room(t: TopicState, name: Seq<char>)
    ensures
        t.has_room() <==> (t.log matches Some(l) ==> l.next < u64::MAX) && (t.log is None ==> t.count
            < u64::MAX),
        topic_file_name(name) == "topic_"@ + name + ".log"@,
{
}

} // verus!
