//! A durable, append-only message log, addressed by offset.
//!
//! It backs durable topics, queues and streams. Offsets start at 1. A record
//! is framed as `[len:u32][offset:u64][timestamp:u128][payload]`, big-endian,
//! where `len` counts what follows it; so a record that was cut short at the
//! end of the file is recognised, and reading stops before it.

use crate::bytes::{
    be_bytes, be_limit, be_value, get_be, lemma_be_limits, lemma_be_round_trip, put_be,
};
use crate::error::MessagingError;
use vstd::prelude::*;
use vstd::slice::{slice_subrange, slice_to_vec};

verus! {

pub type Offset = u64;

/// The bytes of a record's header after its length.
pub const HEADER: usize = 24;

/// One record of a log.
#[derive(Debug, Clone)]
pub struct LogMessage {
    pub offset: Offset,
    /// When the record was appended, in milliseconds since the Unix epoch.
    pub timestamp: u128,
    pub payload: Vec<u8>,
}

/// A record by its contents.
pub ghost struct Entry {
    pub offset: Offset,
    pub timestamp: u128,
    pub payload: Seq<u8>,
}

impl View for LogMessage {
    type V = Entry;

    open spec fn view(&self) -> Entry {
        Entry { offset: self.offset, timestamp: self.timestamp, payload: self.payload@ }
    }
}

/// The records of a list by their contents.
pub open spec fn entry_views(v: Seq<LogMessage>) -> Seq<Entry> {
    v.map_values(|m: LogMessage| m@)
}

/// The bytes of a record, whose length has to fit four bytes.
pub open spec fn frame(e: Entry) -> Seq<u8> {
    be_bytes(HEADER as nat + e.payload.len(), 4) + be_bytes(e.offset as nat, 8) + be_bytes(
        e.timestamp as nat,
        16,
    ) + e.payload
}

/// Whether a payload of `n` bytes fits a frame, which counts it in four bytes.
pub open spec fn payload_fits(n: nat) -> bool {
    HEADER + n <= u32::MAX
}

/// Whether a record's length fits its frame.
pub open spec fn fits_frame(e: Entry) -> bool {
    payload_fits(e.payload.len())
}

/// Whether a payload can be appended to a log.
pub fn fits(payload: &[u8]) -> (r: bool)
    ensures
        r == (payload_fits(payload@.len()) && payload@.len() + 28 <= usize::MAX),
{
    payload.len() <= usize::MAX - 28 && (HEADER + payload.len()) as u64 <= u32::MAX as u64
}

/// The frames of records, one after the other.
pub open spec fn frames(es: Seq<Entry>) -> Seq<u8>
    decreases es.len(),
{
    if es.len() == 0 {
        Seq::empty()
    } else {
        frames(es.drop_last()) + frame(es.last())
    }
}

/// How many bytes the first record of an image says that it has.
pub open spec fn first_len(image: Seq<u8>) -> int {
    4 + be_value(image.take(4)) as int
}

/// Whether an image begins with a whole record.
pub open spec fn has_first(image: Seq<u8>) -> bool {
    image.len() >= 4 && first_len(image) <= image.len() && first_len(image) >= 4 + HEADER
}

/// The record that an image begins with.
pub open spec fn first_entry(image: Seq<u8>) -> Entry {
    Entry {
        offset: be_value(image.subrange(4, 12)) as u64,
        timestamp: be_value(image.subrange(12, 28)) as u128,
        payload: image.subrange(28, first_len(image)),
    }
}

/// The records of a log file, up to the first that is not whole.
pub open spec fn entries(image: Seq<u8>) -> Seq<Entry>
    decreases image.len(),
{
    if has_first(image) {
        seq![first_entry(image)] + entries(image.skip(first_len(image)))
    } else {
        Seq::empty()
    }
}

/// The records at `from` or later.
pub open spec fn since(es: Seq<Entry>, from: Offset) -> Seq<Entry>
    decreases es.len(),
{
    if es.len() == 0 {
        Seq::empty()
    } else if es.last().offset >= from {
        since(es.drop_last(), from).push(es.last())
    } else {
        since(es.drop_last(), from)
    }
}

/// How many bytes the whole records of a log file take up. What follows them
/// is a record that was cut short.
pub open spec fn whole(image: Seq<u8>) -> int
    decreases image.len(),
{
    if has_first(image) {
        first_len(image) + whole(image.skip(first_len(image)))
    } else {
        0
    }
}

/// The offset that follows a log's last record.
pub open spec fn offset_after(es: Seq<Entry>) -> int {
    if es.len() == 0 {
        1
    } else {
        es.last().offset + 1
    }
}

/// Reads the records of a log file and counts the bytes that they take up.
fn scan(image: &[u8]) -> (r: (Vec<LogMessage>, usize))
    ensures
        entry_views(r.0@) == entries(image@),
        r.1 == whole(image@),
{
    let mut out: Vec<LogMessage> = Vec::new();
    let mut at: usize = 0;
    proof {
        lemma_be_limits();
        assert(image@.skip(0) =~= image@);
        assert(entry_views(out@) + entries(image@) =~= entries(image@));
    }
    loop
        invariant
            at <= image.len(),
            entries(image@) == entry_views(out@) + entries(image@.skip(at as int)),
            whole(image@) == at + whole(image@.skip(at as int)),
        decreases image.len() - at,
    {
        let ghost rest = image@.skip(at as int);
        let left: usize = image.len() - at;
        if left < 4 {
            assert(entry_views(out@) + entries(rest) =~= entry_views(out@));
            return (out, at);
        }
        let body: u128 = get_be(image, at, 4);
        assert(image@.subrange(at as int, at + 4) =~= rest.take(4));
        if body > (left - 4) as u128 || body < HEADER as u128 {
            assert(!has_first(rest));
            assert(entry_views(out@) + entries(rest) =~= entry_views(out@));
            return (out, at);
        }
        let len: usize = 4 + body as usize;
        assert(len == first_len(rest));
        let offset: u128 = get_be(image, at + 4, 8);
        let timestamp: u128 = get_be(image, at + 12, 16);
        let payload = slice_to_vec(slice_subrange(image, at + 28, at + len));
        proof {
            assert(image@.subrange(at + 4, at + 12) =~= rest.subrange(4, 12));
            assert(image@.subrange(at + 12, at + 28) =~= rest.subrange(12, 28));
            assert(image@.subrange(at + 28, at + len) =~= rest.subrange(28, len as int));
            crate::bytes::lemma_be_value(rest.subrange(4, 12));
            lemma_be_limits();
            assert(rest.skip(len as int) =~= image@.skip(at + len));
        }
        let ghost before = entry_views(out@);
        let m = LogMessage { offset: offset as u64, timestamp, payload };
        let ghost mv = m@;
        out.push(m);
        proof {
            assert(mv == first_entry(rest));
            assert(entry_views(out@) =~= before.push(mv));
            assert(before + (seq![mv] + entries(rest.skip(len as int))) =~= before.push(mv)
                + entries(rest.skip(len as int)));
        }
        at = at + len;
    }
}

/// Reads the records of a log file.
pub fn replay(image: &[u8]) -> (out: Vec<LogMessage>)
    ensures
        entry_views(out@) == entries(image@),
{
    scan(image).0
}

/// Where the whole records of a log file end. A file is cut to this length
/// when its log is opened, so that a record that a crash cut short does not
/// stand before what is appended later.
pub fn whole_len(image: &[u8]) -> (n: usize)
    ensures
        n == whole(image@),
        n <= image@.len(),
        image@.take(n as int) == frames(entries(image@)),
        entries(image@.take(n as int)) == entries(image@),
{
    proof {
        law_whole_part_is_frames(image@);
    }
    scan(image).1
}

/// An append on its way to the writer of its file.
#[derive(Debug, Clone)]
pub struct WriteRequest {
    pub file_id: usize,
    pub offset: Offset,
    pub framed: Vec<u8>,
}

/// Hands out offsets for one log file.
pub struct MessageLog {
    next_offset: Offset,
    file_id: usize,
}

/// A log by its contents: the offset of its next record, and its file.
pub ghost struct LogState {
    pub next: Offset,
    pub file_id: usize,
}

impl View for MessageLog {
    type V = LogState;

    closed spec fn view(&self) -> LogState {
        LogState { next: self.next_offset, file_id: self.file_id }
    }
}

impl MessageLog {
    /// The log of a file that holds `image` (empty where there is no file
    /// yet). `None` where the last record's offset is the largest there is.
    pub fn open(image: &[u8], file_id: usize) -> (r: Option<MessageLog>)
        ensures
            match r {
                Some(log) => log@.file_id == file_id && log@.next == offset_after(entries(image@)),
                None => offset_after(entries(image@)) > u64::MAX,
            },
    {
        let existing = replay(image);
        let ghost es = entries(image@);
        if existing.len() == 0 {
            Some(MessageLog { next_offset: 1, file_id })
        } else {
            let last: u64 = existing[existing.len() - 1].offset;
            assert(es.last() == existing@.last()@);
            if last == u64::MAX {
                None
            } else {
                Some(MessageLog { next_offset: last + 1, file_id })
            }
        }
    }

    /// Gives the next offset to a payload and frames it for the writer.
    pub fn append(&mut self, timestamp: u128, payload: &[u8]) -> (req: WriteRequest)
        requires
            old(self)@.next < u64::MAX,
            payload_fits(payload@.len()),
            payload@.len() + 28 <= usize::MAX,
        ensures
            final(self)@ == (LogState { next: (old(self)@.next + 1) as u64, ..old(self)@ }),
            req.file_id == old(self)@.file_id,
            req.offset == old(self)@.next,
            req.framed@ == frame(
                Entry { offset: old(self)@.next, timestamp, payload: payload@ },
            ),
    {
        let offset: u64 = self.next_offset;
        let mut framed: Vec<u8> = Vec::new();
        put_be(&mut framed, (HEADER + payload.len()) as u128, 4);
        put_be(&mut framed, offset as u128, 8);
        put_be(&mut framed, timestamp, 16);
        let ghost header = framed@;
        let mut body = slice_to_vec(payload);
        framed.append(&mut body);
        proof {
            let e = Entry { offset, timestamp, payload: payload@ };
            assert(framed@ =~= header + payload@);
            assert(framed@ =~= frame(e));
        }
        self.next_offset = offset + 1;
        WriteRequest { file_id: self.file_id, offset, framed }
    }

    /// Takes back the last append, which no writer accepted.
    pub fn withdraw(&mut self, req: &WriteRequest)
        requires
            old(self)@.next == req.offset + 1,
        ensures
            final(self)@ == (LogState { next: req.offset, ..old(self)@ }),
    {
        self.next_offset = req.offset;
    }

    /// The records of the log's file, `image`, at `from` or later.
    pub fn read_from(image: &[u8], from: Offset) -> (out: Vec<LogMessage>)
        ensures
            entry_views(out@) == since(entries(image@), from),
    {
        let mut all = replay(image);
        let ghost es = entries(image@);
        let mut out: Vec<LogMessage> = Vec::new();
        let mut i: usize = 0;
        assert(entry_views(out@) =~= since(es.take(0), from));
        while i < all.len()
            invariant
                i <= all.len(),
                entry_views(all@) == es,
                entry_views(out@) == since(es.take(i as int), from),
            decreases all.len() - i,
        {
            assert(es.take(i + 1).drop_last() =~= es.take(i as int));
            assert(es[i as int] == all@[i as int]@);
            if all[i].offset >= from {
                let ghost before = entry_views(out@);
                let m = LogMessage {
                    offset: all[i].offset,
                    timestamp: all[i].timestamp,
                    payload: slice_to_vec(all[i].payload.as_slice()),
                };
                let ghost mv = m@;
                out.push(m);
                assert(entry_views(out@) =~= before.push(mv));
            }
            i = i + 1;
        }
        assert(es.take(i as int) =~= es);
        out
    }

    pub fn next_offset(&self) -> (o: Offset)
        ensures
            o == self@.next,
    {
        self.next_offset
    }
}

/// The error of an append whose writer has stopped.
pub fn writer_gone() -> (e: MessagingError)
    ensures
        e matches MessagingError::Io(m) && m@ == "message-log writer thread is no longer running"@,
{
    MessagingError::Io("message-log writer thread is no longer running".to_owned())
}

/// What an append returns for the writer's answer: `None` where the writer
/// stopped before it answered.
pub fn acknowledged(offset: Offset, answer: Option<Result<(), String>>) -> (r: Result<
    Offset,
    MessagingError,
>)
    ensures
        match answer {
            Some(Ok(())) => r == Ok::<Offset, MessagingError>(offset),
            Some(Err(e)) => r == Err::<Offset, MessagingError>(MessagingError::Io(e)),
            None => r matches Err(MessagingError::Io(m)) && m@
                == "message-log writer thread is no longer running"@,
        },
{
    match answer {
        Some(Ok(())) => Ok(offset),
        Some(Err(e)) => Err(MessagingError::Io(e)),
        None => Err(writer_gone()),
    }
}

proof fn lemma_frame_parts(e: Entry, rest: Seq<u8>)
    requires
        fits_frame(e),
    ensures
        has_first(frame(e) + rest),
        first_len(frame(e) + rest) == frame(e).len(),
        first_entry(frame(e) + rest) == e,
        frame(e).len() == 28 + e.payload.len(),
{
    let image = frame(e) + rest;
    lemma_be_limits();
    lemma_be_round_trip(HEADER as nat + e.payload.len(), 4);
    lemma_be_round_trip(e.offset as nat, 8);
    lemma_be_round_trip(e.timestamp as nat, 16);
    assert(image.take(4) =~= be_bytes(HEADER as nat + e.payload.len(), 4));
    assert(image.subrange(4, 12) =~= be_bytes(e.offset as nat, 8));
    assert(image.subrange(12, 28) =~= be_bytes(e.timestamp as nat, 16));
    assert(image.subrange(28, first_len(image)) =~= e.payload);
}

/// A whole record before any bytes is read first, and the bytes are read as
/// they would be alone.
pub proof fn law_frame_reads_back(e: Entry, rest: Seq<u8>)
    requires
        fits_frame(e),
    ensures
        entries(frame(e) + rest) == seq![e] + entries(rest),
{
    lemma_frame_parts(e, rest);
    assert((frame(e) + rest).skip(frame(e).len() as int) =~= rest);
}

proof fn lemma_frames_then(es: Seq<Entry>, rest: Seq<u8>)
    requires
        forall|i: int| 0 <= i < es.len() ==> fits_frame(#[trigger] es[i]),
    ensures
        entries(frames(es) + rest) == es + entries(rest),
    decreases es.len(),
{
    if es.len() == 0 {
        assert(frames(es) + rest =~= rest);
        assert(es + entries(rest) =~= entries(rest));
    } else {
        let front = es.drop_last();
        let e = es.last();
        assert forall|i: int| 0 <= i < front.len() implies fits_frame(#[trigger] front[i]) by {
            assert(front[i] == es[i]);
        }
        lemma_frames_then(front, frame(e) + rest);
        assert(fits_frame(es[es.len() - 1]));
        law_frame_reads_back(e, rest);
        assert(frames(es) + rest =~= frames(front) + (frame(e) + rest));
        assert(front + (seq![e] + entries(rest)) =~= es + entries(rest));
    }
}

/// A file to which records were appended reads back as those records.
pub proof fn law_replay_of_appends(es: Seq<Entry>)
    requires
        forall|i: int| 0 <= i < es.len() ==> fits_frame(#[trigger] es[i]),
    ensures
        entries(frames(es)) == es,
{
    lemma_frames_then(es, Seq::empty());
    assert(frames(es) + Seq::<u8>::empty() =~= frames(es));
    assert(es + entries(Seq::<u8>::empty()) =~= es);
}

/// A file whose last append was cut short at any byte reads back as the
/// records before it.
pub proof fn law_torn_append_is_dropped(es: Seq<Entry>, e: Entry, cut: int)
    requires
        forall|i: int| 0 <= i < es.len() ==> fits_frame(#[trigger] es[i]),
        fits_frame(e),
        0 <= cut < frame(e).len(),
    ensures
        entries(frames(es) + frame(e).take(cut)) == es,
{
    let torn = frame(e).take(cut);
    lemma_frames_then(es, torn);
    lemma_frame_parts(e, Seq::empty());
    assert(frame(e) + Seq::<u8>::empty() =~= frame(e));
    if cut >= 4 {
        assert(torn.take(4) =~= frame(e).take(4));
    }
    assert(!has_first(torn));
    assert(es + entries(torn) =~= es);
}

proof fn lemma_first_frame(image: Seq<u8>)
    requires
        has_first(image),
    ensures
        frame(first_entry(image)) == image.take(first_len(image)),
        fits_frame(first_entry(image)),
{
    let n = first_len(image);
    let e = first_entry(image);
    crate::bytes::lemma_be_value(image.take(4));
    crate::bytes::lemma_be_value(image.subrange(4, 12));
    crate::bytes::lemma_be_value(image.subrange(12, 28));
    lemma_be_limits();
    assert(e.payload.len() == n - 28);
    assert(frame(e) =~= image.take(4) + image.subrange(4, 12) + image.subrange(12, 28)
        + image.subrange(28, n));
    assert(frame(e) =~= image.take(n));
}

proof fn lemma_frames_front(e: Entry, es: Seq<Entry>)
    ensures
        frames(seq![e] + es) == frame(e) + frames(es),
    decreases es.len(),
{
    let all = seq![e] + es;
    if es.len() == 0 {
        assert(all.drop_last() =~= Seq::<Entry>::empty());
        assert(frames(all.drop_last()) =~= Seq::<u8>::empty());
        assert(all.last() == e);
        assert(frames(all) =~= frame(e));
        assert(frame(e) + frames(es) =~= frame(e));
    } else {
        lemma_frames_front(e, es.drop_last());
        assert(all.drop_last() =~= seq![e] + es.drop_last());
        assert(frames(all) =~= frame(e) + frames(es));
    }
}

/// The whole records of a file are the frames of what is read from it, and a
/// file cut to them reads as the file did.
pub proof fn law_whole_part_is_frames(image: Seq<u8>)
    ensures
        0 <= whole(image) <= image.len(),
        image.take(whole(image)) == frames(entries(image)),
        entries(image.take(whole(image))) == entries(image),
        forall|i: int| 0 <= i < entries(image).len() ==> fits_frame(#[trigger] entries(image)[i]),
    decreases image.len(),
{
    if has_first(image) {
        let n = first_len(image);
        let rest = image.skip(n);
        lemma_first_frame(image);
        law_whole_part_is_frames(rest);
        lemma_frames_front(first_entry(image), entries(rest));
        assert(image.take(whole(image)) =~= image.take(n) + rest.take(whole(rest)));
        assert forall|i: int| 0 <= i < entries(image).len() implies fits_frame(
            #[trigger] entries(image)[i],
        ) by {
            if i > 0 {
                assert(entries(image)[i] == entries(rest)[i - 1]);
            }
        }
    } else {
        assert(image.take(0) =~= Seq::<u8>::empty());
    }
    law_replay_of_appends(entries(image));
}

/// Whatever a crash left at the end of a file: once the file is cut to its
/// whole records, a record that is appended reads back after them.
pub proof fn law_append_after_torn_tail(image: Seq<u8>, e: Entry)
    requires
        fits_frame(e),
    ensures
        entries(image.take(whole(image)) + frame(e)) == entries(image).push(e),
        whole(image.take(whole(image)) + frame(e)) == whole(image) + frame(e).len(),
{
    let es = entries(image);
    law_whole_part_is_frames(image);
    let after = image.take(whole(image)) + frame(e);
    assert(es.push(e).drop_last() =~= es);
    assert(after =~= frames(es.push(e)));
    assert forall|i: int| 0 <= i < es.push(e).len() implies fits_frame(
        #[trigger] es.push(e)[i],
    ) by {
        if i < es.len() {
            assert(es.push(e)[i] == es[i]);
        }
    }
    law_replay_of_appends(es.push(e));
    law_whole_part_is_frames(after);
    assert(after.take(whole(after)) == after);
}

/// Whether every record has a successor's offset.
pub open spec fn has_room(es: Seq<Entry>) -> bool {
    forall|i: int| 0 <= i < es.len() ==> (#[trigger] es[i]).offset < u64::MAX
}

/// Whether no record of a file has the largest offset there is.
pub fn image_has_room(image: &[u8]) -> (r: bool)
    ensures
        r == has_room(entries(image@)),
{
    let all = replay(image);
    let ghost es = entries(image@);
    let mut i: usize = 0;
    while i < all.len()
        invariant
            i <= all.len(),
            entry_views(all@) == es,
            es == entries(image@),
            forall|j: int| 0 <= j < i ==> (#[trigger] es[j]).offset < u64::MAX,
        decreases all.len() - i,
    {
        assert(es[i as int] == all@[i as int]@);
        if all[i].offset == u64::MAX {
            assert(es[i as int].offset == u64::MAX);
            return false;
        }
        i = i + 1;
    }
    true
}

/// Whether records have the offsets 1, 2, 3 and so on.
pub open spec fn numbered(es: Seq<Entry>) -> bool {
    forall|i: int| 0 <= i < es.len() ==> (#[trigger] es[i]).offset == i + 1
}

/// Whether a log hands out the offset after the records of its file, which
/// are numbered from 1.
pub open spec fn in_step(log: LogState, es: Seq<Entry>) -> bool {
    numbered(es) && log.next == es.len() + 1
}

/// Appending keeps a log in step with its file: every record gets the offset
/// after the one before it.
pub proof fn law_append_keeps_step(log: LogState, es: Seq<Entry>, timestamp: u128, payload: Seq<u8>)
    requires
        in_step(log, es),
        log.next < u64::MAX,
    ensures
        in_step(
            LogState { next: (log.next + 1) as u64, ..log },
            es.push(Entry { offset: log.next, timestamp, payload }),
        ),
{
}

/// A log that is opened again on its file goes on where it stopped.
pub proof fn law_reopen_resumes(log: LogState, es: Seq<Entry>)
    requires
        in_step(log, es),
        forall|i: int| 0 <= i < es.len() ==> fits_frame(#[trigger] es[i]),
    ensures
        offset_after(entries(frames(es))) == log.next,
{
    law_replay_of_appends(es);
}

/// Of records numbered from 1, those since `from` are the ones after the
/// first `from - 1`.
pub proof fn law_since_of_numbered(es: Seq<Entry>, from: Offset)
    requires
        numbered(es),
        1 <= from,
    ensures
        since(es, from) == if from <= es.len() {
            es.skip(from - 1)
        } else {
            Seq::empty()
        },
    decreases es.len(),
{
    if es.len() > 0 {
        let front = es.drop_last();
        assert forall|i: int| 0 <= i < front.len() implies (#[trigger] front[i]).offset == i + 1 by {
            assert(front[i] == es[i]);
        }
        law_since_of_numbered(front, from);
        assert(es[es.len() - 1].offset == es.len());
        if from <= front.len() {
            assert(front.skip(from - 1).push(es.last()) =~= es.skip(from - 1));
        } else if from == es.len() {
            assert(Seq::<Entry>::empty().push(es.last()) =~= es.skip(from - 1));
        }
    }
}

/// Every record since `from` is a record of the log, at `from` or later.
pub proof fn lemma_since_members(es: Seq<Entry>, from: Offset)
    ensures
        forall|i: int|
            0 <= i < since(es, from).len() ==> (#[trigger] since(es, from)[i]).offset >= from
                && es.contains(since(es, from)[i]),
    decreases es.len(),
{
    if es.len() > 0 {
        let front = es.drop_last();
        lemma_since_members(front, from);
        let s = since(es, from);
        assert forall|i: int| 0 <= i < s.len() implies (#[trigger] s[i]).offset >= from
            && es.contains(s[i]) by {
            if i < since(front, from).len() {
                assert(s[i] == since(front, from)[i]);
                let k = front.index_of(s[i]);
                assert(es[k] == s[i]);
            } else {
                assert(es[es.len() - 1] == s[i]);
            }
        }
    }
}

/// A record is its length after the length field, its offset and its time,
/// most significant byte first, and its payload.
pub proof fn law_record_layout(e: Entry)
    requires
        e.payload.len() + 24 < 0x1_0000_0000,
    ensures
        frame(e).len() == 28 + e.payload.len(),
        be_value(frame(e).subrange(0, 4)) == 24 + e.payload.len(),
        be_value(frame(e).subrange(4, 12)) == e.offset,
        be_value(frame(e).subrange(12, 28)) == e.timestamp,
        frame(e).skip(28) == e.payload,
{
    lemma_be_limits();
    lemma_be_round_trip(HEADER as nat + e.payload.len(), 4);
    lemma_be_round_trip(e.offset as nat, 8);
    lemma_be_round_trip(e.timestamp as nat, 16);
    let f = frame(e);
    assert(f.subrange(0, 4) =~= be_bytes(HEADER as nat + e.payload.len(), 4));
    assert(f.subrange(4, 12) =~= be_bytes(e.offset as nat, 8));
    assert(f.subrange(12, 28) =~= be_bytes(e.timestamp as nat, 16));
    assert(f.skip(28) =~= e.payload);
}

/// Every payload fits a record whose length fits the length field.
pub proof fn law_every_payload_below_the_limit_fits(n: nat, e: Entry)
    ensures
        payload_fits(n) <==> n + 24 < 0x1_0000_0000,
        fits_frame(e) <==> e.payload.len() + 24 < 0x1_0000_0000,
{
}

/// Reading from an offset gives all records with that offset or a later one,
/// and no others, in the order of the log.
pub proof fn law_reading_gives_all_later_records(es: Seq<Entry>, from: Offset)
    ensures
        since(es, from) == es.filter(|e: Entry| e.offset >= from),
        forall|i: int|
            0 <= i < es.len() && (#[trigger] es[i]).offset >= from ==> since(es, from).contains(
                es[i],
            ),
    decreases es.len(),
{
    reveal(Seq::filter);
    if es.len() > 0 {
        let front = es.drop_last();
        law_reading_gives_all_later_records(front, from);
        assert forall|i: int| 0 <= i < es.len() && (#[trigger] es[i]).offset >= from implies since(
            es,
            from,
        ).contains(es[i]) by {
            let all = since(es, from);
            if i < front.len() {
                assert(front[i] == es[i]);
                let k = since(front, from).index_of(es[i]);
                assert(all[k] == es[i]);
            } else {
                assert(all[all.len() - 1] == es[i]);
            }
        }
    }
}

/// The first record of a log has offset 1, and each later one the offset after
/// the last.
pub proof fn law_offsets_count_up(es: Seq<Entry>, e: Entry)
    ensures
        offset_after(Seq::empty()) == 1,
        offset_after(es.push(e)) == e.offset + 1,
{
}

/// What is read is what the records hold, one by one.
pub proof fn law_messages_are_the_records(v: Seq<LogMessage>)
    ensures
        entry_views(v).len() == v.len(),
        forall|i: int|
            0 <= i < v.len() ==> (#[trigger] entry_views(v)[i]).offset == v[i].offset
                && entry_views(v)[i].timestamp == v[i].timestamp && entry_views(v)[i].payload
                == v[i].payload@,
{
}

/// A file whose first record is not whole, or says less than a record holds,
/// reads as empty; any other file reads as that record and what follows it.
pub proof fn law_reading_stops_at_the_first_broken_record(image: Seq<u8>)
    ensures
        ({
            let n = be_value(image.subrange(0, 4));
            if image.len() < 4 || n < 24 || 4 + n > image.len() {
                entries(image).len() == 0 && whole(image) == 0
            } else {
                &&& entries(image).len() == 1 + entries(image.skip(4 + n as int)).len()
                &&& entries(image).skip(1) == entries(image.skip(4 + n as int))
                &&& entries(image)[0].offset == be_value(image.subrange(4, 12))
                &&& entries(image)[0].timestamp == be_value(image.subrange(12, 28))
                &&& entries(image)[0].payload == image.subrange(28, 4 + n as int)
                &&& whole(image) == 4 + n + whole(image.skip(4 + n as int))
            }
        }),
{
    if image.len() >= 4 {
        assert(image.subrange(0, 4) =~= image.take(4));
        let n = be_value(image.subrange(0, 4));
        if 24 <= n && 4 + n <= image.len() {
            lemma_be_limits();
            crate::bytes::lemma_be_value(image.subrange(4, 12));
            crate::bytes::lemma_be_value(image.subrange(12, 28));
            assert(entries(image).skip(1) =~= entries(image.skip(4 + n as int)));
        }
    }
}

/// A log has room as long as no record has the largest offset there is.
pub proof fn law_room_is_below_the_largest_offset(es: Seq<Entry>)
    ensures
        !has_room(es) <==> exists|i: int|
            0 <= i < es.len() && (#[trigger] es[i]).offset == 0xffff_ffff_ffff_ffff,
{
}

} // verus!
