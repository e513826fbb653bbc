//! Partitioned, replayable event streams with durable consumer groups.
//!
//! A record goes to the partition that its key hashes to, so records with one
//! key are ordered among each other. Each partition is a durable log with a
//! live fan-out. A consumer group has one committed offset for each
//! partition; committed offsets are kept in a small file for each group, so a
//! group goes on after a restart where it last committed.

use crate::broadcast::{
    given_records, hear_records, record_channel, record_limit, records_before, send_record,
};
use crate::bytes::{
    be_bytes, be_limit, be_value, get_be, lemma_be_limits, lemma_be_round_trip, put_be,
};
use crate::error::MessagingError;
use crate::log::{
    entries, frame, payload_fits, since, Entry, LogState, MessageLog, Offset, WriteRequest,
};
use crate::text::{after_prefix, before_suffix, begins, concat3, ends, show, utf8_text};
use std::sync::Arc;
use tokio::sync::broadcast::{Receiver, Sender};
use vstd::hash_map::StringHashMap;
use vstd::prelude::*;
use vstd::slice::slice_to_vec;
use vstd::string::StringExecFns;
use vstd::utf8::{decode_utf8, encode_utf8, valid_utf8};

verus! {

broadcast use vstd::hash_map::group_hash_map_axioms;

pub const FNV_OFFSET: u64 = 0xcbf29ce484222325;

pub const FNV_PRIME: u64 = 0x100000001b3;

/// The 64-bit FNV-1a hash.
pub open spec fn fnv(bytes: Seq<u8>) -> u64
    decreases bytes.len(),
{
    if bytes.len() == 0 {
        FNV_OFFSET
    } else {
        (((fnv(bytes.drop_last()) ^ (bytes.last() as u64)) * FNV_PRIME)
            % 0x1_0000_0000_0000_0000) as u64
    }
}

pub fn fnv1a(bytes: &[u8]) -> (h: u64)
    ensures
        h == fnv(bytes@),
{
    let mut hash: u64 = FNV_OFFSET;
    let mut i: usize = 0;
    while i < bytes.len()
        invariant
            i <= bytes.len(),
            hash == fnv(bytes@.take(i as int)),
        decreases bytes.len() - i,
    {
        assert(bytes@.take(i + 1).drop_last() =~= bytes@.take(i as int));
        hash = hash ^ (bytes[i] as u64);
        hash = hash.wrapping_mul(FNV_PRIME);
        i = i + 1;
    }
    assert(bytes@.take(i as int) =~= bytes@);
    hash
}

/// A byte that stands for itself in a file name.
pub open spec fn is_plain(b: u8) -> bool {
    ||| 0x30 <= b <= 0x39
    ||| 0x41 <= b <= 0x5a
    ||| 0x61 <= b <= 0x7a
    ||| b == 0x2d
    ||| b == 0x5f
}

/// The lower-case hexadecimal digit of a number below 16.
pub open spec fn hex_digit(d: int) -> u8 {
    if d < 10 {
        (0x30 + d) as u8
    } else {
        (0x61 + d - 10) as u8
    }
}

/// The number that a hexadecimal digit of either case stands for.
pub open spec fn hex_value(b: u8) -> Option<int> {
    if 0x30 <= b <= 0x39 {
        Some(b - 0x30)
    } else if 0x61 <= b <= 0x66 {
        Some(b - 0x61 + 10)
    } else if 0x41 <= b <= 0x46 {
        Some(b - 0x41 + 10)
    } else {
        None
    }
}

/// A byte as it stands in a file name: itself, or `%` and two digits.
pub open spec fn escaped(b: u8) -> Seq<u8> {
    if is_plain(b) {
        seq![b]
    } else {
        seq![0x25u8, hex_digit(b as int / 16), hex_digit(b as int % 16)]
    }
}

pub open spec fn escape(bytes: Seq<u8>) -> Seq<u8>
    decreases bytes.len(),
{
    if bytes.len() == 0 {
        Seq::empty()
    } else {
        escape(bytes.drop_last()) + escaped(bytes.last())
    }
}

/// The bytes that a file name stands for.
pub open spec fn unescape(name: Seq<u8>) -> Option<Seq<u8>>
    decreases name.len(),
{
    if name.len() == 0 {
        Some(Seq::empty())
    } else if name[0] == 0x25 {
        if name.len() < 3 {
            None
        } else {
            match (hex_value(name[1]), hex_value(name[2]), unescape(name.skip(3))) {
                (Some(hi), Some(lo), Some(rest)) => Some(seq![(hi * 16 + lo) as u8] + rest),
                _ => None,
            }
        }
    } else {
        match unescape(name.skip(1)) {
            Some(rest) => Some(seq![name[0]] + rest),
            None => None,
        }
    }
}

/// A group's name as it stands in a file name. The empty name is written
/// `default`.
pub open spec fn encoded_group(group: Seq<char>) -> Seq<char> {
    if group.len() == 0 {
        "default"@
    } else {
        ascii_chars(escape(encode_utf8(group)))
    }
}

/// The group that a part of a file name stands for.
pub open spec fn decoded_group(name: Seq<char>) -> Option<Seq<char>> {
    match unescape(encode_utf8(name)) {
        Some(bytes) => if valid_utf8(bytes) {
            Some(decode_utf8(bytes))
        } else {
            None
        },
        None => None,
    }
}

fn hex_char(d: u8) -> (c: u8)
    requires
        d < 16,
    ensures
        c == hex_digit(d as int),
{
    if d < 10 {
        0x30 + d
    } else {
        0x61 + (d - 10)
    }
}

fn hex_number(b: u8) -> (r: Option<u8>)
    ensures
        match r {
            Some(d) => d < 16 && hex_value(b) == Some(d as int),
            None => hex_value(b) is None,
        },
{
    if 0x30 <= b && b <= 0x39 {
        Some(b - 0x30)
    } else if 0x61 <= b && b <= 0x66 {
        Some(b - 0x61 + 10)
    } else if 0x41 <= b && b <= 0x46 {
        Some(b - 0x41 + 10)
    } else {
        None
    }
}

/// The characters of ASCII bytes.
pub open spec fn ascii_chars(bytes: Seq<u8>) -> Seq<char> {
    bytes.map_values(|b: u8| b as char)
}

pub open spec fn all_ascii(bytes: Seq<u8>) -> bool {
    forall|i: int| 0 <= i < bytes.len() ==> #[trigger] bytes[i] < 0x80
}

proof fn lemma_ascii_text(bytes: Seq<u8>)
    requires
        all_ascii(bytes),
    ensures
        encode_utf8(ascii_chars(bytes)) == bytes,
{
    let chars = ascii_chars(bytes);
    assert(vstd::utf8::is_ascii_chars(chars)) by {
        assert forall|i: int| 0 <= i < chars.len() implies (0 <= #[trigger] chars[i] as nat) && (
        chars[i] as nat) < 128 by {
            assert(bytes[i] < 0x80);
        }
    }
    vstd::utf8::is_ascii_chars_encode_utf8(chars);
    assert(encode_utf8(chars) =~= bytes);
}

proof fn lemma_escape_ascii(bytes: Seq<u8>)
    ensures
        all_ascii(escape(bytes)),
    decreases bytes.len(),
{
    if bytes.len() > 0 {
        lemma_escape_ascii(bytes.drop_last());
    }
}

/// A group's name for use in a file name.
pub fn encode_group(group: &str) -> (out: String)
    ensures
        out@ == encoded_group(group@),
{
    let bytes = group.as_bytes();
    let mut out = String::new();
    let mut i: usize = 0;
    assert(ascii_chars(escape(bytes@.take(0))) =~= Seq::<char>::empty());
    while i < bytes.len()
        invariant
            i <= bytes.len(),
            out@ == ascii_chars(escape(bytes@.take(i as int))),
        decreases bytes.len() - i,
    {
        let b: u8 = bytes[i];
        let ghost before = out@;
        let ghost done = escape(bytes@.take(i as int));
        assert(bytes@.take(i + 1).drop_last() =~= bytes@.take(i as int));
        if (0x30 <= b && b <= 0x39) || (0x41 <= b && b <= 0x5a) || (0x61 <= b && b <= 0x7a) || b
            == 0x2d || b == 0x5f {
            out.push(b as char);
        } else {
            out.push('%');
            out.push(hex_char(b / 16) as char);
            out.push(hex_char(b % 16) as char);
        }
        assert(out@ =~= ascii_chars(done + escaped(b)));
        i = i + 1;
    }
    assert(bytes@.take(i as int) =~= bytes@);
    proof {
        crate::text::lemma_bytes_injective(group@, Seq::empty());
        assert(encode_utf8(Seq::<char>::empty()) =~= Seq::<u8>::empty());
        if bytes@.len() == 0 {
            assert(bytes@ =~= Seq::<u8>::empty());
        }
        if group@.len() == 0 {
            assert(group@ =~= Seq::<char>::empty());
        }
    }
    if bytes.len() == 0 {
        return "default".to_owned();
    }
    out
}

/// The group that a part of a file name stands for.
pub fn decode_group(name: &str) -> (r: Option<String>)
    ensures
        match r {
            Some(g) => decoded_group(name@) == Some(g@),
            None => decoded_group(name@) is None,
        },
{
    let bytes = name.as_bytes();
    let mut out: Vec<u8> = Vec::new();
    let mut i: usize = 0;
    assert(bytes@.skip(0) =~= bytes@);
    proof {
        match unescape(bytes@) {
            Some(all) => {
                assert(out@ + all =~= all);
            },
            None => {},
        }
    }
    while i < bytes.len()
        invariant
            i <= bytes.len(),
            bytes@ == encode_utf8(name@),
            unescape(bytes@) == match unescape(bytes@.skip(i as int)) {
                Some(rest) => Some(out@ + rest),
                None => None,
            },
        decreases bytes.len() - i,
    {
        let ghost here = bytes@.skip(i as int);
        let ghost before = out@;
        if bytes[i] == 0x25 {
            if bytes.len() - i < 3 {
                return None;
            }
            assert(here[1] == bytes@[i + 1] && here[2] == bytes@[i + 2]);
            let hi: u8 = match hex_number(bytes[i + 1]) {
                Some(d) => d,
                None => {
                    return None;
                },
            };
            let lo: u8 = match hex_number(bytes[i + 2]) {
                Some(d) => d,
                None => {
                    return None;
                },
            };
            out.push(hi * 16 + lo);
            assert(here.skip(3) =~= bytes@.skip(i + 3));
            proof {
                match unescape(here.skip(3)) {
                    Some(rest) => {
                        assert(before + (seq![(hi * 16 + lo) as u8] + rest) =~= out@ + rest);
                    },
                    None => {},
                }
            }
            i = i + 3;
        } else {
            out.push(bytes[i]);
            assert(here.skip(1) =~= bytes@.skip(i + 1));
            proof {
                match unescape(here.skip(1)) {
                    Some(rest) => {
                        assert(before + (seq![here[0]] + rest) =~= out@ + rest);
                    },
                    None => {},
                }
            }
            i = i + 1;
        }
    }
    assert(bytes@.skip(i as int) =~= Seq::<u8>::empty());
    assert(out@ + Seq::<u8>::empty() =~= out@);
    match utf8_text(out) {
        Some(g) => {
            proof {
                vstd::utf8::encode_utf8_decode_utf8(g@);
            }
            Some(g)
        },
        None => None,
    }
}

/// Offsets in eight bytes each.
pub open spec fn offset_bytes(committed: Seq<Offset>) -> Seq<u8>
    decreases committed.len(),
{
    if committed.len() == 0 {
        Seq::empty()
    } else {
        offset_bytes(committed.drop_last()) + be_bytes(committed.last() as nat, 8)
    }
}

/// A group's offset file: how many offsets, in four bytes, and the offsets.
pub open spec fn offsets_file(committed: Seq<Offset>) -> Seq<u8> {
    be_bytes(committed.len(), 4) + offset_bytes(committed)
}

/// How many offsets a file holds.
pub open spec fn stored_count(file: Seq<u8>) -> nat {
    be_value(file.take(4))
}

/// The offset at a position of a file.
pub open spec fn stored_offset(file: Seq<u8>, i: int) -> Offset {
    be_value(file.subrange(4 + i * 8, 12 + i * 8)) as u64
}

/// How many offsets of a file a stream with `partitions` partitions keeps.
pub open spec fn kept_count(file: Seq<u8>, partitions: nat) -> nat {
    if stored_count(file) < partitions {
        stored_count(file)
    } else {
        partitions
    }
}

/// The committed offsets that a file gives a stream with `partitions`
/// partitions: those that fit, and 0 for partitions that it does not name.
/// There are none where the file is too short for what it should hold.
pub open spec fn parsed_offsets(file: Seq<u8>, partitions: nat) -> Option<Seq<Offset>> {
    if file.len() < 4 || file.len() < 4 + kept_count(file, partitions) * 8 {
        None
    } else {
        Some(
            Seq::new(
                partitions,
                |i: int|
                    if i < kept_count(file, partitions) {
                        stored_offset(file, i)
                    } else {
                        0
                    },
            ),
        )
    }
}

/// The bytes of a group's offset file.
pub fn encode_offsets(committed: &[Offset]) -> (out: Vec<u8>)
    ensures
        out@ == offsets_file(committed@),
{
    let mut out: Vec<u8> = Vec::new();
    put_be(&mut out, committed.len() as u128, 4);
    let ghost head = out@;
    let mut i: usize = 0;
    assert(head =~= be_bytes(committed@.len(), 4));
    assert(head + offset_bytes(committed@.take(0)) =~= head);
    while i < committed.len()
        invariant
            i <= committed.len(),
            out@ == head + offset_bytes(committed@.take(i as int)),
        decreases committed.len() - i,
    {
        assert(committed@.take(i + 1).drop_last() =~= committed@.take(i as int));
        put_be(&mut out, committed[i] as u128, 8);
        assert(out@ =~= head + offset_bytes(committed@.take(i + 1)));
        i = i + 1;
    }
    assert(committed@.take(i as int) =~= committed@);
    out
}

/// Reads a group's offset file.
pub fn parse_offsets(file: &[u8], partitions: usize) -> (r: Option<Vec<Offset>>)
    ensures
        match r {
            Some(v) => parsed_offsets(file@, partitions as nat) == Some(v@),
            None => parsed_offsets(file@, partitions as nat) is None,
        },
{
    if file.len() < 4 {
        return None;
    }
    let stored: u128 = get_be(file, 0, 4);
    proof {
        assert(file@.subrange(0, 4) =~= file@.take(4));
    }
    let count: usize = if stored < partitions as u128 {
        stored as usize
    } else {
        partitions
    };
    assert(count == kept_count(file@, partitions as nat));
    if (file.len() - 4) / 8 < count {
        return None;
    }
    assert(file@.len() >= 4 + count * 8);
    let mut out: Vec<Offset> = Vec::new();
    let mut i: usize = 0;
    while i < partitions
        invariant
            i <= partitions,
            count <= partitions,
            count == kept_count(file@, partitions as nat),
            file.len() >= 4 + count * 8,
            out@.len() == i,
            forall|j: int|
                0 <= j < i ==> #[trigger] out@[j] == (if j < count {
                    stored_offset(file@, j)
                } else {
                    0
                }),
        decreases partitions - i,
    {
        if i < count {
            let value: u128 = get_be(file, 4 + i * 8, 8);
            proof {
                crate::bytes::lemma_be_value(file@.subrange(4 + i * 8, 12 + i * 8));
                lemma_be_limits();
            }
            out.push(value as u64);
        } else {
            out.push(0);
        }
        i = i + 1;
    }
    assert(parsed_offsets(file@, partitions as nat)->0 =~= out@);
    Some(out)
}

pub open spec fn group_file_name(group: Seq<char>) -> Seq<char> {
    "group_"@ + encoded_group(group) + ".off"@
}

/// The name of a group's offset file.
pub fn group_file(group: &str) -> (f: String)
    ensures
        f@ == group_file_name(group@),
{
    concat3("group_", encode_group(group).as_str(), ".off")
}

/// The group whose offset file has a given name.
pub open spec fn group_of_file(name: Seq<char>) -> Option<Seq<char>> {
    if begins(name, "group_"@) && ends(name.skip("group_"@.len() as int), ".off"@) {
        let rest = name.skip("group_"@.len() as int);
        decoded_group(rest.take(rest.len() - ".off"@.len()))
    } else {
        None
    }
}

fn group_named_by(name: &str) -> (r: Option<String>)
    ensures
        match r {
            Some(g) => group_of_file(name@) == Some(g@),
            None => group_of_file(name@) is None,
        },
{
    match after_prefix(name, "group_") {
        Some(rest) => match before_suffix(rest.as_str(), ".off") {
            Some(part) => decode_group(part.as_str()),
            None => None,
        },
        None => None,
    }
}

/// A file of the offsets directory: its name and, where it could be read,
/// what it holds.
pub struct OffsetFile {
    pub name: String,
    pub bytes: Option<Vec<u8>>,
}

/// The offsets that one file gives, and to which group.
pub open spec fn recovered_one(f: OffsetFile, partitions: nat) -> Option<(Seq<char>, Seq<Offset>)> {
    match (group_of_file(f.name@), f.bytes) {
        (Some(g), Some(b)) => match parsed_offsets(b@, partitions) {
            Some(c) => Some((g, c)),
            None => None,
        },
        _ => None,
    }
}

/// The groups of a stream that its offset files give. Files that are not
/// offset files, cannot be read or are too short are passed over.
pub open spec fn recovered(files: Seq<OffsetFile>, partitions: nat) -> Map<Seq<char>, Seq<Offset>>
    decreases files.len(),
{
    if files.len() == 0 {
        Map::empty()
    } else {
        let front = recovered(files.drop_last(), partitions);
        match recovered_one(files.last(), partitions) {
            Some((g, c)) => front.insert(g, c),
            None => front,
        }
    }
}

/// A group's committed offset on each partition; 0 is none yet.
struct GroupCursor {
    committed: Vec<Offset>,
}

/// The committed offsets of groups by their contents.
spec fn cursor_views(m: Map<Seq<char>, GroupCursor>) -> Map<Seq<char>, Seq<Offset>> {
    m.map_values(|c: GroupCursor| c.committed@)
}

fn recover_groups(files: &Vec<OffsetFile>, partitions: usize) -> (out: StringHashMap<GroupCursor>)
    ensures
        cursor_views(out@) == recovered(files@, partitions as nat),
{
    let mut out: StringHashMap<GroupCursor> = StringHashMap::new();
    let mut i: usize = 0;
    assert(cursor_views(out@) =~= Map::empty());
    while i < files.len()
        invariant
            i <= files.len(),
            cursor_views(out@) == recovered(files@.take(i as int), partitions as nat),
        decreases files.len() - i,
    {
        assert(files@.take(i + 1).drop_last() =~= files@.take(i as int));
        let f = &files[i];
        let ghost before = out@;
        match group_named_by(f.name.as_str()) {
            Some(group) => match &f.bytes {
                Some(bytes) => match parse_offsets(bytes.as_slice(), partitions) {
                    Some(committed) => {
                        let ghost (gv, cv) = (group@, committed@);
                        out.insert(group, GroupCursor { committed });
                        assert(cursor_views(out@) =~= cursor_views(before).insert(gv, cv));
                    },
                    None => {},
                },
                None => {},
            },
            None => {},
        }
        i = i + 1;
    }
    assert(files@.take(i as int) =~= files@);
    out
}

/// A record on its way to a consumer. Partition and offset are what a
/// consumer commits.
#[derive(Clone, Debug)]
pub struct StreamRecord {
    pub partition: usize,
    pub offset: Offset,
    pub payload: Arc<Vec<u8>>,
}

impl View for StreamRecord {
    type V = (usize, Offset, Seq<u8>);

    open spec fn view(&self) -> (usize, Offset, Seq<u8>) {
        (self.partition, self.offset, self.payload@)
    }
}

pub open spec fn record_views(v: Seq<StreamRecord>) -> Seq<(usize, Offset, Seq<u8>)> {
    v.map_values(|r: StreamRecord| r@)
}

/// Log records as records of a partition.
pub open spec fn as_records(partition: usize, es: Seq<Entry>) -> Seq<(usize, Offset, Seq<u8>)> {
    es.map_values(|e: Entry| (partition, e.offset, e.payload))
}

fn records_since(partition: usize, image: &[u8], from: Offset) -> (out: Vec<StreamRecord>)
    ensures
        record_views(out@) == as_records(partition, since(entries(image@), from)),
{
    let msgs = MessageLog::read_from(image, from);
    let ghost es = since(entries(image@), from);
    let mut out: Vec<StreamRecord> = Vec::new();
    let mut i: usize = 0;
    while i < msgs.len()
        invariant
            i <= msgs.len(),
            crate::log::entry_views(msgs@) == es,
            out@.len() == i,
            forall|j: int|
                0 <= j < i ==> (#[trigger] out@[j])@ == (partition, es[j].offset, es[j].payload),
        decreases msgs.len() - i,
    {
        assert(es[i as int] == msgs@[i as int]@);
        out.push(
            StreamRecord {
                partition,
                offset: msgs[i].offset,
                payload: Arc::new(slice_to_vec(msgs[i].payload.as_slice())),
            },
        );
        i = i + 1;
    }
    assert(record_views(out@) =~= as_records(partition, es));
    out
}

/// The record that an append to a partition fans out, where the append
/// succeeded.
pub fn record_of(
    partition: usize,
    payload: Vec<u8>,
    appended: Result<Offset, MessagingError>,
) -> (r: Result<StreamRecord, MessagingError>)
    ensures
        match appended {
            Ok(o) => r matches Ok(rec) && rec@ == (partition, o, payload@),
            Err(e) => r == Err::<StreamRecord, MessagingError>(e),
        },
{
    match appended {
        Ok(offset) => Ok(StreamRecord { partition, offset, payload: Arc::new(payload) }),
        Err(e) => Err(e),
    }
}

/// One partition: a durable log and a live fan-out.
struct Partition {
    log: MessageLog,
    tx: Sender<StreamRecord>,
}

/// A partitioned stream.
pub struct Stream {
    name: String,
    partitions: Vec<Partition>,
    groups: StringHashMap<GroupCursor>,
}

/// A stream by its contents.
pub ghost struct StreamState {
    pub name: Seq<char>,
    pub logs: Seq<LogState>,
    /// The committed offsets of each group, one for each partition.
    pub groups: Map<Seq<char>, Seq<Offset>>,
    /// What went out to the subscribers of each partition, in order.
    pub sent: Seq<Seq<(usize, Offset, Seq<u8>)>>,
    /// How many records a subscriber of each partition can lag behind, at
    /// least.
    pub capacities: Seq<usize>,
}

impl StreamState {
    /// What stays true of a stream: it has a partition, a fan-out for each,
    /// and each group has an offset for each.
    pub open spec fn wf(self) -> bool {
        &&& self.logs.len() > 0
        &&& self.sent.len() == self.logs.len()
        &&& forall|g: Seq<char>| #[trigger]
            self.groups.contains_key(g) ==> self.groups[g].len() == self.logs.len()
    }

    /// A group's committed offsets; a group never heard of has none.
    pub open spec fn cursor(self, g: Seq<char>) -> Seq<Offset> {
        if self.groups.contains_key(g) {
            self.groups[g]
        } else {
            Seq::new(self.logs.len(), |i: int| 0)
        }
    }

    /// The offset that a group last committed on a partition; 0 is none.
    pub open spec fn committed(self, g: Seq<char>, partition: usize) -> Offset {
        if partition < self.cursor(g).len() {
            self.cursor(g)[partition as int]
        } else {
            0
        }
    }

    /// The partition of a key: its hash modulo the number of partitions.
    pub open spec fn partition_of(self, key: Seq<u8>) -> usize {
        (fnv(key) as nat % self.logs.len()) as usize
    }

    /// The stream after a record was given the next offset of a partition.
    pub open spec fn after_append(self, partition: usize) -> StreamState {
        let l = self.logs[partition as int];
        StreamState {
            logs: self.logs.update(
                partition as int,
                LogState { next: (l.next + 1) as u64, ..l },
            ),
            ..self
        }
    }

    /// The stream after a record went out to the subscribers of its
    /// partition.
    pub open spec fn after_sending(
        self,
        partition: usize,
        offset: Offset,
        payload: Seq<u8>,
    ) -> StreamState {
        let p = partition as int;
        StreamState {
            sent: self.sent.update(p, self.sent[p].push((partition, offset, payload))),
            ..self
        }
    }

    /// The stream with a group known.
    pub open spec fn knowing(self, g: Seq<char>) -> StreamState {
        StreamState { groups: self.groups.insert(g, self.cursor(g)), ..self }
    }

    /// The stream after a commit: the group's offset moves forward only.
    pub open spec fn after_commit(self, g: Seq<char>, partition: usize, offset: Offset) -> StreamState {
        let c = self.cursor(g);
        StreamState {
            groups: self.groups.insert(
                g,
                if offset > c[partition as int] {
                    c.update(partition as int, offset)
                } else {
                    c
                },
            ),
            ..self
        }
    }
}

impl View for Stream {
    type V = StreamState;

    closed spec fn view(&self) -> StreamState {
        StreamState {
            name: self.name@,
            logs: self.partitions@.map_values(|p: Partition| p.log@),
            groups: cursor_views(self.groups@),
            sent: self.partitions@.map_values(|p: Partition| given_records(p.tx)),
            capacities: self.partitions@.map_values(|p: Partition| record_limit(p.tx)),
        }
    }
}

/// How many partitions a stream of the asked number has: at least one.
pub fn partition_count_of(asked: usize) -> (n: usize)
    ensures
        n == if asked == 0 {
            1
        } else {
            asked
        },
{
    if asked == 0 {
        1
    } else {
        asked
    }
}

/// The name of a stream's directory.
pub fn stream_dir(name: &str) -> (d: String)
    ensures
        d@ == "stream_"@ + name@,
{
    "stream_".to_owned().concat(name)
}

/// The name of a partition's log file.
pub fn partition_file(i: usize) -> (f: String)
    ensures
        f@ == "partition_"@ + crate::text::decimal(i as nat) + ".log"@,
{
    concat3("partition_", show(i as u128).as_str(), ".log")
}

fn out_of_range<T>(partition: usize, count: usize) -> (r: Result<T, MessagingError>)
    ensures
        r == Err::<T, MessagingError>(MessagingError::PartitionOutOfRange(partition, count)),
{
    Err(MessagingError::PartitionOutOfRange(partition, count))
}

/// What is to be written for a commit: the name of the group's offset file
/// and the bytes that replace what it holds.
pub struct OffsetsWrite {
    pub name: String,
    pub bytes: Vec<u8>,
}

impl Stream {
    /// The stream whose partitions' log files hold `images`, one for each
    /// partition (empty where there is no file yet), and whose groups the
    /// given files of its offsets directory describe. The log of a partition
    /// has the partition's number as the id of its file. `None` where one of
    /// the logs can take no more records.
    pub fn open(
        name: &str,
        images: &Vec<Vec<u8>>,
        capacity: usize,
        files: &Vec<OffsetFile>,
    ) -> (r: Option<Stream>)
        requires
            images@.len() > 0,
            crate::topic::channel_capacity(capacity) <= usize::MAX / 2,
        ensures
            match r {
                Some(s) => {
                    &&& s@.wf()
                    &&& s@.name == name@
                    &&& s@.logs.len() == images@.len()
                    &&& forall|i: int|
                        0 <= i < images@.len() ==> (#[trigger] s@.logs[i]).file_id == i
                            && s@.logs[i].next == crate::log::offset_after(entries(images@[i]@))
                    &&& forall|i: int|
                        0 <= i < images@.len() ==> (#[trigger] s@.sent[i]).len() == 0
                    &&& s@.capacities == Seq::new(
                        images@.len(),
                        |i: int| crate::topic::channel_capacity(capacity),
                    )
                    &&& s@.groups == recovered(files@, images@.len())
                },
                None => exists|i: int|
                    0 <= i < images@.len() && crate::log::offset_after(
                        entries((#[trigger] images@[i])@),
                    ) > u64::MAX,
            },
    {
        let size: usize = if capacity < crate::topic::MIN_CAPACITY {
            crate::topic::MIN_CAPACITY
        } else {
            capacity
        };
        let mut partitions: Vec<Partition> = Vec::new();
        let mut i: usize = 0;
        while i < images.len()
            invariant
                i <= images.len(),
                0 < size <= usize::MAX / 2,
                partitions@.len() == i,
                forall|j: int|
                    0 <= j < i ==> (#[trigger] partitions@[j]).log@.file_id == j
                        && partitions@[j].log@.next == crate::log::offset_after(
                        entries(images@[j]@),
                    ) && given_records(partitions@[j].tx).len() == 0 && record_limit(
                        partitions@[j].tx,
                    ) == size,
            decreases images.len() - i,
        {
            match MessageLog::open(images[i].as_slice(), i) {
                Some(log) => {
                    let tx = record_channel(size);
                    partitions.push(Partition { log, tx });
                },
                None => {
                    assert(crate::log::offset_after(entries(images@[i as int]@)) > u64::MAX);
                    return None;
                },
            }
            i = i + 1;
        }
        let groups = recover_groups(files, images.len());
        let s = Stream { name: name.to_owned(), partitions, groups };
        proof {
            assert(s@.capacities =~= Seq::new(
                images@.len(),
                |i: int| crate::topic::channel_capacity(capacity),
            ));
            lemma_recovered_lengths(files@, images@.len());
        }
        Some(s)
    }

    pub fn name(&self) -> (s: &str)
        ensures
            s@ == self@.name,
    {
        self.name.as_str()
    }

    pub fn partition_count(&self) -> (n: usize)
        ensures
            n == self@.logs.len(),
    {
        self.partitions.len()
    }

    /// The partition of a key: its hash modulo the number of partitions.
    pub fn partition_for(&self, key: &[u8]) -> (p: usize)
        requires
            self@.wf(),
        ensures
            p == self@.partition_of(key@),
            p < self@.logs.len(),
            p as nat == fnv(key@) as nat % self@.logs.len(),
    {
        (fnv1a(key) % self.partitions.len() as u64) as usize
    }

    /// Whether the log of a partition has an offset left to give.
    pub fn has_room(&self, partition: usize) -> (r: bool)
        requires
            partition < self@.logs.len(),
        ensures
            r == (self@.logs[partition as int].next < u64::MAX),
    {
        self.partitions[partition].log.next_offset() < u64::MAX
    }

    /// The append of a record to a chosen partition.
    pub fn append_to(&mut self, partition: usize, timestamp: u128, payload: &[u8]) -> (r: Result<
        WriteRequest,
        MessagingError,
    >)
        requires
            partition < old(self)@.logs.len() ==> old(self)@.logs[partition as int].next < u64::MAX,
            payload_fits(payload@.len()),
            payload@.len() + 28 <= usize::MAX,
        ensures
            if partition < old(self)@.logs.len() {
                let l = old(self)@.logs[partition as int];
                &&& r matches Ok(req) && req.file_id == l.file_id && req.offset == l.next
                    && req.framed@ == frame(Entry { offset: l.next, timestamp, payload: payload@ })
                &&& final(self)@ == old(self)@.after_append(partition)
            } else {
                &&& r == Err::<WriteRequest, MessagingError>(
                    MessagingError::PartitionOutOfRange(partition, old(self)@.logs.len() as usize),
                )
                &&& final(self)@ == old(self)@
            },
    {
        let count: usize = self.partitions.len();
        if partition >= count {
            return out_of_range(partition, count);
        }
        let ghost before = self@;
        let req = self.partitions[partition].log.append(timestamp, payload);
        proof {
            let l = before.logs[partition as int];
            assert(self@.logs =~= before.logs.update(
                partition as int,
                LogState { next: (l.next + 1) as u64, ..l },
            ));
            assert(self@.sent =~= before.sent);
            assert(self@.capacities =~= before.capacities);
        }
        Ok(req)
    }

    /// The append of a record to the partition of its key, and that
    /// partition.
    pub fn append_keyed(&mut self, key: &[u8], timestamp: u128, payload: &[u8]) -> (r: (
        usize,
        WriteRequest,
    ))
        requires
            old(self)@.wf(),
            old(self)@.logs[old(self)@.partition_of(key@) as int].next < u64::MAX,
            payload_fits(payload@.len()),
            payload@.len() + 28 <= usize::MAX,
        ensures
            r.0 == old(self)@.partition_of(key@),
            r.0 as nat == fnv(key@) as nat % old(self)@.logs.len(),
            ({
                let l = old(self)@.logs[r.0 as int];
                &&& r.1.file_id == l.file_id
                &&& r.1.offset == l.next
                &&& r.1.framed@ == frame(
                    Entry { offset: l.next, timestamp, payload: payload@ },
                )
                &&& final(self)@ == old(self)@.after_append(r.0)
            }),
    {
        let p: usize = self.partition_for(key);
        let ghost before = self@;
        let req = self.partitions[p].log.append(timestamp, payload);
        proof {
            let l = before.logs[p as int];
            assert(self@.logs =~= before.logs.update(
                p as int,
                LogState { next: (l.next + 1) as u64, ..l },
            ));
            assert(self@.sent =~= before.sent);
            assert(self@.capacities =~= before.capacities);
        }
        (p, req)
    }

    /// Takes back the last append to a partition, which no writer accepted.
    pub fn withdraw(&mut self, partition: usize, req: &WriteRequest)
        requires
            partition < old(self)@.logs.len(),
            old(self)@.logs[partition as int].next == req.offset + 1,
        ensures
            final(self)@ == (StreamState {
                logs: old(self)@.logs.update(
                    partition as int,
                    LogState { next: req.offset, ..old(self)@.logs[partition as int] },
                ),
                ..old(self)@
            }),
    {
        let ghost before = self@;
        self.partitions[partition].log.withdraw(req);
        proof {
            assert(self@.logs =~= before.logs.update(
                partition as int,
                LogState { next: req.offset, ..before.logs[partition as int] },
            ));
            assert(self@.sent =~= before.sent);
            assert(self@.capacities =~= before.capacities);
        }
    }

    /// Fans a record out to the live subscribers of its partition, given how
    /// its append went, and returns its offset. A record that is not durable
    /// is not fanned out.
    pub fn publish(
        &mut self,
        partition: usize,
        payload: Vec<u8>,
        appended: Result<Offset, MessagingError>,
    ) -> (r: Result<Offset, MessagingError>)
        requires
            old(self)@.wf(),
            partition < old(self)@.logs.len(),
        ensures
            r == appended,
            final(self)@ == match r {
                Ok(o) => old(self)@.after_sending(partition, o, payload@),
                Err(_) => old(self)@,
            },
            final(self)@.sent == match r {
                Ok(o) => old(self)@.sent.update(
                    partition as int,
                    old(self)@.sent[partition as int].push((partition, o, payload@)),
                ),
                Err(_) => old(self)@.sent,
            },
    {
        match record_of(partition, payload, appended) {
            Ok(record) => {
                let offset: u64 = record.offset;
                let ghost before = self@;
                let ghost sent = record@;
                send_record(&mut self.partitions[partition].tx, record);
                proof {
                    assert(self@.logs =~= before.logs);
                    assert(self@.sent =~= before.after_sending(partition, sent.1, sent.2).sent);
                    assert(self@.capacities =~= before.capacities);
                }
                Ok(offset)
            },
            Err(e) => Err(e),
        }
    }

    /// A receiver of the records appended to a partition from now on.
    pub fn subscribe(&self, partition: usize) -> (r: Result<Receiver<StreamRecord>, MessagingError>)
        ensures
            if partition < self@.logs.len() {
                r matches Ok(rx) && records_before(rx) == self@.sent[partition as int]
            } else {
                r == Err::<Receiver<StreamRecord>, MessagingError>(
                    MessagingError::PartitionOutOfRange(partition, self@.logs.len() as usize),
                )
            },
    {
        let count: usize = self.partitions.len();
        if partition >= count {
            return out_of_range(partition, count);
        }
        Ok(hear_records(&self.partitions[partition].tx))
    }

    /// The records of a partition at `from` or later. `image` is what the
    /// partition's log file holds, or why it could not be read.
    pub fn replay(&self, partition: usize, from: Offset, image: Result<Vec<u8>, String>) -> (r: Result<
        Vec<StreamRecord>,
        MessagingError,
    >)
        ensures
            if partition < self@.logs.len() {
                match image {
                    Ok(bytes) => r matches Ok(v) && record_views(v@) == as_records(
                        partition,
                        since(entries(bytes@), from),
                    ),
                    Err(e) => r == Err::<Vec<StreamRecord>, MessagingError>(MessagingError::Io(e)),
                }
            } else {
                r == Err::<Vec<StreamRecord>, MessagingError>(
                    MessagingError::PartitionOutOfRange(partition, self@.logs.len() as usize),
                )
            },
    {
        let count: usize = self.partitions.len();
        if partition >= count {
            return out_of_range(partition, count);
        }
        match image {
            Ok(bytes) => Ok(records_since(partition, bytes.as_slice(), from)),
            Err(e) => Err(MessagingError::Io(e)),
        }
    }

    /// A group's committed offsets.
    fn cursor_of(&self, group: &str) -> (c: Vec<Offset>)
        ensures
            c@ == self@.cursor(group@),
    {
        match self.groups.get(group) {
            Some(g) => slice_to_vec(g.committed.as_slice()),
            None => {
                let mut c: Vec<Offset> = Vec::new();
                let mut i: usize = 0;
                while i < self.partitions.len()
                    invariant
                        i <= self.partitions.len(),
                        c@.len() == i,
                        forall|j: int| 0 <= j < i ==> #[trigger] c@[j] == 0,
                    decreases self.partitions.len() - i,
                {
                    c.push(0);
                    i = i + 1;
                }
                assert(c@ =~= self@.cursor(group@));
                c
            },
        }
    }

    /// The offset from which a group goes on with a partition: the one after
    /// its last commit. The group is known from then on.
    pub fn group_next_offset(&mut self, group: &str, partition: usize) -> (o: Offset)
        requires
            old(self)@.committed(group@, partition) < u64::MAX,
        ensures
            o == old(self)@.committed(group@, partition) + 1,
            final(self)@ == old(self)@.knowing(group@),
    {
        let ghost before = self@;
        let committed = self.cursor_of(group);
        let last: u64 = if partition < committed.len() {
            committed[partition]
        } else {
            0
        };
        self.groups.insert(group.to_owned(), GroupCursor { committed });
        assert(self@.groups =~= before.knowing(group@).groups);
        last + 1
    }

    /// The records of a partition after a group's last commit. Nothing is
    /// committed: the group gets them again until it commits.
    pub fn poll(&mut self, group: &str, partition: usize, image: Result<Vec<u8>, String>) -> (r: Result<
        Vec<StreamRecord>,
        MessagingError,
    >)
        requires
            old(self)@.committed(group@, partition) < u64::MAX,
        ensures
            final(self)@ == old(self)@.knowing(group@),
            if partition < old(self)@.logs.len() {
                match image {
                    Ok(bytes) => r matches Ok(v) && record_views(v@) == as_records(
                        partition,
                        since(
                            entries(bytes@),
                            (old(self)@.committed(group@, partition) + 1) as u64,
                        ),
                    ),
                    Err(e) => r == Err::<Vec<StreamRecord>, MessagingError>(MessagingError::Io(e)),
                }
            } else {
                r == Err::<Vec<StreamRecord>, MessagingError>(
                    MessagingError::PartitionOutOfRange(partition, old(self)@.logs.len() as usize),
                )
            },
    {
        let from: u64 = self.group_next_offset(group, partition);
        self.replay(partition, from, image)
    }

    /// Moves a group's committed offset on a partition forward; a commit that
    /// would move it back changes nothing. Returns what is to be written to
    /// the group's offset file.
    pub fn commit(&mut self, group: &str, partition: usize, offset: Offset) -> (r: Result<
        OffsetsWrite,
        MessagingError,
    >)
        requires
            old(self)@.wf(),
        ensures
            final(self)@.wf(),
            if partition < old(self)@.logs.len() {
                &&& final(self)@ == old(self)@.after_commit(group@, partition, offset)
                &&& r matches Ok(w) && w.bytes@ == offsets_file(final(self)@.cursor(group@))
                    && w.name@ == group_file_name(group@)
            } else {
                &&& final(self)@ == old(self)@
                &&& r == Err::<OffsetsWrite, MessagingError>(
                    MessagingError::PartitionOutOfRange(partition, old(self)@.logs.len() as usize),
                )
            },
    {
        let count: usize = self.partitions.len();
        if partition >= count {
            return out_of_range(partition, count);
        }
        let ghost before = self@;
        let mut committed = self.cursor_of(group);
        if offset > committed[partition] {
            committed.set(partition, offset);
        }
        let bytes = encode_offsets(committed.as_slice());
        let ghost after = before.after_commit(group@, partition, offset);
        assert(committed@ == after.groups[group@]);
        self.groups.insert(group.to_owned(), GroupCursor { committed });
        assert(self@.groups =~= after.groups);
        Ok(OffsetsWrite { name: group_file(group), bytes })
    }

    /// A group's committed offset on a partition; 0 is none.
    pub fn committed_offset(&self, group: &str, partition: usize) -> (o: Offset)
        requires
            self@.wf(),
        ensures
            o == self@.committed(group@, partition),
    {
        match self.groups.get(group) {
            Some(c) => if partition < c.committed.len() {
                c.committed[partition]
            } else {
                0
            },
            None => 0,
        }
    }
}

proof fn lemma_recovered_lengths(files: Seq<OffsetFile>, partitions: nat)
    ensures
        forall|g: Seq<char>| #[trigger]
            recovered(files, partitions).contains_key(g) ==> recovered(files, partitions)[g].len()
                == partitions,
    decreases files.len(),
{
    if files.len() > 0 {
        let front = recovered(files.drop_last(), partitions);
        lemma_recovered_lengths(files.drop_last(), partitions);
        assert forall|g: Seq<char>| #[trigger]
            recovered(files, partitions).contains_key(g) implies recovered(files, partitions)[g].len()
            == partitions by {
            match recovered_one(files.last(), partitions) {
                Some((h, c)) => {
                    if g != h {
                        assert(front.contains_key(g));
                    }
                },
                None => {
                    assert(front.contains_key(g));
                },
            }
        }
    }
}

proof fn lemma_unescape_front(b: u8, rest: Seq<u8>)
    ensures
        unescape(escaped(b) + rest) == match unescape(rest) {
            Some(bytes) => Some(seq![b] + bytes),
            None => None,
        },
{
    let name = escaped(b) + rest;
    if is_plain(b) {
        assert(name.skip(1) =~= rest);
    } else {
        assert(name.skip(3) =~= rest);
        assert(hex_value(hex_digit(b as int / 16)) == Some(b as int / 16));
        assert(hex_value(hex_digit(b as int % 16)) == Some(b as int % 16));
    }
}

proof fn lemma_unescape(bytes: Seq<u8>, rest: Seq<u8>)
    ensures
        unescape(escape(bytes) + rest) == match unescape(rest) {
            Some(more) => Some(bytes + more),
            None => None,
        },
    decreases bytes.len(),
{
    if bytes.len() == 0 {
        assert(escape(bytes) + rest =~= rest);
        match unescape(rest) {
            Some(more) => {
                assert(bytes + more =~= more);
            },
            None => {},
        }
    } else {
        let front = bytes.drop_last();
        let tail = escaped(bytes.last()) + rest;
        lemma_unescape(front, tail);
        lemma_unescape_front(bytes.last(), rest);
        assert(escape(bytes) + rest =~= escape(front) + tail);
        match unescape(rest) {
            Some(more) => {
                assert(front + (seq![bytes.last()] + more) =~= bytes + more);
            },
            None => {},
        }
    }
}

/// A group's name reads back from its form in file names, but for the empty
/// name.
pub proof fn law_group_name_round_trip(group: Seq<char>)
    requires
        group.len() > 0,
    ensures
        decoded_group(encoded_group(group)) == Some(group),
{
    let bytes = encode_utf8(group);
    lemma_escape_ascii(bytes);
    lemma_ascii_text(escape(bytes));
    lemma_unescape(bytes, Seq::empty());
    assert(escape(bytes) + Seq::<u8>::empty() =~= escape(bytes));
    assert(bytes + Seq::<u8>::empty() =~= bytes);
    vstd::utf8::encode_utf8_valid_utf8(group);
    vstd::utf8::encode_utf8_decode_utf8(group);
}

/// Different groups have different offset files, but for the empty name,
/// which shares its file with the group `default`.
pub proof fn law_group_files_distinct(a: Seq<char>, b: Seq<char>)
    requires
        a.len() > 0,
        b.len() > 0,
        group_file_name(a) == group_file_name(b),
    ensures
        a == b,
{
    law_group_of_own_file(a);
    law_group_of_own_file(b);
}

/// A group's offset file is recognised as that group's.
pub proof fn law_group_of_own_file(group: Seq<char>)
    requires
        group.len() > 0,
    ensures
        group_of_file(group_file_name(group)) == Some(group),
{
    law_group_name_round_trip(group);
    let part = encoded_group(group);
    let name = group_file_name(group);
    assert(name.take("group_"@.len() as int) =~= "group_"@);
    let rest = name.skip("group_"@.len() as int);
    assert(rest =~= part + ".off"@);
    assert(rest.skip(rest.len() - ".off"@.len()) =~= ".off"@);
    assert(rest.take(rest.len() - ".off"@.len()) =~= part);
}

proof fn lemma_offset_bytes(committed: Seq<Offset>, i: int)
    requires
        0 <= i < committed.len(),
    ensures
        offset_bytes(committed).len() == committed.len() * 8,
        offset_bytes(committed).subrange(i * 8, i * 8 + 8) == be_bytes(committed[i] as nat, 8),
    decreases committed.len(),
{
    let front = committed.drop_last();
    lemma_be_round_trip(committed.last() as nat, 8);
    if front.len() > 0 {
        lemma_offset_bytes(front, if i < front.len() { i } else { 0 });
    } else {
        assert(offset_bytes(front) =~= Seq::empty());
    }
    let all = offset_bytes(committed);
    if i < front.len() {
        assert(all.subrange(i * 8, i * 8 + 8) =~= offset_bytes(front).subrange(
            i * 8,
            i * 8 + 8,
        ));
    } else {
        assert(all.subrange(i * 8, i * 8 + 8) =~= be_bytes(committed[i] as nat, 8));
    }
}

/// An offset file reads back as the offsets written to it, cut or filled with
/// 0 where the number of partitions has changed since.
pub proof fn law_offsets_round_trip(committed: Seq<Offset>, partitions: nat)
    requires
        committed.len() < be_limit(4),
    ensures
        parsed_offsets(offsets_file(committed), partitions) == Some(
            Seq::new(
                partitions,
                |i: int|
                    if i < committed.len() {
                        committed[i]
                    } else {
                        0
                    },
            ),
        ),
{
    let file = offsets_file(committed);
    lemma_be_limits();
    lemma_be_round_trip(committed.len(), 4);
    assert(file.take(4) =~= be_bytes(committed.len(), 4));
    if committed.len() > 0 {
        lemma_offset_bytes(committed, 0);
    }
    let n = kept_count(file, partitions);
    assert forall|i: int| 0 <= i < n implies #[trigger] stored_offset(file, i) == committed[i] by {
        lemma_offset_bytes(committed, i);
        lemma_be_round_trip(committed[i] as nat, 8);
        assert(file.subrange(4 + i * 8, 12 + i * 8) =~= offset_bytes(committed).subrange(
            i * 8,
            i * 8 + 8,
        ));
    }
    assert(parsed_offsets(file, partitions)->0 =~= Seq::new(
        partitions,
        |i: int|
            if i < committed.len() {
                committed[i]
            } else {
                0
            },
    ));
}

proof fn lemma_recovered_from(files: Seq<OffsetFile>, i: int, group: Seq<char>, partitions: nat)
    requires
        0 <= i < files.len(),
        recovered_one(files[i], partitions) matches Some(p) && p.0 == group,
        only_file_of(files, i, group),
    ensures
        recovered(files, partitions).contains_key(group),
        recovered(files, partitions)[group] == (recovered_one(files[i], partitions)->0).1,
    decreases files.len(),
{
    let last = files.len() - 1;
    if i < last {
        let front = files.drop_last();
        assert forall|j: int| 0 <= j < front.len() && j != i implies group_of_file(
            (#[trigger] front[j]).name@,
        ) != Some(group) by {
            assert(front[j] == files[j]);
        }
        assert(front[i] == files[i]);
        lemma_recovered_from(front, i, group, partitions);
        assert(group_of_file(files[last].name@) != Some(group));
    }
}

/// Whether no file of a directory but the `i`-th belongs to a group.
pub open spec fn only_file_of(files: Seq<OffsetFile>, i: int, group: Seq<char>) -> bool {
    forall|j: int|
        0 <= j < files.len() && j != i ==> group_of_file((#[trigger] files[j]).name@) != Some(group)
}

/// Whether a directory holds what a group of a stream last wrote: the group's
/// file, and no other file that belongs to the group. Which files of other
/// groups, or of nobody, lie beside it does not matter.
pub open spec fn keeps_group(
    files: Seq<OffsetFile>,
    i: int,
    s: StreamState,
    group: Seq<char>,
) -> bool {
    &&& 0 <= i < files.len()
    &&& files[i].name@ == group_file_name(group)
    &&& files[i].bytes matches Some(b) && b@ == offsets_file(s.cursor(group))
    &&& only_file_of(files, i, group)
}

/// What a group committed is there after a restart, whatever other groups left
/// in the directory: its offset file gives the offsets that it had. The empty
/// group name is left out, which shares its file with the group `default`.
pub proof fn law_commit_survives_restart(
    s: StreamState,
    group: Seq<char>,
    files: Seq<OffsetFile>,
    i: int,
)
    requires
        s.wf(),
        s.logs.len() < be_limit(4),
        group.len() > 0,
        keeps_group(files, i, s, group),
    ensures
        recovered(files, s.logs.len()).contains_key(group),
        recovered(files, s.logs.len())[group] == s.cursor(group),
{
    law_group_of_own_file(group);
    assert(s.cursor(group).len() == s.logs.len());
    law_offsets_round_trip(s.cursor(group), s.logs.len());
    assert(s.cursor(group) =~= Seq::new(
        s.logs.len(),
        |j: int|
            if j < s.cursor(group).len() {
                s.cursor(group)[j]
            } else {
                0
            },
    ));
    lemma_recovered_from(files, i, group, s.logs.len());
}

/// A commit of a group on a partition.
pub ghost struct Commit {
    pub group: Seq<char>,
    pub partition: usize,
    pub offset: Offset,
}

/// The stream after commits, one after the other.
pub open spec fn after_commits(s: StreamState, cs: Seq<Commit>) -> StreamState
    decreases cs.len(),
{
    if cs.len() == 0 {
        s
    } else {
        let c = cs.last();
        after_commits(s, cs.drop_last()).after_commit(c.group, c.partition, c.offset)
    }
}

/// The largest offset that a group committed on a partition, from `start` on.
pub open spec fn largest_commit(
    start: Offset,
    cs: Seq<Commit>,
    group: Seq<char>,
    partition: usize,
) -> Offset
    decreases cs.len(),
{
    if cs.len() == 0 {
        start
    } else {
        let before = largest_commit(start, cs.drop_last(), group, partition);
        let c = cs.last();
        if c.group == group && c.partition == partition && c.offset > before {
            c.offset
        } else {
            before
        }
    }
}

/// Whatever was committed in between by whom, a group's offset on a partition
/// is the largest that the group ever committed there.
pub proof fn law_committed_is_largest(
    s: StreamState,
    cs: Seq<Commit>,
    group: Seq<char>,
    partition: usize,
)
    requires
        s.wf(),
        forall|i: int| 0 <= i < cs.len() ==> (#[trigger] cs[i]).partition < s.logs.len(),
    ensures
        after_commits(s, cs).wf(),
        after_commits(s, cs).logs == s.logs,
        after_commits(s, cs).committed(group, partition) == largest_commit(
            s.committed(group, partition),
            cs,
            group,
            partition,
        ),
    decreases cs.len(),
{
    if cs.len() > 0 {
        let front = cs.drop_last();
        let c = cs[cs.len() - 1];
        assert forall|i: int| 0 <= i < front.len() implies (#[trigger] front[i]).partition
            < s.logs.len() by {
            assert(front[i] == cs[i]);
        }
        law_committed_is_largest(s, front, group, partition);
        law_commit_is_monotonic(
            after_commits(s, front),
            c.group,
            c.partition,
            c.offset,
            group,
            partition,
        );
    }
}

/// After any commits and a restart, a group is offered exactly the records of
/// a partition after the largest offset that it ever committed there, in their
/// order: `t` is the stream that was opened again on the files that the
/// commits left, and `es` what the partition's log holds.
pub proof fn law_poll_resumes_after_restart(
    s: StreamState,
    cs: Seq<Commit>,
    group: Seq<char>,
    partition: usize,
    t: StreamState,
    files: Seq<OffsetFile>,
    i: int,
    es: Seq<Entry>,
)
    requires
        s.wf(),
        s.logs.len() < be_limit(4),
        forall|j: int| 0 <= j < cs.len() ==> (#[trigger] cs[j]).partition < s.logs.len(),
        partition < s.logs.len(),
        group.len() > 0,
        keeps_group(files, i, after_commits(s, cs), group),
        t.logs.len() == s.logs.len(),
        t.groups == recovered(files, s.logs.len()),
        largest_commit(s.committed(group, partition), cs, group, partition) < u64::MAX,
    ensures
        ({
            let c = largest_commit(s.committed(group, partition), cs, group, partition);
            let offered = since(es, (t.committed(group, partition) + 1) as u64);
            &&& t.committed(group, partition) == c
            &&& forall|k: int|
                0 <= k < es.len() ==> (offered.contains(#[trigger] es[k]) <==> es[k].offset > c)
            &&& crate::log::numbered(es) ==> offered == if c < es.len() {
                es.skip(c as int)
            } else {
                Seq::empty()
            }
        }),
{
    let u = after_commits(s, cs);
    law_committed_is_largest(s, cs, group, partition);
    law_commit_survives_restart(u, group, files, i);
    assert(u.cursor(group).len() == u.logs.len());
    let c = largest_commit(s.committed(group, partition), cs, group, partition);
    assert forall|k: int| 0 <= k < es.len() implies (since(es, (c + 1) as u64).contains(
        #[trigger] es[k],
    ) <==> es[k].offset > c) by {
        lemma_since_contains(es, (c + 1) as u64, k);
    }
    if crate::log::numbered(es) {
        crate::log::law_since_of_numbered(es, (c + 1) as u64);
    }
}

/// A commit never moves a group back, reaches the committed offset, and
/// leaves other partitions and other groups alone.
pub proof fn law_commit_is_monotonic(
    s: StreamState,
    group: Seq<char>,
    partition: usize,
    offset: Offset,
    other: Seq<char>,
    q: usize,
)
    requires
        s.wf(),
        partition < s.logs.len(),
    ensures
        s.after_commit(group, partition, offset).wf(),
        s.after_commit(group, partition, offset).committed(group, partition) == if offset
            > s.committed(group, partition) {
            offset
        } else {
            s.committed(group, partition)
        },
        q != partition ==> s.after_commit(group, partition, offset).committed(group, q)
            == s.committed(group, q),
        other != group ==> s.after_commit(group, partition, offset).committed(other, q)
            == s.committed(other, q),
{
    let t = s.after_commit(group, partition, offset);
    assert(s.cursor(group).len() == s.logs.len());
    assert forall|g: Seq<char>| #[trigger] t.groups.contains_key(g) implies t.groups[g].len()
        == t.logs.len() by {
        if g != group {
            assert(s.groups.contains_key(g));
        }
    }
}

/// Polling commits nothing: until it commits, a group is offered the same
/// records again, and what it has committed it is not offered again.
pub proof fn law_delivery_is_at_least_once(
    s: StreamState,
    group: Seq<char>,
    partition: usize,
    es: Seq<Entry>,
    i: int,
)
    requires
        s.wf(),
        partition < s.logs.len(),
        s.committed(group, partition) < u64::MAX,
        0 <= i < es.len(),
    ensures
        s.knowing(group).committed(group, partition) == s.committed(group, partition),
        since(es, (s.committed(group, partition) + 1) as u64).contains(es[i]) <==> es[i].offset
            > s.committed(group, partition),
{
    lemma_since_contains(es, (s.committed(group, partition) + 1) as u64, i);
}

proof fn lemma_since_contains(es: Seq<Entry>, from: Offset, i: int)
    requires
        0 <= i < es.len(),
    ensures
        since(es, from).contains(es[i]) <==> es[i].offset >= from,
    decreases es.len(),
{
    crate::log::lemma_since_members(es, from);
    let s = since(es, from);
    if s.contains(es[i]) {
        let k = s.index_of(es[i]);
        assert(s[k].offset >= from);
    }
    if es[i].offset >= from {
        if i == es.len() - 1 {
            assert(s[s.len() - 1] == es[i]);
        } else {
            let front = es.drop_last();
            assert(front[i] == es[i]);
            lemma_since_contains(front, from, i);
            let k = since(front, from).index_of(es[i]);
            assert(s[k] == es[i]);
        }
    }
}

/// Records with one key go to one partition, and each of them gets a larger
/// offset there than those before it, whatever is appended in between:
/// another append moves no key to another partition and lets no offset go
/// back, and one under the key itself takes the next offset.
pub proof fn law_key_keeps_its_order(s: StreamState, key: Seq<u8>, other: Seq<u8>)
    requires
        s.wf(),
        s.logs[s.partition_of(other) as int].next < u64::MAX,
    ensures
        ({
            let t = s.after_append(s.partition_of(other));
            let p = s.partition_of(key);
            &&& p < s.logs.len()
            &&& t.wf()
            &&& t.partition_of(key) == p
            &&& t.logs[p as int].next >= s.logs[p as int].next
            &&& key == other ==> t.logs[p as int].next == s.logs[p as int].next + 1
        }),
{
    let n = s.logs.len();
    assert(0 <= fnv(key) as nat % n < n && 0 <= fnv(other) as nat % n < n) by {
        vstd::arithmetic::div_mod::lemma_mod_bound(fnv(key) as int, n as int);
        vstd::arithmetic::div_mod::lemma_mod_bound(fnv(other) as int, n as int);
    }
}

/// The hash takes in every byte of a key, in order: no byte gives the offset
/// basis, and each further byte is mixed in and multiplied by the prime.
pub proof fn law_hash_takes_every_byte(bytes: Seq<u8>, b: u8)
    ensures
        fnv(Seq::empty()) == 14695981039346656037,
        fnv(bytes.push(b)) == ((fnv(bytes) ^ (b as u64)) * 1099511628211) % 18446744073709551616,
{
    assert(bytes.push(b).drop_last() =~= bytes);
}

/// Keys share a partition exactly where their hashes leave the same remainder,
/// and a partition is always one that the stream has.
pub proof fn law_partition_follows_the_hash(s: StreamState, a: Seq<u8>, b: Seq<u8>)
    requires
        s.wf(),
        s.logs.len() <= usize::MAX,
    ensures
        s.partition_of(a) < s.logs.len(),
        s.partition_of(a) as nat == fnv(a) as nat % s.logs.len(),
        s.partition_of(a) == s.partition_of(b) <==> fnv(a) as nat % s.logs.len() == fnv(b) as nat
            % s.logs.len(),
{
    let n = s.logs.len() as int;
    vstd::arithmetic::div_mod::lemma_mod_bound(fnv(a) as int, n);
    vstd::arithmetic::div_mod::lemma_mod_bound(fnv(b) as int, n);
}

/// What a replay or a poll hands out is every record that was read, one by
/// one, with its own offset and payload.
pub proof fn law_every_record_is_handed_out(partition: usize, es: Seq<Entry>, v: Seq<StreamRecord>)
    ensures
        as_records(partition, es).len() == es.len(),
        forall|i: int|
            0 <= i < es.len() ==> #[trigger] as_records(partition, es)[i] == (
                partition,
                es[i].offset,
                es[i].payload,
            ),
        record_views(v).len() == v.len(),
        forall|i: int|
            0 <= i < v.len() ==> #[trigger] record_views(v)[i] == (
                v[i].partition,
                v[i].offset,
                v[i].payload@,
            ),
{
}

/// An append moves its partition on by one offset and touches nothing else,
/// and a record that was sent goes to the subscribers of its partition alone.
pub proof fn law_partitions_do_not_touch_each_other(
    s: StreamState,
    p: usize,
    q: usize,
    offset: Offset,
    payload: Seq<u8>,
)
    requires
        s.wf(),
        p < s.logs.len(),
        q < s.logs.len(),
        s.logs[p as int].next < u64::MAX,
    ensures
        ({
            let a = s.after_append(p);
            let b = s.after_sending(p, offset, payload);
            &&& a.logs.len() == s.logs.len()
            &&& a.logs[p as int].next == s.logs[p as int].next + 1
            &&& a.logs[p as int].file_id == s.logs[p as int].file_id
            &&& q != p ==> a.logs[q as int] == s.logs[q as int]
            &&& a.name == s.name && a.groups == s.groups && a.sent == s.sent && a.capacities
                == s.capacities
            &&& b.sent.len() == s.sent.len()
            &&& b.sent[p as int] == s.sent[p as int].push((p, offset, payload))
            &&& q != p ==> b.sent[q as int] == s.sent[q as int]
            &&& b.name == s.name && b.groups == s.groups && b.logs == s.logs && b.capacities
                == s.capacities
        }),
{
}

/// A group that never committed starts before the first record, and polling
/// commits nothing: all groups stand where they stood.
pub proof fn law_polling_commits_nothing(s: StreamState, g: Seq<char>, other: Seq<char>, p: usize)
    requires
        s.wf(),
    ensures
        !s.groups.contains_key(g) ==> s.committed(g, p) == 0,
        s.groups.contains_key(g) && p < s.logs.len() ==> s.committed(g, p) == s.groups[g][p as int],
        p >= s.logs.len() ==> s.committed(g, p) == 0,
        s.knowing(g).committed(other, p) == s.committed(other, p),
        s.knowing(g).logs == s.logs && s.knowing(g).sent == s.sent && s.knowing(g).name == s.name
            && s.knowing(g).capacities == s.capacities,
{
}

/// A commit is kept under its group and touches no log and no subscriber.
pub proof fn law_commit_touches_its_group_only(
    s: StreamState,
    g: Seq<char>,
    p: usize,
    offset: Offset,
)
    requires
        s.wf(),
        p < s.logs.len(),
    ensures
        ({
            let t = s.after_commit(g, p, offset);
            &&& t.logs == s.logs && t.sent == s.sent && t.name == s.name && t.capacities
                == s.capacities
            &&& t.groups.dom() == s.groups.dom().insert(g)
            &&& t.groups.remove(g) == s.groups.remove(g)
            &&& offset > s.committed(g, p) ==> t.groups[g] == s.cursor(g).update(p as int, offset)
            &&& offset <= s.committed(g, p) ==> t.groups[g] == s.cursor(g)
        }),
{
    let t = s.after_commit(g, p, offset);
    assert(t.groups.dom() =~= s.groups.dom().insert(g));
    assert(t.groups.remove(g) =~= s.groups.remove(g));
}

/// An offsets file is the number of partitions in four bytes and each offset in
/// eight, most significant byte first.
pub proof fn law_offsets_file_layout(committed: Seq<Offset>, i: int)
    requires
        committed.len() < 0x1_0000_0000,
        0 <= i < committed.len(),
    ensures
        offsets_file(committed).len() == 4 + 8 * committed.len(),
        be_value(offsets_file(committed).subrange(0, 4)) == committed.len(),
        be_value(offsets_file(committed).subrange(4 + 8 * i, 12 + 8 * i)) == committed[i],
{
    let f = offsets_file(committed);
    lemma_be_limits();
    lemma_be_round_trip(committed.len(), 4);
    lemma_be_round_trip(committed[i] as nat, 8);
    lemma_offset_bytes(committed, i);
    assert(f.subrange(0, 4) =~= be_bytes(committed.len(), 4));
    assert(f.subrange(4 + 8 * i, 12 + 8 * i) =~= offset_bytes(committed).subrange(
        i * 8,
        i * 8 + 8,
    ));
}

/// A file that is too short for what it says it holds says nothing.
pub proof fn law_short_offsets_file_is_ignored(file: Seq<u8>, partitions: nat)
    ensures
        file.len() < 4 ==> parsed_offsets(file, partitions) is None,
        partitions > 0 && file.len() < 12 && be_value(file.take(4)) > 0 ==> parsed_offsets(
            file,
            partitions,
        ) is None,
        parsed_offsets(file, partitions) matches Some(c) ==> c.len() == partitions,
{
    if partitions > 0 && be_value(file.take(4)) > 0 {
        assert(kept_count(file, partitions) >= 1);
    }
}

/// Letters, digits, `-` and `_` stand for themselves in a file name; every
/// other byte is `%` and two hexadecimal digits.
pub proof fn law_plain_bytes_stand_for_themselves(b: u8, bytes: Seq<u8>)
    ensures
        is_plain(b) <==> ('0' <= b as char <= '9' || 'A' <= b as char <= 'Z' || 'a' <= b as char
            <= 'z' || b as char == '-' || b as char == '_'),
        is_plain(b) ==> escape(bytes.push(b)) == escape(bytes).push(b),
        !is_plain(b) ==> escape(bytes.push(b)).len() == escape(bytes).len() + 3 && escape(
            bytes.push(b),
        )[escape(bytes).len() as int] as char == '%',
{
    assert(bytes.push(b).drop_last() =~= bytes);
    if is_plain(b) {
        assert(escape(bytes) + seq![b] =~= escape(bytes).push(b));
    }
}

/// A group's file is `group_`, the group's name in its file form, and `.off`.
pub proof fn law_group_file_name(group: Seq<char>)
    ensures
        group_file_name(group) == "group_"@ + encoded_group(group) + ".off"@,
        encoded_group(Seq::empty()) == "default"@,
{
}

/// Of the files of a stream the readable ones of groups count, a later one of
/// a group before an earlier one.
pub proof fn law_files_are_read_in_order(files: Seq<OffsetFile>, f: OffsetFile, partitions: nat)
    ensures
        recovered(Seq::empty(), partitions) == Map::<Seq<char>, Seq<Offset>>::empty(),
        match group_of_file(f.name@) {
            Some(g) => match f.bytes {
                Some(b) => match parsed_offsets(b@, partitions) {
                    Some(c) => recovered(files.push(f), partitions) == recovered(
                        files,
                        partitions,
                    ).insert(g, c),
                    None => recovered(files.push(f), partitions) == recovered(files, partitions),
                },
                None => recovered(files.push(f), partitions) == recovered(files, partitions),
            },
            None => recovered(files.push(f), partitions) == recovered(files, partitions),
        },
{
    assert(files.push(f).drop_last() =~= files);
}

/// Whatever a file of offsets holds: of the partitions that it counts those
/// that the stream has are read from it, and the others start at 0. Where one
/// of them is cut off, nothing is read.
pub proof fn law_offsets_are_read_where_they_stand(file: Seq<u8>, partitions: nat, i: int)
    requires
        file.len() >= 4,
        0 <= i < partitions,
    ensures
        ({
            let stored = be_value(file.take(4));
            let kept = if stored < partitions {
                stored
            } else {
                partitions
            };
            match parsed_offsets(file, partitions) {
                Some(c) => file.len() >= 4 + 8 * kept && c.len() == partitions && c[i] == (if i < kept {
                    be_value(file.subrange(4 + i * 8, 12 + i * 8))
                } else {
                    0
                }),
                None => file.len() < 4 + 8 * kept,
            }
        }),
{
    lemma_be_limits();
    let stored = be_value(file.take(4));
    let kept = kept_count(file, partitions);
    if file.len() >= 4 + kept * 8 && i < kept {
        crate::bytes::lemma_be_value(file.subrange(4 + i * 8, 12 + i * 8));
    }
}

/// A file is a group's where its name is `group_`, a name in its file form and
/// `.off`; its group is what that form stands for.
pub proof fn law_group_of_a_file(part: Seq<char>, name: Seq<char>)
    ensures
        group_of_file("group_"@ + part + ".off"@) == decoded_group(part),
        group_of_file(name) is Some ==> exists|p: Seq<char>|
            name == #[trigger] ("group_"@ + p + ".off"@) && group_of_file(name) == decoded_group(p),
{
    let (a, b) = ("group_"@, ".off"@);
    let all = a + part + b;
    assert(all.take(a.len() as int) =~= a);
    let rest = all.skip(a.len() as int);
    assert(rest =~= part + b);
    assert(rest.skip(rest.len() - b.len()) =~= b);
    assert(rest.take(rest.len() - b.len()) =~= part);
    if group_of_file(name) is Some {
        let tail = name.skip(a.len() as int);
        let p = tail.take(tail.len() - b.len());
        assert(name =~= a + p + b) by {
            assert(name =~= name.take(a.len() as int) + tail);
            assert(tail =~= p + tail.skip(tail.len() - b.len()));
        }
    }
}

/// The file form of a name reads back byte by byte: a plain byte as itself, and
/// `%` with two hexadecimal digits of either case as the byte they write.
/// Anything else after `%` is no file form.
pub proof fn law_file_form_reads_back(b: u8, hi: u8, lo: u8, rest: Seq<u8>)
    ensures
        b as char != '%' ==> unescape(seq![b] + rest) == (match unescape(rest) {
            Some(r) => Some(seq![b] + r),
            None => None,
        }),
        unescape(seq![0x25u8, hi, lo] + rest) == (match (hex_value(hi), hex_value(lo), unescape(rest)) {
            (Some(h), Some(l), Some(r)) => Some(seq![(16 * h + l) as u8] + r),
            _ => None,
        }),
        unescape(seq![0x25u8]) is None,
        unescape(seq![0x25u8, hi]) is None,
        unescape(Seq::empty()) == Some(Seq::<u8>::empty()),
        hex_value(hi) == (if '0' <= hi as char <= '9' {
            Some(hi - 48)
        } else if 'a' <= hi as char <= 'f' {
            Some(hi - 87)
        } else if 'A' <= hi as char <= 'F' {
            Some(hi - 55)
        } else {
            None
        }),
{
    assert((seq![b] + rest).skip(1) =~= rest);
    assert((seq![0x25u8, hi, lo] + rest).skip(3) =~= rest);
}

} // verus!
