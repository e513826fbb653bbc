//! Change events as they travel between nodes.

use crate::event::{Change, ChangeEvent, ChangeValue};
use crate::hlc::{Hlc, Stamp};
use vstd::prelude::*;
use vstd::slice::slice_to_vec;

verus! {

/// The value of a change on the wire.
#[derive(Clone, Debug)]
pub enum ProtoValue {
    PutValue(Vec<u8>),
    Tombstone(bool),
}

/// A change on the wire.
#[derive(Clone, Debug)]
pub struct ChangeEventProto {
    pub keyspace: String,
    pub key: Vec<u8>,
    pub sequence: u64,
    pub timestamp_ms: u64,
    pub origin_region: String,
    pub value: Option<ProtoValue>,
    pub hlc_wall: u64,
    pub hlc_logical: u32,
    pub hlc_region: String,
}

/// The bytes that a value on the wire puts, or `None` for a deletion.
pub open spec fn proto_value(v: Option<ProtoValue>) -> Option<Seq<u8>> {
    match v {
        Some(ProtoValue::PutValue(b)) => Some(b@),
        _ => None,
    }
}

/// The change that a message stands for.
pub open spec fn received(p: ChangeEventProto) -> Change {
    Change {
        keyspace: p.keyspace@,
        key: p.key@,
        value: proto_value(p.value),
        sequence: p.sequence,
        timestamp: p.timestamp_ms as u128,
        origin_region: p.origin_region@,
        hlc: Stamp { wall: p.hlc_wall, logical: p.hlc_logical, region: p.hlc_region@ },
    }
}

/// The low 64 bits of a time.
pub open spec fn wire_time(timestamp: u128) -> u64 {
    (timestamp % 0x1_0000_0000_0000_0000) as u64
}

fn low_bits(t: u128) -> (r: u64)
    ensures
        r == wire_time(t),
{
    let r: u64 = (t % 0x1_0000_0000_0000_0000) as u64;
    r
}

/// The message for a change. Its time keeps its low 64 bits.
pub fn to_proto(event: &ChangeEvent) -> (p: ChangeEventProto)
    ensures
        p.value is Some,
        event@.value is None ==> p.value == Some(ProtoValue::Tombstone(true)),
        received(p) == (Change { timestamp: wire_time(event@.timestamp) as u128, ..event@ }),
{
    let value = match &event.value {
        ChangeValue::Put(v) => ProtoValue::PutValue(slice_to_vec(v.as_slice())),
        ChangeValue::Delete => ProtoValue::Tombstone(true),
    };
    ChangeEventProto {
        keyspace: event.keyspace.clone(),
        key: slice_to_vec(event.key.as_slice()),
        sequence: event.sequence,
        timestamp_ms: low_bits(event.timestamp),
        origin_region: event.origin_region.clone(),
        value: Some(value),
        hlc_wall: event.hlc.wall,
        hlc_logical: event.hlc.logical,
        hlc_region: event.hlc.region.clone(),
    }
}

/// The change of a message. Whatever is not a put is a deletion.
pub fn from_proto(p: ChangeEventProto) -> (event: ChangeEvent)
    ensures
        event@ == received(p),
{
    let value = match p.value {
        Some(ProtoValue::PutValue(v)) => ChangeValue::Put(v),
        _ => ChangeValue::Delete,
    };
    ChangeEvent {
        keyspace: p.keyspace,
        key: p.key,
        value,
        sequence: p.sequence,
        timestamp: p.timestamp_ms as u128,
        origin_region: p.origin_region,
        hlc: Hlc { wall: p.hlc_wall, logical: p.hlc_logical, region: p.hlc_region },
    }
}

/// A change arrives as it was sent, up to the year at which milliseconds need
/// more than 64 bits.
pub proof fn law_change_arrives_unchanged(sent: Change, p: ChangeEventProto)
    requires
        sent.timestamp <= u64::MAX,
        received(p) == (Change { timestamp: wire_time(sent.timestamp) as u128, ..sent }),
    ensures
        received(p) == sent,
{
}

/// A message stands for what its fields hold: a value that is put is put, and
/// anything else deletes.
pub proof fn law_message_stands_for_its_fields(p: ChangeEventProto)
    ensures
        received(p).keyspace == p.keyspace@,
        received(p).key == p.key@,
        received(p).sequence == p.sequence,
        received(p).timestamp == p.timestamp_ms,
        received(p).origin_region == p.origin_region@,
        received(p).hlc.wall == p.hlc_wall,
        received(p).hlc.logical == p.hlc_logical,
        received(p).hlc.region == p.hlc_region@,
        match p.value {
            Some(ProtoValue::PutValue(b)) => received(p).value == Some(b@),
            Some(ProtoValue::Tombstone(_)) => received(p).value is None,
            None => received(p).value is None,
        },
{
}

} // verus!
