//! Change events: what one write to a keyspace looks like to its
//! subscribers and to other regions.

use crate::hlc::{Hlc, Stamp};
use std::time::{SystemTime, UNIX_EPOCH};
use vstd::prelude::*;

verus! {

pub type Sequence = u64;

/// Milliseconds since the Unix epoch.
pub type Timestamp = u128;

#[verifier::external_type_specification]
#[verifier::external_body]
pub struct ExSystemTime(SystemTime);

/// Reads the machine's clock (`std::time::SystemTime::now`). Nothing is
/// claimed of the reading.
pub assume_specification[ SystemTime::now ]() -> SystemTime
;

/// The whole seconds and the remaining nanoseconds from the Unix epoch to `t`
/// (`SystemTime::duration_since`), or `None` where `t` is earlier than the
/// epoch. The remainder is less than a second.
#[verifier::external_body]
fn since_unix_epoch(t: SystemTime) -> (d: Option<(u64, u32)>)
    ensures
        d matches Some(p) ==> p.1 < 1_000_000_000,
{
    match t.duration_since(UNIX_EPOCH) {
        Ok(d) => Some((d.as_secs(), d.subsec_nanos())),
        Err(_) => None,
    }
}

/// Whole milliseconds in a span of seconds and nanoseconds.
pub open spec fn span_millis(secs: u64, nanos: u32) -> nat {
    (secs * 1000 + nanos / 1_000_000) as nat
}

pub fn millis_of(secs: u64, nanos: u32) -> (ms: Timestamp)
    ensures
        ms == span_millis(secs, nanos),
{
    secs as u128 * 1000 + (nanos / 1_000_000) as u128
}

/// The time that a reading of the clock gives: its whole milliseconds, or
/// `None` where the clock stands before the Unix epoch.
pub fn millis_at(reading: Option<(u64, u32)>) -> (ms: Option<Timestamp>)
    ensures
        match reading {
            Some((secs, nanos)) => ms matches Some(t) && t == span_millis(secs, nanos),
            None => ms is None,
        },
{
    match reading {
        Some((secs, nanos)) => Some(millis_of(secs, nanos)),
        None => None,
    }
}

/// The current time, or `None` where the machine's clock stands before the
/// Unix epoch: `millis_at` of a reading of the clock.
pub fn now_millis() -> (ms: Option<Timestamp>)
    ensures
        ms matches Some(t) ==> exists|secs: u64, nanos: u32|
            nanos < 1_000_000_000 && t == #[trigger] span_millis(secs, nanos),
{
    millis_at(since_unix_epoch(SystemTime::now()))
}

/// What a write left under its key.
#[derive(Debug, PartialEq, Eq)]
pub enum ChangeValue {
    Put(Vec<u8>),
    Delete,
}

impl View for ChangeValue {
    type V = Option<Seq<u8>>;

    /// The bytes that were put, or `None` after a deletion.
    open spec fn view(&self) -> Option<Seq<u8>> {
        match self {
            ChangeValue::Put(v) => Some(v@),
            ChangeValue::Delete => None,
        }
    }
}

impl Clone for ChangeValue {
    fn clone(&self) -> (v: Self)
        ensures
            v@ == self@,
    {
        match self {
            ChangeValue::Put(v) => ChangeValue::Put(v.clone()),
            ChangeValue::Delete => ChangeValue::Delete,
        }
    }
}

/// One write.
#[derive(Debug, PartialEq, Eq)]
pub struct ChangeEvent {
    pub keyspace: String,
    pub key: Vec<u8>,
    pub value: ChangeValue,
    pub sequence: Sequence,
    pub timestamp: Timestamp,
    pub origin_region: String,
    /// Orders writes of different regions in multi-leader mode. It is
    /// `Hlc::zero()` on the single-leader path, where `sequence` orders
    /// writes.
    pub hlc: Hlc,
}

/// A change event by its contents.
pub ghost struct Change {
    pub keyspace: Seq<char>,
    pub key: Seq<u8>,
    pub value: Option<Seq<u8>>,
    pub sequence: Sequence,
    pub timestamp: Timestamp,
    pub origin_region: Seq<char>,
    pub hlc: Stamp,
}

impl View for ChangeEvent {
    type V = Change;

    open spec fn view(&self) -> Change {
        Change {
            keyspace: self.keyspace@,
            key: self.key@,
            value: self.value@,
            sequence: self.sequence,
            timestamp: self.timestamp,
            origin_region: self.origin_region@,
            hlc: self.hlc@,
        }
    }
}

impl Clone for ChangeEvent {
    fn clone(&self) -> (e: Self)
        ensures
            e@ == self@,
    {
        ChangeEvent {
            keyspace: self.keyspace.clone(),
            key: self.key.clone(),
            value: self.value.clone(),
            sequence: self.sequence,
            timestamp: self.timestamp,
            origin_region: self.origin_region.clone(),
            hlc: self.hlc.clone(),
        }
    }
}

impl ChangeEvent {
    /// Whether this event is a deletion.
    pub fn is_tombstone(&self) -> (r: bool)
        ensures
            r == (self@.value is None),
    {
        matches!(self.value, ChangeValue::Delete)
    }
}

/// A time is its seconds and the whole milliseconds of the rest.
pub proof fn law_milliseconds_of_a_time(secs: u64, nanos: u32)
    ensures
        span_millis(secs, nanos) == 1000 * secs + nanos / 1000000,
{
}

/// A change by its contents is what its fields hold, and a deletion is a
/// change without a value.
pub proof fn law_change_is_what_it_holds(e: ChangeEvent)
    ensures
        e@.keyspace == e.keyspace@,
        e@.key == e.key@,
        e@.sequence == e.sequence,
        e@.timestamp == e.timestamp,
        e@.origin_region == e.origin_region@,
        e@.hlc.wall == e.hlc.wall && e@.hlc.logical == e.hlc.logical && e@.hlc.region
            == e.hlc.region@,
        match e.value {
            ChangeValue::Put(v) => e@.value == Some(v@),
            ChangeValue::Delete => e@.value is None,
        },
{
}

} // verus!
