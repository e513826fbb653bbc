//! What is relied on of `tokio::sync::broadcast`, the live fan-out behind
//! change events, topics and stream partitions.
//!
//! A channel is known by the capacity that it was made with and by what it was
//! given, in order, and a receiver by what its channel had been given before
//! it was made: it gets what comes after, but for what the channel drops of a
//! receiver that lags by more than the capacity. Receivers come and go on
//! their own, so of how many there are at a given call only the limit that the
//! channel keeps is claimed.

use crate::event::{Change, ChangeEvent};
use crate::log::Offset;
use crate::stream::StreamRecord;
use crate::topic::Delivery;
use tokio::sync::broadcast::{channel, Receiver, Sender};
use vstd::prelude::*;

verus! {

#[verifier::external_type_specification]
#[verifier::external_body]
#[verifier::reject_recursive_types(T)]
pub struct ExSender<T>(Sender<T>);

#[verifier::external_type_specification]
#[verifier::external_body]
#[verifier::reject_recursive_types(T)]
pub struct ExReceiver<T>(Receiver<T>);

/// The change events that a channel was given, in order.
pub uninterp spec fn given_changes(s: Sender<ChangeEvent>) -> Seq<Change>;

/// The capacity that a channel of change events was made with.
pub uninterp spec fn change_limit(s: Sender<ChangeEvent>) -> usize;

/// The change events that a receiver's channel had been given when the
/// receiver was made.
pub uninterp spec fn changes_before(r: Receiver<ChangeEvent>) -> Seq<Change>;

/// The deliveries that a channel was given, in order.
pub uninterp spec fn given_deliveries(s: Sender<Delivery>) -> Seq<(Offset, Seq<u8>)>;

/// The capacity that a channel of deliveries was made with.
pub uninterp spec fn delivery_limit(s: Sender<Delivery>) -> usize;

/// The deliveries that a receiver's channel had been given when the receiver
/// was made.
pub uninterp spec fn deliveries_before(r: Receiver<Delivery>) -> Seq<(Offset, Seq<u8>)>;

/// The records that a channel was given, in order.
pub uninterp spec fn given_records(s: Sender<StreamRecord>) -> Seq<(usize, Offset, Seq<u8>)>;

/// The capacity that a channel of records was made with.
pub uninterp spec fn record_limit(s: Sender<StreamRecord>) -> usize;

/// The records that a receiver's channel had been given when the receiver was
/// made.
pub uninterp spec fn records_before(r: Receiver<StreamRecord>) -> Seq<(usize, Offset, Seq<u8>)>;

/// `tokio::sync::broadcast::channel` makes a channel of a capacity, which has
/// been given nothing. A receiver can lag by the capacity, rounded up to a
/// power of two, before it misses a value. It panics on a capacity of zero and
/// on one over half of `usize`, which are left out.
#[verifier::external_body]
pub(crate) fn change_channel(capacity: usize) -> (s: Sender<ChangeEvent>)
    requires
        0 < capacity <= usize::MAX / 2,
    ensures
        given_changes(s) == Seq::<Change>::empty(),
        change_limit(s) == capacity,
{
    channel(capacity).0
}

/// `tokio::sync::broadcast::channel`, for deliveries.
#[verifier::external_body]
pub(crate) fn delivery_channel(capacity: usize) -> (s: Sender<Delivery>)
    requires
        0 < capacity <= usize::MAX / 2,
    ensures
        given_deliveries(s) == Seq::<(Offset, Seq<u8>)>::empty(),
        delivery_limit(s) == capacity,
{
    channel(capacity).0
}

/// `tokio::sync::broadcast::channel`, for records.
#[verifier::external_body]
pub(crate) fn record_channel(capacity: usize) -> (s: Sender<StreamRecord>)
    requires
        0 < capacity <= usize::MAX / 2,
    ensures
        given_records(s) == Seq::<(usize, Offset, Seq<u8>)>::empty(),
        record_limit(s) == capacity,
{
    channel(capacity).0
}

/// `Sender::send` gives a value to the channel, for every receiver there is,
/// leaves the capacity as it was, and returns how many there are: at least one,
/// and at most a quarter of `usize`. Where there is none it returns the value
/// as an error, which is `None` here. Which number it is rests on the receivers
/// that others hold, and is left unsaid.
#[verifier::external_body]
pub(crate) fn send_change(s: &mut Sender<ChangeEvent>, value: ChangeEvent) -> (sent: Option<usize>)
    ensures
        given_changes(*final(s)) == given_changes(*old(s)).push(value@),
        change_limit(*final(s)) == change_limit(*old(s)),
        sent matches Some(n) ==> 0 < n <= usize::MAX / 4,
{
    s.send(value).ok()
}

/// `Sender::send`, for deliveries.
#[verifier::external_body]
pub(crate) fn send_delivery(s: &mut Sender<Delivery>, value: Delivery) -> (sent: Option<usize>)
    ensures
        given_deliveries(*final(s)) == given_deliveries(*old(s)).push(value@),
        delivery_limit(*final(s)) == delivery_limit(*old(s)),
        sent matches Some(n) ==> 0 < n <= usize::MAX / 4,
{
    s.send(value).ok()
}

/// `Sender::send`, for records.
#[verifier::external_body]
pub(crate) fn send_record(s: &mut Sender<StreamRecord>, value: StreamRecord) -> (sent: Option<usize>)
    ensures
        given_records(*final(s)) == given_records(*old(s)).push(value@),
        record_limit(*final(s)) == record_limit(*old(s)),
        sent matches Some(n) ==> 0 < n <= usize::MAX / 4,
{
    s.send(value).ok()
}

/// `Sender::subscribe` makes a receiver of the values sent from then on. It
/// panics only beyond a quarter of `usize` receivers, which no memory holds.
#[verifier::external_body]
pub(crate) fn hear_changes(s: &Sender<ChangeEvent>) -> (r: Receiver<ChangeEvent>)
    ensures
        changes_before(r) == given_changes(*s),
{
    s.subscribe()
}

/// `Sender::subscribe`, for deliveries.
#[verifier::external_body]
pub(crate) fn hear_deliveries(s: &Sender<Delivery>) -> (r: Receiver<Delivery>)
    ensures
        deliveries_before(r) == given_deliveries(*s),
{
    s.subscribe()
}

/// `Sender::subscribe`, for records.
#[verifier::external_body]
pub(crate) fn hear_records(s: &Sender<StreamRecord>) -> (r: Receiver<StreamRecord>)
    ensures
        records_before(r) == given_records(*s),
{
    s.subscribe()
}

/// `Sender::receiver_count` says how many receivers there are at the moment:
/// at most a quarter of `usize`, beyond which the channel makes none. Which
/// number it is rests on the receivers that others hold, and is left unsaid.
pub assume_specification<T>[ Sender::<T>::receiver_count ](sender: &Sender<T>) -> (n: usize)
    ensures
        n <= usize::MAX / 4,
;

/// The number of receivers that a send reached: 0 where there was none.
pub fn reached_by(sent: Option<usize>) -> (n: usize)
    ensures
        n == match sent {
            Some(k) => k,
            None => 0,
        },
{
    match sent {
        Some(n) => n,
        None => 0,
    }
}

/// What a receiver gets, of all that its channel was given: what was not
/// there yet when the receiver was made.
pub open spec fn heard<A>(given: Seq<A>, before: Seq<A>) -> Seq<A> {
    given.skip(before.len() as int)
}

/// A receiver gets nothing of what its channel was given before it was made,
/// and everything that was given after, in the order in which it was given.
pub proof fn law_receiver_gets_what_follows<A>(before: Seq<A>, after: Seq<A>)
    ensures
        heard(before, before) == Seq::<A>::empty(),
        heard(before + after, before) == after,
{
    assert(heard(before, before) =~= Seq::<A>::empty());
    assert(heard(before + after, before) =~= after);
}

} // verus!
