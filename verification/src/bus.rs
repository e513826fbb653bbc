//! The bus that carries a keyspace's change events to its subscribers.

use crate::broadcast::{
    change_channel, change_limit, changes_before, given_changes, hear_changes, reached_by,
    send_change,
};
use crate::event::{Change, ChangeEvent};
use tokio::sync::broadcast::{Receiver, Sender};
use vstd::prelude::*;

verus! {

pub const DEFAULT_CAPACITY: usize = 1024;

/// Sends change events to any number of subscribers. A keyspace has one only
/// where subscriptions or replication are on for it.
pub struct EventBus {
    sender: Sender<ChangeEvent>,
}

/// A bus is known by the events published on it, in order.
impl View for EventBus {
    type V = Seq<Change>;

    closed spec fn view(&self) -> Seq<Change> {
        given_changes(self.sender)
    }
}

impl EventBus {
    /// How many events a slow subscriber can lag behind, at least.
    pub closed spec fn capacity(&self) -> usize {
        change_limit(self.sender)
    }

    pub fn new() -> (b: Self)
        ensures
            b@ == Seq::<Change>::empty(),
            b.capacity() == DEFAULT_CAPACITY,
            b.capacity() == 1024,
    {
        EventBus::with_capacity(DEFAULT_CAPACITY)
    }

    pub fn with_capacity(capacity: usize) -> (b: Self)
        requires
            0 < capacity <= usize::MAX / 2,
        ensures
            b@ == Seq::<Change>::empty(),
            b.capacity() == capacity,
    {
        EventBus { sender: change_channel(capacity) }
    }

    /// Sends an event to every subscriber and returns how many there were.
    /// It neither blocks nor fails. The number rests on the receivers that are
    /// held elsewhere; `reached_by` says how it follows from the send.
    pub fn publish(&mut self, event: ChangeEvent) -> (n: usize)
        ensures
            final(self)@ == old(self)@.push(event@),
            final(self).capacity() == old(self).capacity(),
            n <= usize::MAX / 4,
    {
        reached_by(send_change(&mut self.sender, event))
    }

    /// A receiver of the events published from now on.
    pub fn subscribe(&self) -> (r: Receiver<ChangeEvent>)
        ensures
            changes_before(r) == self@,
    {
        hear_changes(&self.sender)
    }

    /// How many subscribers there are at the moment. The number rests on the
    /// receivers that are held elsewhere; a bus has at most a quarter of
    /// `usize`.
    pub fn receiver_count(&self) -> (n: usize)
        ensures
            n <= usize::MAX / 4,
    {
        self.sender.receiver_count()
    }
}

impl Default for EventBus {
    fn default() -> (b: Self)
        ensures
            b@ == Seq::<Change>::empty(),
            b.capacity() == DEFAULT_CAPACITY,
            b.capacity() == 1024,
    {
        EventBus::new()
    }
}

} // verus!
