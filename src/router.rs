//! The outbound side of one client connection.

use vstd::prelude::*;

verus! {

/// What became of a message handed to a router.
#[derive(PartialEq, Eq, Structural, Debug, Clone, Copy)]
pub enum SendOutcome {
    /// Queued for the connection.
    Queued,
    /// The buffer was full: the message was dropped and counted.
    Dropped,
    /// The connection is closed: nothing was done.
    Closed,
}

/// The buffer of a router after it is handed `frames` in order: each is
/// queued while the router is open and has room, and dropped otherwise.
pub open spec fn received(pending: Seq<Seq<u8>>, closed: bool, capacity: nat, frames: Seq<Seq<u8>>) -> Seq<Seq<u8>>
    decreases frames.len(),
{
    if frames.len() == 0 {
        pending
    } else {
        let p = received(pending, closed, capacity, frames.drop_last());
        if !closed && p.len() < capacity {
            p.push(frames.last())
        } else {
            p
        }
    }
}

/// Wraps the sink of one connection: a bounded buffer of outbound messages
/// that the host flushes to the socket, and a closed flag.
pub struct ClientMessageRouter {
    sink_id: u64,
    outbox: Vec<Vec<u8>>,
    capacity: usize,
    closed: bool,
    dropped: u64,
}

impl ClientMessageRouter {
    pub closed spec fn spec_sink_id(&self) -> u64 {
        self.sink_id
    }

    /// The messages waiting to be flushed, oldest first.
    pub closed spec fn pending(&self) -> Seq<Seq<u8>> {
        self.outbox@.map_values(|m: Vec<u8>| m@)
    }

    pub closed spec fn spec_capacity(&self) -> nat {
        self.capacity as nat
    }

    pub closed spec fn spec_closed(&self) -> bool {
        self.closed
    }

    pub closed spec fn spec_dropped(&self) -> u64 {
        self.dropped
    }

    /// A router for sink `sink_id` holding at most `capacity` unflushed messages.
    pub fn new(sink_id: u64, capacity: usize) -> (r: Self)
        ensures
            r.spec_sink_id() == sink_id,
            r.pending() == Seq::<Seq<u8>>::empty(),
            r.spec_capacity() == capacity,
            !r.spec_closed(),
            r.spec_dropped() == 0,
    {
        let r = ClientMessageRouter { sink_id, outbox: Vec::new(), capacity, closed: false, dropped: 0 };
        assert(r.pending() =~= Seq::<Seq<u8>>::empty());
        r
    }

    pub fn sink_id(&self) -> (r: u64)
        ensures
            r == self.spec_sink_id(),
    {
        self.sink_id
    }

    pub fn is_closed(&self) -> (r: bool)
        ensures
            r == self.spec_closed(),
    {
        self.closed
    }

    /// How many messages were dropped on a full buffer (saturating).
    pub fn dropped(&self) -> (r: u64)
        ensures
            r == self.spec_dropped(),
    {
        self.dropped
    }

    /// Queues `msg` unless the router is closed or its buffer is full; a full
    /// buffer drops the message and counts it. Never blocks.
    pub fn send(&mut self, msg: Vec<u8>) -> (r: SendOutcome)
        ensures
            final(self).spec_sink_id() == old(self).spec_sink_id(),
            final(self).spec_capacity() == old(self).spec_capacity(),
            final(self).spec_closed() == old(self).spec_closed(),
            old(self).spec_closed() ==> r == SendOutcome::Closed && final(self).pending() == old(
                self,
            ).pending() && final(self).spec_dropped() == old(self).spec_dropped(),
            !old(self).spec_closed() && old(self).pending().len() < old(self).spec_capacity() ==> r
                == SendOutcome::Queued && final(self).pending() == old(self).pending().push(msg@)
                && final(self).spec_dropped() == old(self).spec_dropped(),
            !old(self).spec_closed() && old(self).pending().len() >= old(self).spec_capacity() ==> r
                == SendOutcome::Dropped && final(self).pending() == old(self).pending()
                && final(self).spec_dropped() == (if old(self).spec_dropped() < u64::MAX {
                old(self).spec_dropped() + 1
            } else {
                old(self).spec_dropped() as int
            }),
    {
        if self.closed {
            return SendOutcome::Closed;
        }
        if self.outbox.len() < self.capacity {
            self.outbox.push(msg);
            proof {
                assert(self.pending() =~= old(self).pending().push(msg@));
            }
            SendOutcome::Queued
        } else {
            if self.dropped < u64::MAX {
                self.dropped = self.dropped + 1;
            }
            SendOutcome::Dropped
        }
    }

    /// Hands the queued messages to the host for flushing, oldest first.
    pub fn take_pending(&mut self) -> (r: Vec<Vec<u8>>)
        ensures
            r@.map_values(|m: Vec<u8>| m@) == old(self).pending(),
            final(self).pending() == Seq::<Seq<u8>>::empty(),
            final(self).spec_sink_id() == old(self).spec_sink_id(),
            final(self).spec_capacity() == old(self).spec_capacity(),
            final(self).spec_closed() == old(self).spec_closed(),
            final(self).spec_dropped() == old(self).spec_dropped(),
    {
        let mut r: Vec<Vec<u8>> = Vec::new();
        r.append(&mut self.outbox);
        assert(r@ == old(self).outbox@);
        assert(self.pending() =~= Seq::<Seq<u8>>::empty());
        r
    }

    /// Closes the connection; idempotent. Returns whether this call closed it,
    /// so that the peer is signalled exactly once. Unflushed messages are discarded.
    pub fn close(&mut self) -> (r: bool)
        ensures
            r == !old(self).spec_closed(),
            final(self).spec_closed(),
            final(self).pending() == Seq::<Seq<u8>>::empty(),
            final(self).spec_sink_id() == old(self).spec_sink_id(),
            final(self).spec_capacity() == old(self).spec_capacity(),
            final(self).spec_dropped() == old(self).spec_dropped(),
    {
        let was_open = !self.closed;
        self.closed = true;
        self.outbox = Vec::new();
        assert(self.pending() =~= Seq::<Seq<u8>>::empty());
        was_open
    }
}

} // verus!
