//! A publisher for cooperative schedulers: it accepts one event at a time,
//! claims the slot at once and writes on flush.

use crate::ring_buffer::RingBuffer;
use crate::sequence::sequencer::ClaimError;
use std::sync::Arc;
use vstd::prelude::*;

verus! {

/// Why an event was not accepted.
#[derive(Clone, Copy, Debug, PartialEq, Eq, Structural)]
pub enum SendError {
    /// An accepted event has not been flushed yet.
    NotReady,
    /// No slot could be claimed for the event.
    Claim(ClaimError),
}

/// A publisher that holds at most one event that was accepted and not yet
/// written, together with the sequence number claimed for it.
pub struct AsyncPublisher<T> {
    ring: Arc<RingBuffer>,
    pending: Option<(u64, T)>,
}

impl<T: 'static + Send + Sync> AsyncPublisher<T> {
    /// The event that was accepted and not yet written, with its sequence
    /// number.
    pub closed spec fn spec_pending(&self) -> Option<(u64, T)> {
        self.pending
    }

    /// The ring that this publisher writes to.
    pub closed spec fn spec_ring(&self) -> RingBuffer {
        *self.ring
    }

    /// A publisher on `ring` with nothing pending.
    pub fn new(ring: Arc<RingBuffer>) -> (publisher: Self)
        ensures
            publisher.spec_pending() is None,
            publisher.spec_ring() == *ring,
    {
        AsyncPublisher { ring, pending: None }
    }

    /// The sequence number claimed for the pending event, if one is pending.
    pub fn pending_sequence(&self) -> (sequence: Option<u64>)
        ensures
            sequence == match self.spec_pending() {
                Some(pending) => Some(pending.0),
                None => None,
            },
    {
        match &self.pending {
            Some(pending) => Some(pending.0),
            None => None,
        }
    }

    /// Whether an event can be accepted: exactly when none is pending.
    pub fn poll_ready(&self) -> (ready: bool)
        ensures
            ready == (self.spec_pending() is None),
    {
        self.pending.is_none()
    }

    /// Accepts `item`: claims the next slot for it at once and keeps both
    /// until the next flush. While an event is pending, `item` is refused and
    /// no slot is claimed. Where the claim fails, nothing becomes pending.
    pub fn start_send(&mut self, item: T) -> (accepted: Result<(), SendError>)
        ensures
            final(self).spec_ring() == old(self).spec_ring(),
            accepted == Err::<(), SendError>(SendError::NotReady) <==> old(self).spec_pending()
                is Some,
            old(self).spec_pending() is Some ==> final(self).spec_pending() == old(
                self,
            ).spec_pending(),
            old(self).spec_pending() is None ==> match accepted {
                Ok(_) => (final(self).spec_pending() matches Some(pending) && pending.1 == item
                    && pending.0 >= 1),
                Err(error) => {
                    &&& final(self).spec_pending() is None
                    &&& error is Claim
                    &&& error->Claim_0 != ClaimError::InvalidArgument
                },
            },
    {
        if self.pending.is_some() {
            return Err(SendError::NotReady);
        }
        match self.ring.next() {
            Ok(sequence) => {
                self.pending = Some((sequence, item));
                Ok(())
            },
            Err(error) => Err(SendError::Claim(error)),
        }
    }

    /// Writes the pending event, if there is one, into the slot of its
    /// sequence number. Nothing is pending afterwards.
    pub fn publish(&mut self)
        ensures
            final(self).spec_pending() is None,
            final(self).spec_ring() == old(self).spec_ring(),
    {
        match self.pending.take() {
            Some((sequence, event)) => {
                self.ring.get_envelope(sequence).unwrap().overwrite(sequence, event);
            },
            None => {},
        }
    }

    /// Flushes: writes the pending event. Always complete on return.
    pub fn poll_flush(&mut self) -> (flushed: bool)
        ensures
            flushed,
            final(self).spec_pending() is None,
            final(self).spec_ring() == old(self).spec_ring(),
    {
        self.publish();
        true
    }

    /// Closes the publisher without claiming or writing anything. A pending
    /// event is dropped unwritten.
    pub fn poll_close(self) -> (closed: bool)
        ensures
            closed,
    {
        true
    }
}

} // verus!
