//! The consumer's side: a cursor that gates the publishers, and the receive
//! loop that follows the ring slot by slot.

use crate::event::decide_read;
use crate::event::EventRead;
use crate::event::ReadStep;
use crate::event::SubscriberAlert;
use crate::ring_buffer::RingBuffer;
use crate::sequence::Sequence;
use crossbeam::sync::Parker;
use crossbeam::sync::Unparker;
use std::marker::PhantomData;
use std::sync::Arc;
use vstd::prelude::*;

verus! {

/// `crossbeam::sync::Parker`: a thread-parking primitive with one token.
#[verifier::external_type_specification]
#[verifier::external_body]
pub struct ExParker(Parker);

/// `Parker::new`: a parker whose token is absent.
pub assume_specification[ Parker::new ]() -> (parker: Parker);

/// `Parker::park`: returns at once if the token is present and consumes it;
/// otherwise blocks the thread until an `unpark` makes it present. It does
/// not return while no one unparks, and spurious returns cannot be excluded,
/// so nothing is stated of the state it returns in.
pub assume_specification[ Parker::park ](parker: &Parker);

/// `Parker::unparker`: the handle that makes this parker's token present.
pub assume_specification[ Parker::unparker ](parker: &Parker) -> (unparker: &Unparker);

/// `Unparker`'s `clone`: another handle to the same parker.
pub assume_specification[ <Unparker as Clone>::clone ](unparker: &Unparker) -> (copy: Unparker);

/// A handle that receives events of type `T`, from the slot of the cursor at
/// which it starts on.
pub struct Subscriber<T> {
    ring: Arc<RingBuffer>,
    sequence: Arc<Sequence>,
    patience: u64,
    _marker: PhantomData<T>,
}

impl<T: 'static + Send + Sync> Subscriber<T> {
    /// The number of times that one call of `recv` may wait for a writer.
    pub closed spec fn spec_patience(&self) -> u64 {
        self.patience
    }

    /// The ring that this subscriber reads.
    pub closed spec fn spec_ring(&self) -> RingBuffer {
        *self.ring
    }

    /// A subscriber on `ring` whose cursor is `sequence`. The cursor is not
    /// registered here: `subscribe` makes a cursor, registers it and calls
    /// this. A call of `recv` may wait up to `u64::MAX` times.
    pub fn new(ring: Arc<RingBuffer>, sequence: Arc<Sequence>) -> (subscriber: Self)
        ensures
            subscriber.spec_ring() == *ring,
            subscriber.spec_patience() == u64::MAX,
    {
        Subscriber { ring, sequence, patience: u64::MAX, _marker: PhantomData }
    }

    /// A subscriber on `ring` that starts at the cursor of the ring's
    /// sequencer as loaded now, and gates the publishers from now on.
    pub fn subscribe(ring: Arc<RingBuffer>) -> (subscriber: Self)
        ensures
            subscriber.spec_ring() == *ring,
            subscriber.spec_patience() == u64::MAX,
    {
        let start = ring.sequencer().get();
        let sequence = Arc::new(Sequence::with_value(start));
        ring.sequencer().register_gating_sequence(sequence.clone());
        Subscriber::new(ring, sequence)
    }

    /// The same subscriber, whose calls of `recv` give up after waiting
    /// `patience` times.
    pub fn with_patience(self, patience: u64) -> (subscriber: Self)
        ensures
            subscriber.spec_ring() == self.spec_ring(),
            subscriber.spec_patience() == patience,
    {
        Subscriber { ring: self.ring, sequence: self.sequence, patience, _marker: PhantomData }
    }

    /// The number of times that one call of `recv` may wait for a writer.
    #[verifier::when_used_as_spec(spec_patience)]
    pub fn patience(&self) -> (patience: u64)
        ensures
            patience == self.spec_patience(),
    {
        self.patience
    }

    /// The subscriber's cursor, at the moment of the load: the sequence
    /// number of the slot that it looks at next. Events below it were read or
    /// passed over; events from it on are unread.
    pub fn sequence(&self) -> (cursor: u64) {
        self.sequence.get()
    }

    /// Follows the ring from the cursor on for as long as slots are ready,
    /// and returns the first event of type `T` on the way, or nothing once
    /// the slot at the cursor has not been written yet. Never waits.
    ///
    /// At each slot `Slot::read_at` says what to do. A slot that holds the
    /// event of the cursor's number is read, and the cursor moves past it
    /// whatever the event's type; a slot that was overwritten is passed over.
    /// The cursor is loaded once and moved by one per slot.
    pub fn try_recv(&self) -> (event: Option<EventRead<T>>) {
        let mut cursor: u64 = self.sequence.get();
        while cursor < u64::MAX
            decreases u64::MAX - cursor,
        {
            let envelope = self.ring.get_envelope(cursor).unwrap();
            let (step, read) = envelope.read_at::<T>(cursor);
            match step {
                ReadStep::Take => {
                    self.sequence.increment();
                    if read.is_some() {
                        return read;
                    }
                },
                ReadStep::Park => {
                    return None;
                },
                ReadStep::Skip => {
                    self.sequence.increment();
                },
            }
            cursor = cursor + 1;
        }
        None
    }

    /// Waits until the slot at the cursor is written. The subscriber puts a
    /// wake handle on the slot first and looks at the slot again after that:
    /// a writer that came between the two has either changed what the second
    /// look finds or will find the handle. Returns without waiting if the
    /// slot is ready.
    pub fn wait_for_writer(&self) {
        let cursor = self.sequence.get();
        let envelope = self.ring.get_envelope(cursor).unwrap();
        let parker = Parker::new();
        let alert: Box<dyn SubscriberAlert> = Box::new(parker.unparker().clone());
        envelope.add_subscriber(alert);
        match decide_read(cursor, envelope.sequence()) {
            ReadStep::Park => {
                parker.park();
            },
            _ => {},
        }
    }

    /// Receives the next event of type `T`, waiting for writers up to
    /// `patience` times. Nothing is returned only when that patience is used
    /// up, or when the cursor has reached the top of the `u64` range.
    pub fn recv(&self) -> (event: Option<EventRead<T>>) {
        let mut waits: u64 = 0;
        loop
            invariant
                waits <= self.patience,
            decreases self.patience - waits,
        {
            let read = self.try_recv();
            if read.is_some() {
                return read;
            }
            if waits >= self.patience || self.sequence.get() == u64::MAX {
                return None;
            }
            waits = waits + 1;
            self.wait_for_writer();
        }
    }
}

} // verus!
