//! Ring slots: a type-erased event with the sequence number under which it
//! was published, behind a lock, and the subscribers that wait for the next
//! one.

use crossbeam::sync::Unparker;
use std::any::Any;
use std::any::TypeId;
use std::sync::Arc;
use vstd::prelude::*;
use vstd::rwlock::RwLock;
use vstd::rwlock::RwLockPredicate;

verus! {

/// `std::any::TypeId`: the identifier that the compiler gives a type. Opaque
/// here; two identifiers are compared by `same_type`.
#[verifier::external_type_specification]
#[verifier::external_body]
pub struct ExTypeId(TypeId);

/// `crossbeam::sync::Unparker`: the handle that wakes the thread parked on the
/// `Parker` it came from.
#[verifier::external_type_specification]
#[verifier::external_body]
pub struct ExUnparker(Unparker);

/// `TypeId::of`: the identifier of `T`. That two calls for one type agree is
/// not stated: the callers compare identifiers that they were handed.
pub assume_specification<T: ?Sized + 'static>[ TypeId::of::<T> ]() -> (id: TypeId);

/// `Unparker::unpark`: makes the parker's token available and wakes its
/// thread if it is parked. Nothing is returned.
pub assume_specification[ Unparker::unpark ](unparker: &Unparker);

/// `TypeId`'s `==`: true exactly for two identifiers of the same type.
#[verifier::external_body]
pub(crate) fn same_type(left: &TypeId, right: &TypeId) -> (same: bool)
    ensures
        same == (*left == *right),
{
    left == right
}

/// A value whose type was erased: `Arc<dyn Any + Send + Sync>`. Verus has no
/// model of `dyn Any`, so the value is opaque to every proof; it is made by
/// `erase` and read back by `restore` alone.
#[verifier::external_body]
#[derive(Debug)]
pub struct Payload {
    inner: Arc<dyn Any + Send + Sync>,
}

/// The identifier of the type of the value that `payload` holds.
pub uninterp spec fn payload_type(payload: Payload) -> TypeId;

impl Payload {
    /// `Any::type_id` on the value behind the pointer: the identifier of the
    /// type that the value has, which is the type that `erase` forgot.
    #[verifier::external_body]
    pub(crate) fn held_type(&self) -> (id: TypeId)
        ensures
            id == payload_type(*self),
    {
        (*self.inner).type_id()
    }

    /// `Arc::new`, unsized to `dyn Any`: moves `data` to the heap and forgets
    /// its type.
    #[verifier::external_body]
    pub(crate) fn erase<T: 'static + Send + Sync>(data: T) -> (payload: Payload) {
        Payload { inner: Arc::new(data) }
    }

    /// `Arc::downcast` on a clone of the pointer: a shared handle to the
    /// value if it is a `T`, nothing otherwise. Which of the two depends on
    /// the type that `erase` forgot, so nothing is promised.
    #[verifier::external_body]
    pub(crate) fn restore<T: 'static + Send + Sync>(&self) -> (value: Option<Arc<T>>) {
        self.inner.clone().downcast::<T>().ok()
    }
}

/// An event in a slot: a value of any type, tagged with the identifier of
/// that type.
#[derive(Debug)]
pub struct Event {
    pub type_id: TypeId,
    pub data: Payload,
}

/// Read access to an event's value. The value stays alive, unchanged, for as
/// long as the handle does, whatever is written to the slot meanwhile.
pub struct EventRead<T> {
    value: Arc<T>,
}

impl<T> View for EventRead<T> {
    type V = T;

    closed spec fn view(&self) -> T {
        *self.value
    }
}

impl<T> std::ops::Deref for EventRead<T> {
    type Target = T;

    fn deref(&self) -> (value: &T)
        ensures
            *value == self@,
    {
        &*self.value
    }
}

impl<T> EventRead<T> {
    /// The handle that a reader is given, from whether the event's tag is
    /// the one the reader wants and from what the payload gave back as a
    /// `T`: a handle to that value where the tag matches and the payload is a
    /// `T`, and nothing otherwise.
    pub fn granted(tag_matches: bool, restored: Option<Arc<T>>) -> (read: Option<EventRead<T>>)
        ensures
            read is Some <==> tag_matches && restored is Some,
            read matches Some(handle) ==> handle@ == *restored->0,
    {
        if tag_matches {
            match restored {
                Some(value) => Some(EventRead { value }),
                None => None,
            }
        } else {
            None
        }
    }
}

impl Event {
    /// Whether the event's tag is the identifier of the type of the value
    /// that it holds.
    pub open spec fn truly_tagged(self) -> bool {
        self.type_id == payload_type(self.data)
    }

    /// An event that holds `data`, tagged with the identifier of `T`: the tag
    /// is read off the value once its type is erased.
    pub fn new<T: 'static + Send + Sync>(data: T) -> (event: Event)
        ensures
            event.truly_tagged(),
    {
        let data = Payload::erase(data);
        Event { type_id: data.held_type(), data }
    }

    /// Typed access to the event's value for a reader that wants events
    /// tagged `wanted`. An event with another tag is never handed out.
    pub fn read_as<T: 'static + Send + Sync>(&self, wanted: &TypeId) -> (read: Option<
        EventRead<T>,
    >)
        ensures
            self.type_id != *wanted ==> read is None,
    {
        if same_type(&self.type_id, wanted) {
            EventRead::granted(true, self.data.restore::<T>())
        } else {
            EventRead::granted(false, None)
        }
    }
}

/// What a subscriber does with the slot at its cursor.
#[derive(Clone, Copy, Debug, PartialEq, Eq, Structural)]
pub enum ReadStep {
    /// The slot holds the event of this very sequence number: move on by one
    /// and read it.
    Take,
    /// The slot has not been written in this lap yet: wait for the writer.
    Park,
    /// The slot was written again before it was read: the event is lost; move
    /// on by one.
    Skip,
}

/// The step of a subscriber whose cursor is at `cursor` and that finds
/// `published` as the sequence number of the slot at its cursor.
pub open spec fn read_step(cursor: u64, published: u64) -> ReadStep {
    if published == cursor {
        ReadStep::Take
    } else if published < cursor {
        ReadStep::Park
    } else {
        ReadStep::Skip
    }
}

/// Decides the step of a subscriber from its cursor and the sequence number
/// of the slot at its cursor.
pub fn decide_read(cursor: u64, published: u64) -> (step: ReadStep)
    ensures
        step == read_step(cursor, published),
{
    if published == cursor {
        ReadStep::Take
    } else if published < cursor {
        ReadStep::Park
    } else {
        ReadStep::Skip
    }
}

/// What a slot holds: the event that was written last and the sequence
/// number under which it was written.
pub struct Slot {
    /// 0 before the first write.
    pub sequence: u64,
    /// None before the first write.
    pub event: Option<Event>,
}

/// The slot after a write of `event` under `sequence`. A slot's sequence
/// number never goes back: a write under a lower number than the slot holds
/// comes from a publisher that was overtaken by a full lap, and is dropped.
pub open spec fn written(slot: Slot, sequence: u64, event: Event) -> Slot {
    if sequence >= slot.sequence {
        Slot { sequence, event: Some(event) }
    } else {
        slot
    }
}

impl Slot {
    /// Whether the slot is one that writes lead to: a slot without an event
    /// has never been written and holds sequence number 0, and an event in a
    /// slot carries the tag of the value that it holds.
    pub open spec fn well_formed(self) -> bool {
        match self.event {
            None => self.sequence == 0,
            Some(event) => event.truly_tagged(),
        }
    }

    /// Whether `found` is what a subscriber at `cursor` that wants events
    /// tagged `wanted` finds at the slot: the step that `read_step` gives for
    /// the slot's sequence number, and an event only where the step is to
    /// take it and the slot's event carries that tag.
    pub open spec fn finds<T>(
        self,
        cursor: u64,
        wanted: TypeId,
        found: (ReadStep, Option<EventRead<T>>),
    ) -> bool {
        &&& found.0 == read_step(cursor, self.sequence)
        &&& found.1 is Some ==> {
            &&& found.0 is Take
            &&& self.event is Some
            &&& self.event->0.type_id == wanted
        }
    }

    /// A slot that has never been written.
    pub fn empty() -> (slot: Slot)
        ensures
            slot == (Slot { sequence: 0, event: None }),
            slot.well_formed(),
    {
        Slot { sequence: 0, event: None }
    }

    /// Writes `event` under `sequence`, unless the slot holds a higher
    /// sequence number already.
    pub fn overwritten(self, sequence: u64, event: Event) -> (after: Slot)
        ensures
            after == written(self, sequence, event),
            after.sequence >= self.sequence,
            self.well_formed() && event.truly_tagged() ==> after.well_formed(),
    {
        if sequence >= self.sequence {
            Slot { sequence, event: Some(event) }
        } else {
            self
        }
    }

    /// Typed access to the slot's event for a reader that wants events
    /// tagged `wanted`, whatever the slot's sequence number.
    pub fn read<T: 'static + Send + Sync>(&self, wanted: &TypeId) -> (read: Option<EventRead<T>>)
        ensures
            read is Some ==> self.event is Some && self.event->0.type_id == *wanted,
    {
        match &self.event {
            Some(event) => event.read_as::<T>(wanted),
            None => None,
        }
    }

    /// The step of a subscriber at `cursor` that wants events tagged
    /// `wanted`, and the event where the step is to take it and the event
    /// carries that tag.
    pub fn read_at<T: 'static + Send + Sync>(&self, cursor: u64, wanted: &TypeId) -> (found: (
        ReadStep,
        Option<EventRead<T>>,
    ))
        ensures
            self.finds(cursor, *wanted, found),
    {
        let step = decide_read(cursor, self.sequence);
        match step {
            ReadStep::Take => (step, self.read::<T>(wanted)),
            _ => (step, None),
        }
    }
}

/// Something that can be told that a slot was written.
pub trait SubscriberAlert: Send + Sync {
    /// Wakes whoever waits behind this handle.
    fn alert(&self);
}

impl SubscriberAlert for Unparker {
    fn alert(&self) {
        self.unpark();
    }
}

/// What a slot's lock demands of its contents: that the slot is well formed.
pub struct WrittenSlot;

impl RwLockPredicate<Slot> for WrittenSlot {
    open spec fn inv(self, slot: Slot) -> bool {
        slot.well_formed()
    }
}

/// What a slot's waiter lock demands of its contents: nothing.
pub struct AnyWaiters;

impl RwLockPredicate<Vec<Box<dyn SubscriberAlert>>> for AnyWaiters {
    open spec fn inv(self, waiters: Vec<Box<dyn SubscriberAlert>>) -> bool {
        true
    }
}

/// One slot of the ring, shared by the publishers and the subscribers.
///
/// The event and its sequence number stand behind one lock, so a reader sees
/// the two as one write left them, and an event that was replaced is freed
/// when its last reader lets go of it.
pub struct EventEnvelope {
    slot: RwLock<Slot, WrittenSlot>,
    subscribers: RwLock<Vec<Box<dyn SubscriberAlert>>, AnyWaiters>,
}

impl EventEnvelope {
    /// An empty slot: sequence number 0 and no event.
    pub fn new() -> (envelope: Self) {
        EventEnvelope {
            slot: RwLock::new(Slot::empty(), Ghost(WrittenSlot)),
            subscribers: RwLock::new(Vec::new(), Ghost(AnyWaiters)),
        }
    }

    /// The sequence number under which the slot was last written, at the
    /// moment of the call.
    pub fn sequence(&self) -> (sequence: u64) {
        let handle = self.slot.acquire_read();
        let sequence = handle.borrow().sequence;
        handle.release_read();
        sequence
    }

    /// Typed access to the slot's event, if it holds one tagged with `T`.
    /// An empty slot and an event of another type both give nothing.
    pub fn read<T: 'static + Send + Sync>(&self) -> (read: Option<EventRead<T>>) {
        let wanted = TypeId::of::<T>();
        let handle = self.slot.acquire_read();
        let read = handle.borrow().read::<T>(&wanted);
        handle.release_read();
        read
    }

    /// The step of a subscriber of type `T` at `cursor`, decided on the slot
    /// as one write left it, and the event where the step is to take it and
    /// the event is a `T`. What the slot holds at the moment of the call is
    /// not known to the caller; the result is what `Slot::read_at` finds at a
    /// slot that writes lead to.
    pub fn read_at<T: 'static + Send + Sync>(&self, cursor: u64) -> (found: (
        ReadStep,
        Option<EventRead<T>>,
    ))
        ensures
            found.1 is Some ==> found.0 is Take,
            exists|slot: Slot, wanted: TypeId|
                slot.well_formed() && #[trigger] slot.finds(cursor, wanted, found),
    {
        let wanted = TypeId::of::<T>();
        let handle = self.slot.acquire_read();
        let found = handle.borrow().read_at::<T>(cursor, &wanted);
        handle.release_read();
        found
    }

    /// Writes `data` into the slot under `sequence`, unless the slot holds a
    /// higher sequence number already, and wakes the subscribers that wait on
    /// the slot. The event that was replaced is freed when its last reader
    /// lets go of it.
    pub fn overwrite<T: 'static + Send + Sync>(&self, sequence: u64, data: T) {
        let event = Event::new(data);
        let (slot, handle) = self.slot.acquire_write();
        handle.release_write(slot.overwritten(sequence, event));
        self.alert_subscribers();
    }

    /// Adds `subscriber` to those that the next `overwrite` wakes.
    pub fn add_subscriber(&self, subscriber: Box<dyn SubscriberAlert>) {
        let (mut waiters, handle) = self.subscribers.acquire_write();
        waiters.push(subscriber);
        handle.release_write(waiters);
    }

    /// Takes every waiting subscriber off the slot and alerts each, in the
    /// order in which they were added.
    pub fn alert_subscribers(&self) {
        let (waiters, handle) = self.subscribers.acquire_write();
        handle.release_write(Vec::new());
        let mut i: usize = 0;
        while i < waiters.len()
            invariant
                i <= waiters@.len(),
            decreases waiters@.len() - i,
        {
            waiters[i].alert();
            i = i + 1;
        }
    }
}

} // verus!
