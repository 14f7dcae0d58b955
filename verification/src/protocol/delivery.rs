//! What a subscriber receives, one step after the other.
//!
//! The state holds what the slots of a ring hold and where the cursors are.
//! A publish is a granted claim of one slot followed by the write into it; a
//! receive follows the ring from the subscriber's cursor as
//! `Subscriber::try_recv` does, by `read_step` at each slot, and hands out an
//! event where its tag is the one that the subscriber wants. A slot is what
//! an envelope's lock holds, and a write is `written`.

use crate::event::read_step;
use crate::event::written;
use crate::event::Event;
use crate::event::ReadStep;
use crate::event::Slot;
use crate::ring_buffer::is_power_of_two;
use crate::ring_buffer::lemma_mask_is_remainder;
use crate::ring_buffer::slot_index;
use crate::sequence::claim::gate_check;
use crate::sequence::minimum_of;
use std::any::TypeId;
use vstd::arithmetic::div_mod::lemma_fundamental_div_mod;
use vstd::arithmetic::div_mod::lemma_mod_self_0;
use vstd::arithmetic::div_mod::lemma_small_mod;
use vstd::prelude::*;

verus! {

/// What a ring holds and where its cursors are.
pub struct Bus {
    pub buffer_size: u64,
    /// The highest sequence number claimed.
    pub cursor: u64,
    pub slots: Seq<Slot>,
    /// The subscribers' cursors, in the order in which they registered.
    pub readers: Seq<u64>,
    /// Every event published so far, in the order of the sequence numbers:
    /// the event of number `k` stands at index `k - 1`.
    pub log: Seq<Event>,
}

/// A new ring: every slot empty, the cursor at 0, no subscriber.
pub open spec fn fresh(buffer_size: u64) -> Bus {
    Bus {
        buffer_size,
        cursor: 0,
        slots: Seq::new(buffer_size as nat, |i: int| Slot { sequence: 0, event: None }),
        readers: Seq::empty(),
        log: Seq::empty(),
    }
}

/// The bus after one more subscriber registered, at the cursor.
pub open spec fn subscribed(bus: Bus) -> Bus {
    Bus { readers: bus.readers.push(bus.cursor), ..bus }
}

/// Whether a claim of one slot is granted: the cursor can still move, and
/// the scan of the subscribers' cursors does not gate the claim.
pub open spec fn can_publish(bus: Bus) -> bool {
    &&& bus.cursor < u64::MAX
    &&& gate_check(bus.cursor, 1, bus.buffer_size, minimum_of(bus.readers, bus.cursor)) is Open
}

/// The bus after `event` was published: the cursor moved on by one and the
/// event stands in the slot of the new sequence number.
pub open spec fn published(bus: Bus, event: Event) -> Bus {
    let next = (bus.cursor + 1) as u64;
    Bus {
        cursor: next,
        slots: bus.slots.update(
            slot_index(next, bus.buffer_size),
            written(bus.slots[slot_index(next, bus.buffer_size)], next, event),
        ),
        log: bus.log.push(event),
        ..bus
    }
}

/// The bus after the events of `events` were published in order.
pub open spec fn published_all(bus: Bus, events: Seq<Event>) -> Bus
    decreases events.len(),
{
    if events.len() == 0 {
        bus
    } else {
        published(published_all(bus, events.drop_last()), events.last())
    }
}

/// Whether each of `events.len()` publishes in a row is granted.
pub open spec fn can_publish_all(bus: Bus, events: Seq<Event>) -> bool
    decreases events.len(),
{
    events.len() == 0 || (can_publish_all(bus, events.drop_last()) && can_publish(
        published_all(bus, events.drop_last()),
    ))
}

/// The bus after subscriber `r` moved its cursor on by one.
pub open spec fn advanced(bus: Bus, r: int) -> Bus {
    Bus { readers: bus.readers.update(r, (bus.readers[r] + 1) as u64), ..bus }
}

/// One receive of subscriber `r`, which wants events tagged `wanted`: the bus
/// afterwards, and the event that was handed out, or none where the
/// subscriber came to a slot that is not written yet.
pub open spec fn received(bus: Bus, r: int, wanted: TypeId) -> (Bus, Option<Event>)
    decreases u64::MAX - bus.readers[r],
{
    if !(0 <= r < bus.readers.len()) || bus.readers[r] >= u64::MAX {
        (bus, None)
    } else {
        let cursor = bus.readers[r];
        let slot = bus.slots[slot_index(cursor, bus.buffer_size)];
        match read_step(cursor, slot.sequence) {
            ReadStep::Park => (bus, None),
            ReadStep::Skip => received(advanced(bus, r), r, wanted),
            ReadStep::Take => if slot.event is Some && slot.event->0.type_id == wanted {
                (advanced(bus, r), slot.event)
            } else {
                received(advanced(bus, r), r, wanted)
            },
        }
    }
}

/// What `count` receives in a row hand out.
pub open spec fn received_many(bus: Bus, r: int, wanted: TypeId, count: nat) -> Seq<Option<Event>>
    decreases count,
{
    if count == 0 {
        Seq::empty()
    } else {
        let first = received(bus, r, wanted);
        seq![first.1] + received_many(first.0, r, wanted, (count - 1) as nat)
    }
}

/// A receive changes nothing but the cursor of its subscriber, which does not
/// move back.
pub proof fn lemma_received_moves_one_cursor(bus: Bus, r: int, wanted: TypeId)
    ensures
        received(bus, r, wanted).0.buffer_size == bus.buffer_size,
        received(bus, r, wanted).0.cursor == bus.cursor,
        received(bus, r, wanted).0.slots == bus.slots,
        received(bus, r, wanted).0.log == bus.log,
        received(bus, r, wanted).0.readers.len() == bus.readers.len(),
        forall|q: int|
            0 <= q < bus.readers.len() && q != r ==> #[trigger] received(
                bus,
                r,
                wanted,
            ).0.readers[q] == bus.readers[q],
        0 <= r < bus.readers.len() ==> received(bus, r, wanted).0.readers[r] >= bus.readers[r],
    decreases u64::MAX - bus.readers[r],
{
    if 0 <= r < bus.readers.len() && bus.readers[r] < u64::MAX {
        let cursor = bus.readers[r];
        let slot = bus.slots[slot_index(cursor, bus.buffer_size)];
        let taken = slot.event is Some && slot.event->0.type_id == wanted;
        if read_step(cursor, slot.sequence) is Skip || (read_step(cursor, slot.sequence) is Take
            && !taken) {
            lemma_received_moves_one_cursor(advanced(bus, r), r, wanted);
        }
    }
}

/// Whether the bus has the shape of a ring: a power of two as its number of
/// slots, and that many slots.
pub open spec fn shaped(bus: Bus) -> bool {
    &&& is_power_of_two(bus.buffer_size)
    &&& bus.slots.len() == bus.buffer_size
}

/// A subscriber is handed only events that carry the tag it wants, and each
/// is an event that stands in a slot: whatever else was published, and
/// whoever else reads.
pub proof fn theorem_only_wanted_events_are_received(bus: Bus, r: int, wanted: TypeId)
    requires
        shaped(bus),
    ensures
        received(bus, r, wanted).1 matches Some(event) ==> {
            &&& event.type_id == wanted
            &&& exists|i: int|
                0 <= i < bus.slots.len() && (#[trigger] bus.slots[i]).event == Some(event)
        },
    decreases u64::MAX - bus.readers[r],
{
    if 0 <= r < bus.readers.len() && bus.readers[r] < u64::MAX {
        let cursor = bus.readers[r];
        let index = slot_index(cursor, bus.buffer_size);
        let slot = bus.slots[index];
        let taken = slot.event is Some && slot.event->0.type_id == wanted;
        lemma_mask_is_remainder(cursor, bus.buffer_size);
        if read_step(cursor, slot.sequence) is Take && taken {
            assert(bus.slots[index].event == Some(slot.event->0));
        } else if read_step(cursor, slot.sequence) is Skip || read_step(cursor, slot.sequence)
            is Take {
            theorem_only_wanted_events_are_received(advanced(bus, r), r, wanted);
        }
    }
}

/// What slot `i` of a new ring holds after the events of `events`, at most
/// as many as the ring has slots, were published: event number `i` stands in
/// slot `i`, but the event whose number is the ring's size stands in slot 0.
pub open spec fn first_lap_slot(events: Seq<Event>, buffer_size: u64, i: int) -> Slot {
    if 1 <= i <= events.len() && i < buffer_size {
        Slot { sequence: i as u64, event: Some(events[i - 1]) }
    } else if i == 0 && events.len() == buffer_size {
        Slot { sequence: buffer_size, event: Some(events[buffer_size - 1]) }
    } else {
        Slot { sequence: 0, event: None }
    }
}

/// Whether `bus` is a ring of `buffer_size` slots that holds the first lap of
/// `events`, with one subscriber, whose cursor is at `cursor`.
pub open spec fn holds_first_lap(bus: Bus, buffer_size: u64, events: Seq<Event>, cursor: u64) -> bool {
    &&& bus.buffer_size == buffer_size
    &&& bus.cursor == events.len()
    &&& bus.readers == seq![cursor]
    &&& bus.slots.len() == buffer_size
    &&& forall|i: int|
        0 <= i < buffer_size ==> #[trigger] bus.slots[i] == first_lap_slot(events, buffer_size, i)
}

/// On a new ring with one subscriber, as many publishes as the ring has
/// slots are granted, and they fill the first lap.
pub proof fn lemma_first_lap_is_published(buffer_size: u64, events: Seq<Event>)
    requires
        is_power_of_two(buffer_size),
        events.len() <= buffer_size,
    ensures
        can_publish_all(subscribed(fresh(buffer_size)), events),
        holds_first_lap(
            published_all(subscribed(fresh(buffer_size)), events),
            buffer_size,
            events,
            0,
        ),
    decreases events.len(),
{
    let start = subscribed(fresh(buffer_size));
    lemma_mask_is_remainder(0, buffer_size);
    if events.len() == 0 {
        assert(start.readers =~= seq![0u64]);
    } else {
        let front = events.drop_last();
        lemma_first_lap_is_published(buffer_size, front);
        let before = published_all(start, front);
        let after = published_all(start, events);
        let next = events.len() as u64;
        assert(after == published(before, events.last()));
        if next < buffer_size {
            lemma_small_mod(next as nat, buffer_size as nat);
        } else {
            lemma_mod_self_0(buffer_size as int);
        }
        assert forall|i: int| 0 <= i < buffer_size implies #[trigger] after.slots[i]
            == first_lap_slot(events, buffer_size, i) by {
            if i != slot_index(next, buffer_size) {
                assert(after.slots[i] == before.slots[i]);
                assert(before.slots[i] == first_lap_slot(front, buffer_size, i));
            }
        }
    }
}

/// On a ring that holds a first lap, a subscriber whose cursor is at an
/// event's number receives that event and moves on by one.
pub proof fn lemma_first_lap_receive(
    bus: Bus,
    buffer_size: u64,
    events: Seq<Event>,
    wanted: TypeId,
    cursor: u64,
)
    requires
        is_power_of_two(buffer_size),
        events.len() <= buffer_size,
        forall|i: int| 0 <= i < events.len() ==> (#[trigger] events[i]).type_id == wanted,
        holds_first_lap(bus, buffer_size, events, cursor),
        1 <= cursor <= events.len(),
    ensures
        cursor < u64::MAX,
        received(bus, 0, wanted).1 == Some(events[cursor - 1]),
        holds_first_lap(received(bus, 0, wanted).0, buffer_size, events, (cursor + 1) as u64),
{
    lemma_mask_is_remainder(cursor, buffer_size);
    lemma_below_the_top(buffer_size);
    assert(bus.readers[0] == cursor);
    let index = slot_index(cursor, buffer_size);
    if cursor < buffer_size {
        lemma_small_mod(cursor as nat, buffer_size as nat);
    } else {
        lemma_mod_self_0(buffer_size as int);
    }
    assert(bus.slots[index] == first_lap_slot(events, buffer_size, index));
    assert(bus.slots[index].sequence == cursor);
    assert(bus.slots[index].event == Some(events[cursor - 1]));
    assert(advanced(bus, 0).readers =~= seq![(cursor + 1) as u64]);
}

/// A power of two lies below the top of the `u64` range.
pub proof fn lemma_below_the_top(buffer_size: u64)
    requires
        is_power_of_two(buffer_size),
    ensures
        1 <= buffer_size < u64::MAX,
{
    let k = choose|k: nat| k < 64 && buffer_size == vstd::arithmetic::power2::pow2(k);
    vstd::bits::lemma_u64_pow2_no_overflow(k);
}

/// On a ring that holds a first lap, a subscriber whose cursor is at an
/// event's number receives that event and all that follow, in order.
pub proof fn lemma_first_lap_receive_rest(
    bus: Bus,
    buffer_size: u64,
    events: Seq<Event>,
    wanted: TypeId,
    cursor: u64,
)
    requires
        is_power_of_two(buffer_size),
        events.len() <= buffer_size,
        forall|i: int| 0 <= i < events.len() ==> (#[trigger] events[i]).type_id == wanted,
        holds_first_lap(bus, buffer_size, events, cursor),
        1 <= cursor <= events.len() + 1,
    ensures
        ({
            let got = received_many(bus, 0, wanted, (events.len() + 1 - cursor) as nat);
            &&& got.len() == events.len() + 1 - cursor
            &&& forall|j: int| 0 <= j < got.len() ==> #[trigger] got[j] == Some(events[cursor - 1 + j])
        }),
    decreases events.len() + 1 - cursor,
{
    if cursor <= events.len() {
        lemma_first_lap_receive(bus, buffer_size, events, wanted, cursor);
        let first = received(bus, 0, wanted);
        lemma_first_lap_receive_rest(first.0, buffer_size, events, wanted, (cursor + 1) as u64);
        let rest = received_many(first.0, 0, wanted, (events.len() - cursor) as nat);
        let got = received_many(bus, 0, wanted, (events.len() + 1 - cursor) as nat);
        assert(got == seq![first.1] + rest);
        assert forall|j: int| 0 <= j < got.len() implies #[trigger] got[j] == Some(
            events[cursor - 1 + j],
        ) by {
            if j > 0 {
                assert(got[j] == rest[j - 1]);
            }
        }
    }
}

/// On a new ring, a subscriber that registered before the first publish and
/// reads after the last receives exactly the events that were published, in
/// the order of their publishing: as long as they are events of its type and
/// no more than the ring has slots. With one more, the last publish is held
/// back until the subscriber has read.
pub proof fn theorem_events_arrive_in_publish_order(
    buffer_size: u64,
    wanted: TypeId,
    events: Seq<Event>,
)
    requires
        is_power_of_two(buffer_size),
        events.len() <= buffer_size,
        forall|i: int| 0 <= i < events.len() ==> (#[trigger] events[i]).type_id == wanted,
    ensures
        ({
            let start = subscribed(fresh(buffer_size));
            let got = received_many(published_all(start, events), 0, wanted, events.len());
            &&& can_publish_all(start, events)
            &&& got.len() == events.len()
            &&& forall|i: int| 0 <= i < events.len() ==> #[trigger] got[i] == Some(events[i])
        }),
{
    let start = subscribed(fresh(buffer_size));
    let bus = published_all(start, events);
    lemma_first_lap_is_published(buffer_size, events);
    if events.len() > 0 {
        lemma_mask_is_remainder(0, buffer_size);
        lemma_below_the_top(buffer_size);
        lemma_small_mod(0, buffer_size as nat);
        assert(bus.readers[0] == 0);
        assert(bus.slots[0] == first_lap_slot(events, buffer_size, 0));
        let stepped = advanced(bus, 0);
        assert(stepped.readers =~= seq![1u64]);
        assert(holds_first_lap(stepped, buffer_size, events, 1));
        assert(received(bus, 0, wanted) == received(stepped, 0, wanted));
        lemma_first_lap_receive(stepped, buffer_size, events, wanted, 1);
        let first = received(bus, 0, wanted);
        lemma_first_lap_receive_rest(first.0, buffer_size, events, wanted, 2);
        let rest = received_many(first.0, 0, wanted, (events.len() - 1) as nat);
        let got = received_many(bus, 0, wanted, events.len());
        assert(got == seq![first.1] + rest);
        assert forall|i: int| 0 <= i < events.len() implies #[trigger] got[i] == Some(
            events[i],
        ) by {
            if i > 0 {
                assert(got[i] == rest[i - 1]);
            }
        }
    }
}

/// Whether slot `i` holds what publishes leave in it: nothing, as long as no
/// sequence number of its own was claimed, and else the latest event whose
/// sequence number falls on it, as the log has it.
pub open spec fn slot_coherent(bus: Bus, i: int) -> bool {
    let slot = bus.slots[i];
    if slot.sequence == 0 {
        &&& slot.event is None
        &&& bus.cursor < bus.buffer_size
        &&& (i == 0 || i > bus.cursor)
    } else {
        &&& slot.event == Some(bus.log[slot.sequence - 1])
        &&& slot_index(slot.sequence, bus.buffer_size) == i
        &&& slot.sequence <= bus.cursor < slot.sequence + bus.buffer_size
    }
}

/// Whether the bus is in a state that publishes lead to from a new ring.
pub open spec fn coherent(bus: Bus) -> bool {
    &&& shaped(bus)
    &&& bus.log.len() == bus.cursor
    &&& forall|i: int| 0 <= i < bus.buffer_size ==> #[trigger] slot_coherent(bus, i)
}

/// Two sequence numbers that fall on the same slot and lie less than a lap
/// apart are the same.
pub proof fn lemma_one_number_per_lap(low: u64, high: u64, buffer_size: u64)
    requires
        buffer_size > 0,
        slot_index(low, buffer_size) == slot_index(high, buffer_size),
        low <= high < low + buffer_size,
    ensures
        low == high,
{
    lemma_fundamental_div_mod(low as int, buffer_size as int);
    lemma_fundamental_div_mod(high as int, buffer_size as int);
    let m = buffer_size as int;
    let d = (high as int) / m - (low as int) / m;
    assert(high - low == m * d) by (nonlinear_arith)
        requires
            high == m * ((high as int) / m) + ((high as int) % m),
            low == m * ((low as int) / m) + ((low as int) % m),
            (high as int) % m == (low as int) % m,
            d == (high as int) / m - (low as int) / m,
    ;
    assert(d == 0) by (nonlinear_arith)
        requires
            0 <= m * d < m,
            m > 0,
    ;
}

/// A new ring is coherent.
pub proof fn lemma_fresh_is_coherent(buffer_size: u64)
    requires
        is_power_of_two(buffer_size),
    ensures
        coherent(fresh(buffer_size)),
{
    lemma_below_the_top(buffer_size);
    let bus = fresh(buffer_size);
    assert forall|i: int| 0 <= i < buffer_size implies #[trigger] slot_coherent(bus, i) by {}
}

/// A new subscriber leaves the bus coherent.
pub proof fn lemma_subscribed_is_coherent(bus: Bus)
    requires
        coherent(bus),
    ensures
        coherent(subscribed(bus)),
{
    let after = subscribed(bus);
    assert forall|i: int| 0 <= i < after.buffer_size implies #[trigger] slot_coherent(after, i) by {
        assert(slot_coherent(bus, i));
    }
}

/// A publish leaves the bus coherent.
pub proof fn lemma_published_is_coherent(bus: Bus, event: Event)
    requires
        coherent(bus),
        bus.cursor < u64::MAX,
    ensures
        coherent(published(bus, event)),
{
    let after = published(bus, event);
    let next = (bus.cursor + 1) as u64;
    let size = bus.buffer_size;
    let index = slot_index(next, size);
    lemma_mask_is_remainder(next, size);
    if next < size {
        lemma_small_mod(next as nat, size as nat);
    } else if next == size {
        lemma_mod_self_0(size as int);
    }
    assert forall|i: int| 0 <= i < size implies #[trigger] slot_coherent(after, i) by {
        assert(slot_coherent(bus, i));
        if i != index {
            let slot = bus.slots[i];
            assert(after.slots[i] == slot);
            if slot.sequence != 0 && next == slot.sequence + size {
                vstd::arithmetic::div_mod::lemma_mod_add_multiples_vanish(
                    slot.sequence as int,
                    size as int,
                );
            }
        }
    }
}

/// A receive leaves the bus coherent.
pub proof fn lemma_received_is_coherent(bus: Bus, r: int, wanted: TypeId)
    requires
        coherent(bus),
    ensures
        coherent(received(bus, r, wanted).0),
{
    lemma_received_moves_one_cursor(bus, r, wanted);
    let after = received(bus, r, wanted).0;
    assert forall|i: int| 0 <= i < after.buffer_size implies #[trigger] slot_coherent(after, i) by {
        assert(slot_coherent(bus, i));
    }
}

/// What a party may do to the bus.
pub enum Action {
    /// A subscriber registers.
    Subscribe,
    /// A publisher publishes `event`.
    Publish { event: Event },
    /// Subscriber `r`, which wants events tagged `wanted`, receives.
    Receive { r: int, wanted: TypeId },
}

/// Whether `action` can be done in `bus`: a publish needs its claim granted.
pub open spec fn permitted(bus: Bus, action: Action) -> bool {
    action is Publish ==> can_publish(bus)
}

/// The bus after `action` was done.
pub open spec fn performed(bus: Bus, action: Action) -> Bus {
    match action {
        Action::Subscribe => subscribed(bus),
        Action::Publish { event } => published(bus, event),
        Action::Receive { r, wanted } => received(bus, r, wanted).0,
    }
}

/// The bus after the actions of `actions` were done one after the other.
pub open spec fn performed_all(bus: Bus, actions: Seq<Action>) -> Bus
    decreases actions.len(),
{
    if actions.len() == 0 {
        bus
    } else {
        performed(performed_all(bus, actions.drop_last()), actions.last())
    }
}

/// Whether each action of `actions` can be done in the state that the
/// actions before it lead to.
pub open spec fn all_permitted(bus: Bus, actions: Seq<Action>) -> bool
    decreases actions.len(),
{
    actions.len() == 0 || (all_permitted(bus, actions.drop_last()) && permitted(
        performed_all(bus, actions.drop_last()),
        actions.last(),
    ))
}

/// Whether `after` is `before` grown: the same ring, the cursors of the
/// subscribers that were there not further back, and the log longer by what
/// was published since.
pub open spec fn grown(before: Bus, after: Bus) -> bool {
    &&& after.buffer_size == before.buffer_size
    &&& after.cursor >= before.cursor
    &&& before.readers.len() <= after.readers.len()
    &&& forall|q: int|
        0 <= q < before.readers.len() ==> before.readers[q] <= #[trigger] after.readers[q]
    &&& before.log.is_prefix_of(after.log)
}

/// An action leaves a coherent bus coherent, and grown.
pub proof fn lemma_action_grows(bus: Bus, action: Action)
    requires
        coherent(bus),
        permitted(bus, action),
    ensures
        coherent(performed(bus, action)),
        grown(bus, performed(bus, action)),
{
    match action {
        Action::Subscribe => {
            lemma_subscribed_is_coherent(bus);
        },
        Action::Publish { event } => {
            lemma_published_is_coherent(bus, event);
        },
        Action::Receive { r, wanted } => {
            lemma_received_is_coherent(bus, r, wanted);
            lemma_received_moves_one_cursor(bus, r, wanted);
        },
    }
}

/// Actions leave a coherent bus coherent, and grown.
pub proof fn lemma_actions_grow(bus: Bus, actions: Seq<Action>)
    requires
        coherent(bus),
        all_permitted(bus, actions),
    ensures
        coherent(performed_all(bus, actions)),
        grown(bus, performed_all(bus, actions)),
    decreases actions.len(),
{
    if actions.len() > 0 {
        lemma_actions_grow(bus, actions.drop_last());
        let before = performed_all(bus, actions.drop_last());
        lemma_action_grows(before, actions.last());
        let after = performed_all(bus, actions);
        assert forall|q: int| 0 <= q < bus.readers.len() implies bus.readers[q]
            <= #[trigger] after.readers[q] by {
            assert(bus.readers[q] <= before.readers[q]);
        }
    }
}

/// Whatever is done to a new ring, in whatever order, the bus stays
/// coherent.
pub proof fn lemma_every_state_is_coherent(buffer_size: u64, actions: Seq<Action>)
    requires
        is_power_of_two(buffer_size),
        all_permitted(fresh(buffer_size), actions),
    ensures
        coherent(performed_all(fresh(buffer_size), actions)),
{
    lemma_fresh_is_coherent(buffer_size);
    lemma_actions_grow(fresh(buffer_size), actions);
}

/// The sequence number of the event that a receive has handed out: the
/// subscriber's cursor stands right behind it.
pub open spec fn number_received(after: Bus, r: int) -> int {
    after.readers[r] - 1
}

/// The event that a receive hands out is one that was published, under a
/// sequence number that the subscriber's cursor had not passed before the
/// receive.
pub proof fn theorem_received_event_was_published(bus: Bus, r: int, wanted: TypeId)
    requires
        coherent(bus),
    ensures
        received(bus, r, wanted).1 matches Some(event) ==> {
            let number = number_received(received(bus, r, wanted).0, r);
            &&& 0 <= r < bus.readers.len()
            &&& bus.readers[r] <= number
            &&& 1 <= number <= bus.log.len()
            &&& bus.log[number - 1] == event
        },
    decreases u64::MAX - bus.readers[r],
{
    if 0 <= r < bus.readers.len() && bus.readers[r] < u64::MAX {
        let cursor = bus.readers[r];
        let index = slot_index(cursor, bus.buffer_size);
        let slot = bus.slots[index];
        let taken = slot.event is Some && slot.event->0.type_id == wanted;
        lemma_mask_is_remainder(cursor, bus.buffer_size);
        assert(slot_coherent(bus, index));
        if read_step(cursor, slot.sequence) is Take && taken {
        } else if read_step(cursor, slot.sequence) is Skip || read_step(cursor, slot.sequence)
            is Take {
            let passed = advanced(bus, r);
            assert forall|i: int| 0 <= i < passed.buffer_size implies #[trigger] slot_coherent(
                passed,
                i,
            ) by {
                assert(slot_coherent(bus, i));
            }
            theorem_received_event_was_published(passed, r, wanted);
        }
    }
}

/// Of two receives of one subscriber, the later hands out the event that was
/// published later, whatever was done to the bus between the two: what a
/// subscriber receives, taken in the order of the receiving, is a selection
/// from what was published, in the order of the publishing.
pub proof fn theorem_receives_follow_the_publish_order(
    bus: Bus,
    r: int,
    wanted: TypeId,
    between: Seq<Action>,
)
    requires
        coherent(bus),
        all_permitted(received(bus, r, wanted).0, between),
        received(bus, r, wanted).1 is Some,
        received(performed_all(received(bus, r, wanted).0, between), r, wanted).1 is Some,
    ensures
        ({
            let first = received(bus, r, wanted);
            let later = performed_all(first.0, between);
            let second = received(later, r, wanted);
            let first_number = number_received(first.0, r);
            let second_number = number_received(second.0, r);
            &&& 1 <= first_number < second_number <= second.0.log.len()
            &&& second.0.log[first_number - 1] == first.1->0
            &&& second.0.log[second_number - 1] == second.1->0
        }),
{
    let first = received(bus, r, wanted);
    theorem_received_event_was_published(bus, r, wanted);
    lemma_received_is_coherent(bus, r, wanted);
    lemma_received_moves_one_cursor(bus, r, wanted);
    let later = performed_all(first.0, between);
    lemma_actions_grow(first.0, between);
    theorem_received_event_was_published(later, r, wanted);
    lemma_received_moves_one_cursor(later, r, wanted);
    assert(first.0.readers[r] <= later.readers[r]);
}

/// The receive of a subscriber that has just registered on a coherent bus,
/// where the event published last, if there is one, is not of its type: the
/// subscriber passes the slot of the cursor, comes to a slot that is not
/// written yet, and is handed nothing.
pub proof fn lemma_late_subscriber_parks(bus: Bus, wanted: TypeId)
    requires
        coherent(bus),
        bus.slots[slot_index(bus.cursor, bus.buffer_size)].event matches Some(last)
            ==> last.type_id != wanted,
    ensures
        received(subscribed(bus), bus.readers.len() as int, wanted).1 is None,
        bus.cursor < u64::MAX ==> received(subscribed(bus), bus.readers.len() as int, wanted).0
            == advanced(subscribed(bus), bus.readers.len() as int),
{
    let r = bus.readers.len() as int;
    let joined = subscribed(bus);
    let size = bus.buffer_size;
    let start = bus.cursor;
    assert(joined.readers[r] == start);
    if start < u64::MAX {
        let index = slot_index(start, size);
        lemma_mask_is_remainder(start, size);
        assert(slot_coherent(bus, index));
        let slot = bus.slots[index];
        if slot.sequence == 0 {
            lemma_small_mod(start as nat, size as nat);
        } else {
            lemma_one_number_per_lap(slot.sequence, start, size);
        }
        assert(read_step(start, slot.sequence) is Take);
        let passed = advanced(joined, r);
        assert(received(joined, r, wanted) == received(passed, r, wanted));
        let after = (start + 1) as u64;
        assert(passed.readers[r] == after);
        if after < u64::MAX {
            let beyond = slot_index(after, size);
            lemma_mask_is_remainder(after, size);
            assert(slot_coherent(bus, beyond));
            assert(bus.slots[beyond].sequence <= start);
            assert(read_step(after, passed.slots[beyond].sequence) is Park);
        }
    }
}

/// A subscriber that registers after any number of publishes and receives
/// before the next is handed none of the events published before it
/// registered. This holds on a new ring, and wherever the event published
/// last is not of the subscriber's type: the subscriber starts at the slot of
/// the cursor, which holds that event.
pub proof fn theorem_late_subscriber_sees_no_earlier_event(bus: Bus, wanted: TypeId)
    requires
        coherent(bus),
        bus.slots[slot_index(bus.cursor, bus.buffer_size)].event matches Some(last)
            ==> last.type_id != wanted,
    ensures
        received(subscribed(bus), bus.readers.len() as int, wanted).1 is None,
{
    lemma_late_subscriber_parks(bus, wanted);
}

/// A subscriber that registered late and was handed nothing receives the
/// next event of its type as soon as that event is published.
pub proof fn theorem_late_subscriber_receives_the_next_event(
    bus: Bus,
    wanted: TypeId,
    event: Event,
)
    requires
        coherent(bus),
        bus.slots[slot_index(bus.cursor, bus.buffer_size)].event matches Some(last)
            ==> last.type_id != wanted,
        event.type_id == wanted,
        can_publish(received(subscribed(bus), bus.readers.len() as int, wanted).0),
        bus.cursor + 1 < u64::MAX,
    ensures
        ({
            let r = bus.readers.len() as int;
            let waiting = received(subscribed(bus), r, wanted).0;
            received(published(waiting, event), r, wanted).1 == Some(event)
        }),
{
    let r = bus.readers.len() as int;
    lemma_late_subscriber_parks(bus, wanted);
    let waiting = received(subscribed(bus), r, wanted).0;
    let next = (bus.cursor + 1) as u64;
    assert(waiting.readers[r] == next);
    let after = published(waiting, event);
    lemma_mask_is_remainder(next, bus.buffer_size);
    let index = slot_index(next, bus.buffer_size);
    assert(slot_coherent(bus, index));
    assert(waiting.slots[index] == bus.slots[index]);
    assert(after.slots[index] == Slot { sequence: next, event: Some(event) });
    assert(read_step(next, after.slots[index].sequence) is Take);
}

/// Once a new ring with one subscriber is full, the next publish is held
/// back: the subscriber has not passed slot 0. After the subscriber's first
/// receive, whatever it wants, the publish is granted.
pub proof fn theorem_full_ring_holds_the_publisher_back(
    buffer_size: u64,
    events: Seq<Event>,
    wanted: TypeId,
)
    requires
        is_power_of_two(buffer_size),
        events.len() == buffer_size,
    ensures
        ({
            let full = published_all(subscribed(fresh(buffer_size)), events);
            &&& can_publish_all(subscribed(fresh(buffer_size)), events)
            &&& !can_publish(full)
            &&& can_publish(received(full, 0, wanted).0)
        }),
{
    let full = published_all(subscribed(fresh(buffer_size)), events);
    lemma_first_lap_is_published(buffer_size, events);
    lemma_below_the_top(buffer_size);
    lemma_mask_is_remainder(0, buffer_size);
    lemma_small_mod(0, buffer_size as nat);
    assert(full.readers[0] == 0);
    crate::sequence::lemma_minimum_of(full.readers, full.cursor);
    assert(minimum_of(full.readers, full.cursor) == 0);
    assert(full.slots[0] == first_lap_slot(events, buffer_size, 0));
    let passed = advanced(full, 0);
    assert(received(full, 0, wanted) == received(passed, 0, wanted));
    lemma_received_moves_one_cursor(passed, 0, wanted);
    let after = received(full, 0, wanted).0;
    assert(after.readers[0] >= 1);
    crate::sequence::lemma_minimum_of(after.readers, after.cursor);
    assert(minimum_of(after.readers, after.cursor) >= 1);
}

} // verus!
