use seam_disruptor::event::decide_read;
use seam_disruptor::event::Event;
use seam_disruptor::event::EventEnvelope;
use seam_disruptor::event::EventRead;
use seam_disruptor::event::ReadStep;
use seam_disruptor::event::Slot;
use std::any::TypeId;
use std::sync::Arc;

#[test]
fn event_read() {
    let e = EventEnvelope::new();
    let r = e.read::<String>();
    assert!(r.is_none());
}

#[test]
fn event_overwrite() {
    let e = EventEnvelope::new();
    e.overwrite(1, String::from("Hello world!"));

    let readable_event = e.read::<String>();
    assert!(readable_event.is_some());

    let first_handle = readable_event.unwrap();
    let read_msg = &*first_handle;
    let expected_msg = String::from("Hello world!");

    assert!(expected_msg.eq(read_msg));

    e.overwrite(1, String::from("Bye Felicia!"));

    let another_readable_event = e.read::<String>();
    assert!(another_readable_event.is_some());

    let second_handle = another_readable_event.unwrap();
    let another_read_msg = &*second_handle;
    let another_expected_msg = String::from("Bye Felicia!");

    assert!(another_expected_msg.eq(another_read_msg));

    assert!(expected_msg.eq(read_msg));
}

#[test]
fn read_of_another_type_gives_nothing() {
    let e = EventEnvelope::new();
    e.overwrite(1, 7u64);
    assert!(e.read::<String>().is_none());
    assert!(e.read::<u32>().is_none());
    assert_eq!(*e.read::<u64>().unwrap(), 7);
}

#[test]
fn envelope_starts_at_sequence_zero_and_keeps_the_written_number() {
    let e = EventEnvelope::new();
    assert_eq!(e.sequence(), 0);
    e.overwrite(5, String::from("five"));
    assert_eq!(e.sequence(), 5);
    e.overwrite(9, String::from("nine"));
    assert_eq!(e.sequence(), 9);
    assert_eq!(*e.read::<String>().unwrap(), "nine");
}

#[test]
fn write_under_a_lower_number_is_dropped() {
    let e = EventEnvelope::new();
    e.overwrite(9, String::from("nine"));
    e.overwrite(1, String::from("one"));
    assert_eq!(e.sequence(), 9);
    assert_eq!(*e.read::<String>().unwrap(), "nine");
}

#[test]
fn handle_keeps_its_value_across_many_overwrites() {
    let e = EventEnvelope::new();
    e.overwrite(1, vec![1u8, 2, 3]);
    let held = e.read::<Vec<u8>>().unwrap();
    for round in 2..200u64 {
        e.overwrite(round, vec![round as u8; 64]);
    }
    assert_eq!(*held, vec![1u8, 2, 3]);
    assert_eq!(*e.read::<Vec<u8>>().unwrap(), vec![199u8; 64]);
}

#[test]
fn decide_read_takes_parks_and_skips() {
    assert_eq!(decide_read(3, 3), ReadStep::Take);
    assert_eq!(decide_read(0, 0), ReadStep::Take);
    assert_eq!(decide_read(3, 2), ReadStep::Park);
    assert_eq!(decide_read(5, 0), ReadStep::Park);
    assert_eq!(decide_read(3, 7), ReadStep::Skip);
    assert_eq!(decide_read(0, 4), ReadStep::Skip);
}

#[test]
fn read_at_decides_on_the_slot_and_reads_only_on_take() {
    let e = EventEnvelope::new();
    let (step, read) = e.read_at::<String>(0);
    assert_eq!(step, ReadStep::Take);
    assert!(read.is_none());

    e.overwrite(4, String::from("four"));
    let (step, read) = e.read_at::<String>(4);
    assert_eq!(step, ReadStep::Take);
    assert_eq!(*read.unwrap(), "four");

    let (step, read) = e.read_at::<u64>(4);
    assert_eq!(step, ReadStep::Take);
    assert!(read.is_none());

    let (step, read) = e.read_at::<String>(8);
    assert_eq!(step, ReadStep::Park);
    assert!(read.is_none());

    let (step, read) = e.read_at::<String>(0);
    assert_eq!(step, ReadStep::Skip);
    assert!(read.is_none());
}

#[test]
fn slot_transitions() {
    let slot = Slot::empty();
    assert_eq!(slot.sequence, 0);
    assert!(slot.event.is_none());

    let slot = slot.overwritten(2, Event::new(String::from("two")));
    assert_eq!(slot.sequence, 2);
    let wanted = TypeId::of::<String>();
    assert_eq!(*slot.read::<String>(&wanted).unwrap(), "two");

    let slot = slot.overwritten(1, Event::new(String::from("one")));
    assert_eq!(slot.sequence, 2);
    assert_eq!(*slot.read::<String>(&wanted).unwrap(), "two");

    let slot = slot.overwritten(2, Event::new(String::from("again")));
    assert_eq!(slot.sequence, 2);
    assert_eq!(*slot.read::<String>(&wanted).unwrap(), "again");
}

#[test]
fn event_carries_the_identifier_of_its_type() {
    let event = Event::new(12u32);
    assert_eq!(event.type_id, TypeId::of::<u32>());
    assert_ne!(event.type_id, TypeId::of::<u64>());
    assert_eq!(*event.read_as::<u32>(&TypeId::of::<u32>()).unwrap(), 12);
    assert!(event.read_as::<u64>(&TypeId::of::<u64>()).is_none());
    // A reader that is handed the wrong tag for its type gets nothing either.
    assert!(event.read_as::<u64>(&TypeId::of::<u32>()).is_none());
    assert!(event.read_as::<u32>(&TypeId::of::<u64>()).is_none());
}

#[test]
fn handle_is_granted_only_for_a_matching_tag_and_a_restored_value() {
    assert_eq!(*EventRead::granted(true, Some(Arc::new(5u64))).unwrap(), 5);
    assert!(EventRead::granted(false, Some(Arc::new(5u64))).is_none());
    assert!(EventRead::<u64>::granted(true, None).is_none());
    assert!(EventRead::<u64>::granted(false, None).is_none());
}
