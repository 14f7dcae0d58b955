use seam_disruptor::ring_buffer::RingBuffer;
use seam_disruptor::sequence::sequencer::ClaimError;
use seam_disruptor::sequence::Sequence;
use seam_disruptor::subscriber::Subscriber;
use std::sync::Arc;

fn letters() -> Vec<String> {
    vec![
        String::from("a"),
        String::from("b"),
        String::from("c"),
        String::from("d"),
        String::from("e"),
    ]
}

#[test]
fn five_publishes_each_followed_by_a_receive() {
    let ring = Arc::new(RingBuffer::new(4).unwrap());
    let subscriber: Subscriber<String> = Subscriber::subscribe(ring.clone());
    assert_eq!(subscriber.sequence(), 0);
    let mut expected_sequence = 1u64;
    for letter in letters() {
        assert_eq!(ring.publish(letter.clone()), Ok(expected_sequence));
        let event = subscriber.recv().unwrap();
        assert_eq!(*event, letter);
        expected_sequence += 1;
        assert_eq!(subscriber.sequence(), expected_sequence);
    }
}

#[test]
fn fifth_publish_waits_for_a_paused_subscriber() {
    let ring = Arc::new(RingBuffer::with_spin_limit(4, 32).unwrap());
    let subscriber: Subscriber<String> = Subscriber::subscribe(ring.clone());
    let all = letters();
    for (index, letter) in all.iter().take(4).enumerate() {
        assert_eq!(ring.publish(letter.clone()), Ok(index as u64 + 1));
    }
    // The subscriber is still at slot 0: the fifth claim is held back.
    assert_eq!(ring.publish(all[4].clone()), Err(ClaimError::Contended));
    assert_eq!(ring.sequencer().get(), 4);
    assert_eq!(*subscriber.recv().unwrap(), "a");
    // It has passed slot 0 now, and the claim goes through.
    assert_eq!(ring.publish(all[4].clone()), Ok(5));
    assert_eq!(*subscriber.recv().unwrap(), "b");
    assert_eq!(*subscriber.recv().unwrap(), "c");
    assert_eq!(*subscriber.recv().unwrap(), "d");
    assert_eq!(*subscriber.recv().unwrap(), "e");
    assert!(subscriber.try_recv().is_none());
}

#[test]
fn publishes_followed_by_as_many_receives_arrive_in_order() {
    for count in 0..=8u64 {
        let ring = Arc::new(RingBuffer::with_spin_limit(8, 4).unwrap());
        let subscriber: Subscriber<u64> = Subscriber::subscribe(ring.clone());
        for value in 0..count {
            assert_eq!(ring.publish(value * 10), Ok(value + 1));
        }
        for value in 0..count {
            assert_eq!(*subscriber.try_recv().unwrap(), value * 10);
        }
        assert!(subscriber.try_recv().is_none());
    }
}

#[test]
fn one_publish_more_than_the_ring_holds_is_held_back() {
    let ring = Arc::new(RingBuffer::with_spin_limit(4, 4).unwrap());
    let _subscriber: Subscriber<u64> = Subscriber::subscribe(ring.clone());
    for value in 1..=4u64 {
        assert_eq!(ring.publish(value), Ok(value));
    }
    assert_eq!(ring.publish(5u64), Err(ClaimError::Contended));
}

#[test]
fn late_subscriber_sees_nothing_until_the_next_publish() {
    let ring = Arc::new(RingBuffer::new(8).unwrap());
    for value in 1..=3u64 {
        assert_eq!(ring.publish(value), Ok(value));
    }
    // The event published last is not of the subscriber's type.
    let subscriber: Subscriber<String> = Subscriber::subscribe(ring.clone());
    assert_eq!(subscriber.sequence(), 3);
    assert!(subscriber.try_recv().is_none());
    assert_eq!(subscriber.sequence(), 4);
    assert!(subscriber.try_recv().is_none());
    assert_eq!(subscriber.sequence(), 4);
    assert_eq!(ring.publish(String::from("fourth")), Ok(4));
    assert_eq!(*subscriber.recv().unwrap(), "fourth");
    assert_eq!(subscriber.sequence(), 5);
}

#[test]
fn subscriber_on_a_new_ring_sees_nothing_before_the_first_publish() {
    let ring = Arc::new(RingBuffer::new(2).unwrap());
    let subscriber: Subscriber<String> = Subscriber::subscribe(ring.clone());
    assert!(subscriber.try_recv().is_none());
    assert_eq!(subscriber.sequence(), 1);
    assert_eq!(ring.publish(String::from("first")), Ok(1));
    assert_eq!(*subscriber.try_recv().unwrap(), "first");
}

#[test]
fn each_subscriber_receives_only_its_own_type() {
    let ring = Arc::new(RingBuffer::new(8).unwrap());
    let words: Subscriber<String> = Subscriber::subscribe(ring.clone());
    let numbers: Subscriber<u64> = Subscriber::subscribe(ring.clone());
    ring.publish(String::from("x")).unwrap();
    ring.publish(1u64).unwrap();
    ring.publish(2u64).unwrap();
    ring.publish(String::from("y")).unwrap();
    ring.publish(3u32).unwrap();
    ring.publish(3u64).unwrap();

    assert_eq!(*words.recv().unwrap(), "x");
    assert_eq!(*numbers.recv().unwrap(), 1);
    assert_eq!(*numbers.recv().unwrap(), 2);
    assert_eq!(*words.recv().unwrap(), "y");
    assert_eq!(*numbers.recv().unwrap(), 3);
    assert!(words.try_recv().is_none());
    assert!(numbers.try_recv().is_none());
    assert_eq!(words.sequence(), 7);
    assert_eq!(numbers.sequence(), 7);
}

#[test]
fn unregistered_subscriber_is_lapped_and_skips_what_it_lost() {
    let ring = Arc::new(RingBuffer::new(4).unwrap());
    // A cursor that no publisher knows of holds no publisher back.
    let subscriber: Subscriber<u64> =
        Subscriber::new(ring.clone(), Arc::new(Sequence::with_value(0)));
    for value in 1..=6u64 {
        assert_eq!(ring.publish(value * 100), Ok(value));
    }
    // Slots 0, 1 and 2 hold the events 4, 5 and 6 by now: 1 and 2 are lost.
    assert_eq!(*subscriber.recv().unwrap(), 300);
    assert_eq!(subscriber.sequence(), 4);
    assert_eq!(*subscriber.recv().unwrap(), 400);
    assert_eq!(*subscriber.recv().unwrap(), 500);
    assert_eq!(*subscriber.recv().unwrap(), 600);
    assert!(subscriber.try_recv().is_none());
    assert_eq!(subscriber.sequence(), 7);
}

#[test]
fn subscriber_without_patience_does_not_wait() {
    let ring = Arc::new(RingBuffer::new(4).unwrap());
    let subscriber: Subscriber<u64> = Subscriber::subscribe(ring.clone()).with_patience(0);
    assert_eq!(subscriber.patience(), 0);
    assert!(subscriber.recv().is_none());
    ring.publish(5u64).unwrap();
    assert_eq!(*subscriber.recv().unwrap(), 5);
    assert!(subscriber.recv().is_none());
}

#[test]
fn wait_for_writer_returns_at_once_where_the_slot_is_ready() {
    let ring = Arc::new(RingBuffer::new(4).unwrap());
    let subscriber: Subscriber<u64> = Subscriber::subscribe(ring.clone());
    // Slot 0 holds sequence number 0, which is the cursor: nothing to wait for.
    subscriber.wait_for_writer();
    assert!(subscriber.try_recv().is_none());
    ring.publish(8u64).unwrap();
    subscriber.wait_for_writer();
    assert_eq!(*subscriber.recv().unwrap(), 8);
}

#[test]
fn subscriber_at_the_top_of_the_range_receives_nothing() {
    let ring = Arc::new(RingBuffer::new(4).unwrap());
    let subscriber: Subscriber<u64> =
        Subscriber::new(ring.clone(), Arc::new(Sequence::with_value(u64::MAX)));
    assert!(subscriber.try_recv().is_none());
    assert!(subscriber.recv().is_none());
    assert_eq!(subscriber.sequence(), u64::MAX);
}

#[test]
fn subscriber_starts_at_the_slot_of_the_cursor() {
    let ring = Arc::new(RingBuffer::new(8).unwrap());
    ring.publish(String::from("early")).unwrap();
    ring.publish(String::from("last before")).unwrap();
    // The cursor is at 2, and so is the new subscriber: events below 2 are
    // behind it, the slot of 2 is the first that it looks at.
    let subscriber: Subscriber<String> = Subscriber::subscribe(ring.clone());
    assert_eq!(subscriber.sequence(), 2);
    assert_eq!(*subscriber.try_recv().unwrap(), "last before");
    assert!(subscriber.try_recv().is_none());
    ring.publish(String::from("after")).unwrap();
    assert_eq!(*subscriber.try_recv().unwrap(), "after");
}
