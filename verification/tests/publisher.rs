use seam_disruptor::publisher::AsyncPublisher;
use seam_disruptor::publisher::SendError;
use seam_disruptor::ring_buffer::RingBuffer;
use seam_disruptor::sequence::sequencer::ClaimError;
use seam_disruptor::subscriber::Subscriber;
use std::sync::Arc;

#[test]
fn publisher_accepts_one_event_at_a_time() {
    let ring = Arc::new(RingBuffer::new(4).unwrap());
    let subscriber: Subscriber<String> = Subscriber::subscribe(ring.clone());
    let mut publisher: AsyncPublisher<String> = AsyncPublisher::new(ring.clone());
    assert!(publisher.poll_ready());
    assert_eq!(publisher.pending_sequence(), None);

    assert_eq!(publisher.start_send(String::from("first")), Ok(()));
    // The slot is claimed on acceptance, and written only on flush.
    assert_eq!(publisher.pending_sequence(), Some(1));
    assert_eq!(ring.sequencer().get(), 1);
    assert_eq!(ring.get_envelope(1).unwrap().sequence(), 0);
    assert!(!publisher.poll_ready());
    assert!(subscriber.try_recv().is_none());

    assert_eq!(publisher.start_send(String::from("second")), Err(SendError::NotReady));
    assert_eq!(publisher.pending_sequence(), Some(1));
    assert_eq!(ring.sequencer().get(), 1);

    assert!(publisher.poll_flush());
    assert!(publisher.poll_ready());
    assert_eq!(publisher.pending_sequence(), None);
    assert_eq!(ring.get_envelope(1).unwrap().sequence(), 1);
    assert_eq!(*subscriber.recv().unwrap(), "first");

    assert_eq!(publisher.start_send(String::from("third")), Ok(()));
    assert_eq!(publisher.pending_sequence(), Some(2));
    publisher.publish();
    assert_eq!(*subscriber.recv().unwrap(), "third");
    assert!(publisher.poll_close());
}

#[test]
fn flush_with_nothing_pending_writes_nothing() {
    let ring = Arc::new(RingBuffer::new(4).unwrap());
    let mut publisher: AsyncPublisher<u64> = AsyncPublisher::new(ring.clone());
    assert!(publisher.poll_flush());
    publisher.publish();
    assert!(publisher.poll_ready());
    assert_eq!(ring.sequencer().get(), 0);
    for sequence in 0..4u64 {
        assert_eq!(ring.get_envelope(sequence).unwrap().sequence(), 0);
    }
}

#[test]
fn failed_claim_leaves_nothing_pending() {
    let ring = Arc::new(RingBuffer::with_spin_limit(4, 0).unwrap());
    let mut publisher: AsyncPublisher<u64> = AsyncPublisher::new(ring.clone());
    assert_eq!(publisher.start_send(1), Err(SendError::Claim(ClaimError::Contended)));
    assert!(publisher.poll_ready());
    assert_eq!(publisher.pending_sequence(), None);
}

#[test]
fn close_drops_a_pending_event_unwritten() {
    let ring = Arc::new(RingBuffer::new(4).unwrap());
    let mut publisher: AsyncPublisher<u64> = AsyncPublisher::new(ring.clone());
    assert_eq!(publisher.start_send(9), Ok(()));
    assert!(publisher.poll_close());
    assert_eq!(ring.sequencer().get(), 1);
    assert_eq!(ring.get_envelope(1).unwrap().sequence(), 0);
}
