use seam_disruptor::sequence::claim::check_claim;
use seam_disruptor::sequence::claim::check_gate;
use seam_disruptor::sequence::claim::ClaimCheck;
use seam_disruptor::sequence::claim::GateCheck;
use seam_disruptor::sequence::greater;
use seam_disruptor::sequence::lesser;
use seam_disruptor::sequence::sequence_group::SequenceGroup;
use seam_disruptor::sequence::sequencer::ClaimError;
use seam_disruptor::sequence::sequencer::Sequencer;
use seam_disruptor::sequence::Sequence;
use std::sync::Arc;

#[test]
fn sequence_starts_at_its_initial_value() {
    assert_eq!(Sequence::with_value(0).get(), 0);
    assert_eq!(Sequence::with_value(41).get(), 41);
    assert_eq!(Sequence::with_value(u64::MAX).get(), u64::MAX);
}

#[test]
fn set_returns_the_previous_value() {
    let s = Sequence::with_value(3);
    assert_eq!(s.set(10), 3);
    assert_eq!(s.get(), 10);
    assert_eq!(s.set(2), 10);
    assert_eq!(s.get(), 2);
}

#[test]
fn compare_and_swap_succeeds_only_on_the_expected_value() {
    let s = Sequence::with_value(5);
    assert!(!s.compare_and_swap(4, 9));
    assert_eq!(s.get(), 5);
    assert!(s.compare_and_swap(5, 9));
    assert_eq!(s.get(), 9);
    assert!(!s.compare_and_swap(5, 11));
    assert_eq!(s.get(), 9);
}

#[test]
fn increment_adds_one_and_returns_the_value_before() {
    let s = Sequence::with_value(7);
    assert_eq!(s.increment(), 7);
    assert_eq!(s.increment(), 8);
    assert_eq!(s.get(), 9);
}

#[test]
fn minimum_and_maximum_of_a_slice() {
    let sequences = vec![
        Sequence::with_value(12),
        Sequence::with_value(4),
        Sequence::with_value(30),
    ];
    assert_eq!(Sequence::get_minimum_sequence(&sequences, 100), 4);
    assert_eq!(Sequence::get_minimum_sequence(&sequences, 2), 2);
    assert_eq!(Sequence::get_maximum_sequence(&sequences, 0), 30);
    assert_eq!(Sequence::get_maximum_sequence(&sequences, 31), 31);
}

#[test]
fn minimum_and_maximum_of_nothing_is_the_fallback() {
    let none: Vec<Sequence> = Vec::new();
    assert_eq!(Sequence::get_minimum_sequence(&none, 17), 17);
    assert_eq!(Sequence::get_maximum_sequence(&none, 17), 17);
    let group = SequenceGroup::new();
    assert_eq!(group.len(), 0);
    assert_eq!(group.minimum_sequence(17), 17);
    assert_eq!(group.maximum_sequence(17), 17);
}

#[test]
fn lesser_and_greater() {
    assert_eq!(lesser(3, 8), 3);
    assert_eq!(lesser(8, 3), 3);
    assert_eq!(lesser(5, 5), 5);
    assert_eq!(greater(3, 8), 8);
    assert_eq!(greater(8, 3), 8);
    assert_eq!(greater(5, 5), 5);
}

#[test]
fn group_follows_its_members() {
    let group = SequenceGroup::new();
    let slow = Arc::new(Sequence::with_value(2));
    let fast = Arc::new(Sequence::with_value(9));
    group.add(slow.clone());
    group.add(fast.clone());
    assert_eq!(group.len(), 2);
    assert_eq!(group.minimum_sequence(100), 2);
    assert_eq!(group.maximum_sequence(0), 9);
    slow.set(20);
    assert_eq!(group.minimum_sequence(100), 9);
    assert_eq!(group.maximum_sequence(0), 20);
    assert_eq!(group.minimum_sequence(5), 5);
}

#[test]
fn check_claim_on_given_values() {
    // First lap: the wrap point is negative, the cache at 0 clears the claim.
    assert_eq!(check_claim(0, 1, 4, 0), ClaimCheck::Clear { next: 1 });
    assert_eq!(check_claim(3, 1, 4, 0), ClaimCheck::Clear { next: 4 });
    // The claim would end one slot beyond a lap ahead of the cached bound.
    assert_eq!(check_claim(4, 1, 4, 0), ClaimCheck::Stale);
    assert_eq!(check_claim(4, 1, 4, 1), ClaimCheck::Clear { next: 5 });
    // A cached bound ahead of the cursor is of no use.
    assert_eq!(check_claim(4, 1, 4, 5), ClaimCheck::Stale);
    // Several slots at once.
    assert_eq!(check_claim(10, 4, 8, 6), ClaimCheck::Clear { next: 14 });
    assert_eq!(check_claim(10, 4, 8, 5), ClaimCheck::Stale);
    // The top of the range.
    assert_eq!(check_claim(u64::MAX, 1, 4, u64::MAX), ClaimCheck::Exhausted);
    assert_eq!(check_claim(u64::MAX - 1, 2, 4, u64::MAX - 1), ClaimCheck::Exhausted);
    assert_eq!(
        check_claim(u64::MAX - 1, 1, 4, u64::MAX - 1),
        ClaimCheck::Clear { next: u64::MAX }
    );
}

#[test]
fn check_gate_on_given_values() {
    assert_eq!(check_gate(4, 1, 4, 0), GateCheck::Gated);
    assert_eq!(check_gate(4, 1, 4, 1), GateCheck::Open);
    assert_eq!(check_gate(4, 1, 4, 4), GateCheck::Open);
    assert_eq!(check_gate(0, 4, 4, 0), GateCheck::Open);
    assert_eq!(check_gate(0, 1, 8, 0), GateCheck::Open);
    assert_eq!(check_gate(10, 4, 8, 5), GateCheck::Gated);
    assert_eq!(check_gate(10, 4, 8, 6), GateCheck::Open);
}

#[test]
fn sequencer_refuses_claims_of_no_slot_or_too_many() {
    let sequencer = Sequencer::new(4);
    assert_eq!(sequencer.next_from(0), Err(ClaimError::InvalidArgument));
    assert_eq!(sequencer.next_from(5), Err(ClaimError::InvalidArgument));
    assert_eq!(sequencer.get(), 0);
    assert_eq!(sequencer.next_from(4), Ok(4));
    assert_eq!(sequencer.get(), 4);
}

#[test]
fn sequencer_of_no_slots_refuses_every_claim() {
    let sequencer = Sequencer::new(0);
    assert_eq!(sequencer.next(), Err(ClaimError::InvalidArgument));
    assert_eq!(sequencer.next_from(0), Err(ClaimError::InvalidArgument));
}

#[test]
fn sequencer_hands_out_consecutive_numbers() {
    let sequencer = Sequencer::new(8);
    assert_eq!(sequencer.buffer_size(), 8);
    assert_eq!(sequencer.spin_limit(), u64::MAX);
    assert_eq!(sequencer.get(), 0);
    assert_eq!(sequencer.next(), Ok(1));
    assert_eq!(sequencer.next(), Ok(2));
    assert_eq!(sequencer.next_from(3), Ok(5));
    assert_eq!(sequencer.get(), 5);
    // Without a gating sequence nothing holds the publisher back.
    for expected in 6..40u64 {
        assert_eq!(sequencer.next(), Ok(expected));
    }
}

#[test]
fn sequencer_waits_for_the_slowest_gating_sequence() {
    let sequencer = Sequencer::with_spin_limit(4, 16);
    let consumer = Arc::new(Sequence::with_value(0));
    sequencer.register_gating_sequence(consumer.clone());
    for expected in 1..=4u64 {
        assert_eq!(sequencer.next(), Ok(expected));
    }
    // 5 - 4 > 0: the consumer has not passed slot 0.
    assert_eq!(sequencer.next(), Err(ClaimError::Contended));
    assert_eq!(sequencer.get(), 4);
    consumer.set(1);
    assert_eq!(sequencer.next(), Ok(5));
    assert_eq!(sequencer.next(), Err(ClaimError::Contended));
    consumer.set(3);
    assert_eq!(sequencer.next_from(2), Ok(7));
    assert_eq!(sequencer.next(), Err(ClaimError::Contended));
    assert_eq!(sequencer.get(), 7);
}

#[test]
fn sequencer_is_gated_by_the_minimum_of_several() {
    let sequencer = Sequencer::with_spin_limit(2, 8);
    let fast = Arc::new(Sequence::with_value(0));
    let slow = Arc::new(Sequence::with_value(0));
    sequencer.register_gating_sequence(fast.clone());
    sequencer.register_gating_sequence(slow.clone());
    assert_eq!(sequencer.next_from(2), Ok(2));
    fast.set(10);
    assert_eq!(sequencer.next(), Err(ClaimError::Contended));
    slow.set(1);
    assert_eq!(sequencer.next(), Ok(3));
    // In every state the cursor is at most one lap ahead of the slowest.
    assert!(sequencer.get() - sequencer.buffer_size() <= slow.get());
}

#[test]
fn sequencer_without_attempts_grants_nothing() {
    let sequencer = Sequencer::with_spin_limit(4, 0);
    assert_eq!(sequencer.spin_limit(), 0);
    assert_eq!(sequencer.next(), Err(ClaimError::Contended));
    assert_eq!(sequencer.next_from(9), Err(ClaimError::InvalidArgument));
    assert_eq!(sequencer.get(), 0);
}

#[test]
fn sequencer_stops_at_the_top_of_the_range() {
    let half: u64 = 1 << 63;
    let sequencer = Sequencer::new(half);
    assert_eq!(sequencer.next_from(half), Ok(half));
    assert_eq!(sequencer.next_from(half), Err(ClaimError::Exhausted));
    assert_eq!(sequencer.get(), half);
    assert_eq!(sequencer.next_from(half - 1), Ok(u64::MAX));
    assert_eq!(sequencer.next(), Err(ClaimError::Exhausted));
    assert_eq!(sequencer.get(), u64::MAX);
}
