//! The publisher-side coordinator: the write cursor, the gating sequences and
//! the claim loop.

use crate::sequence::claim::check_claim;
use crate::sequence::claim::claim_check;
use crate::sequence::claim::check_gate;
use crate::sequence::claim::ClaimCheck;
use crate::sequence::claim::GateCheck;
use crate::sequence::sequence_group::SequenceGroup;
use crate::sequence::Sequence;
use std::sync::Arc;
use vstd::prelude::*;

verus! {

/// `std::hint::spin_loop`: tells the processor that the thread is in a
/// busy-wait loop. It has no effect that a program can observe, so the
/// contract states nothing.
pub assume_specification[ std::hint::spin_loop ]();

/// Why a claim was not granted.
#[derive(Clone, Copy, Debug, PartialEq, Eq, Structural)]
pub enum ClaimError {
    /// The number of slots asked for is zero or more than the ring holds.
    InvalidArgument,
    /// The cursor is so close to the top of the `u64` range that the claim
    /// would pass it.
    Exhausted,
    /// Every attempt that the sequencer allows itself was used up, each
    /// either held back by a slow consumer or beaten by another publisher.
    Contended,
}

/// The write cursor of a ring together with the sequences that gate it.
pub struct Sequencer {
    cursor: Sequence,
    gating_sequence_cache: Arc<Sequence>,
    gating_sequences: SequenceGroup,
    buffer_size: u64,
    spin_limit: u64,
}

impl Sequencer {
    /// The number of slots of the ring that this sequencer serves.
    pub closed spec fn spec_buffer_size(&self) -> u64 {
        self.buffer_size
    }

    /// The number of attempts that one call of `next_from` may make.
    pub closed spec fn spec_spin_limit(&self) -> u64 {
        self.spin_limit
    }

    /// A sequencer for a ring of `buffer_size` slots, with the cursor at 0
    /// and no gating sequence. A claim may take `u64::MAX` attempts, which no
    /// caller will live to see used up.
    pub fn new(buffer_size: u64) -> (sequencer: Self)
        ensures
            sequencer.spec_buffer_size() == buffer_size,
            sequencer.spec_spin_limit() == u64::MAX,
    {
        Sequencer::with_spin_limit(buffer_size, u64::MAX)
    }

    /// A sequencer like that of `new`, whose claims give up after
    /// `spin_limit` attempts.
    pub fn with_spin_limit(buffer_size: u64, spin_limit: u64) -> (sequencer: Self)
        ensures
            sequencer.spec_buffer_size() == buffer_size,
            sequencer.spec_spin_limit() == spin_limit,
    {
        Sequencer {
            cursor: Sequence::with_value(0),
            gating_sequence_cache: Arc::new(Sequence::with_value(0)),
            gating_sequences: SequenceGroup::new(),
            buffer_size,
            spin_limit,
        }
    }

    /// The number of slots of the ring that this sequencer serves.
    #[verifier::when_used_as_spec(spec_buffer_size)]
    pub fn buffer_size(&self) -> (size: u64)
        ensures
            size == self.spec_buffer_size(),
    {
        self.buffer_size
    }

    /// The number of attempts that one call of `next_from` may make.
    #[verifier::when_used_as_spec(spec_spin_limit)]
    pub fn spin_limit(&self) -> (limit: u64)
        ensures
            limit == self.spec_spin_limit(),
    {
        self.spin_limit
    }

    /// Adds a consumer's cursor to the sequences that hold publishers back.
    /// It gates the claims that scan the group after this call.
    pub fn register_gating_sequence(&self, sequence: Arc<Sequence>) {
        self.gating_sequences.add(sequence);
    }

    /// The highest sequence number claimed so far, at the moment of the load.
    pub fn get(&self) -> (cursor: u64) {
        self.cursor.get()
    }

    /// Claims the next slot: `next_from(1)`.
    pub fn next(&self) -> (claim: Result<u64, ClaimError>)
        ensures
            claim == Err::<u64, ClaimError>(ClaimError::InvalidArgument)
                <==> self.spec_buffer_size() == 0,
            self.spec_buffer_size() > 0 && self.spec_spin_limit() == 0 ==> claim == Err::<
                u64,
                ClaimError,
            >(ClaimError::Contended),
            claim matches Ok(next) ==> next >= 1,
    {
        self.next_from(1)
    }

    /// Claims the next `n` slots and returns the sequence number of the last
    /// of them.
    ///
    /// A claim of no slot, or of more slots than the ring has, is refused at
    /// once. Otherwise the claim is attempted up to `spin_limit` times. An
    /// attempt loads the cursor and the cached gating bound and lets
    /// `check_claim` decide. Where the cache is of no use, the gating
    /// sequences are scanned and `check_gate` decides whether the claim has
    /// to wait or the cache is refreshed. Where the cache clears the claim,
    /// the cursor is moved by a compare-and-swap, and the claim is granted if
    /// that succeeds.
    ///
    /// What the loads return depends on the other threads, so of a granted
    /// claim the contract states only that `check_claim` cleared it on some
    /// value of the cursor and some value of the cached bound.
    pub fn next_from(&self, n: u64) -> (claim: Result<u64, ClaimError>)
        ensures
            claim == Err::<u64, ClaimError>(ClaimError::InvalidArgument) <==> (n < 1 || n
                > self.spec_buffer_size()),
            1 <= n <= self.spec_buffer_size() && self.spec_spin_limit() == 0 ==> claim == Err::<
                u64,
                ClaimError,
            >(ClaimError::Contended),
            claim matches Ok(next) ==> next >= n && exists|current: u64, cached: u64|
                claim_check(current, n, self.spec_buffer_size(), cached) == (ClaimCheck::Clear {
                    next,
                }),
    {
        if n < 1 || n > self.buffer_size {
            return Err(ClaimError::InvalidArgument);
        }
        let mut spins: u64 = 0;
        while spins < self.spin_limit
            invariant
                1 <= n <= self.buffer_size,
            decreases self.spin_limit - spins,
        {
            spins = spins + 1;
            let current = self.cursor.get();
            let cached = self.gating_sequence_cache.get();
            match check_claim(current, n, self.buffer_size, cached) {
                ClaimCheck::Exhausted => {
                    return Err(ClaimError::Exhausted);
                },
                ClaimCheck::Stale => {
                    let gating = self.gating_sequences.minimum_sequence(current);
                    match check_gate(current, n, self.buffer_size, gating) {
                        GateCheck::Gated => {
                            std::hint::spin_loop();
                        },
                        GateCheck::Open => {
                            self.gating_sequence_cache.set(gating);
                        },
                    }
                },
                ClaimCheck::Clear { next } => {
                    if self.cursor.compare_and_swap(current, next) {
                        assert(claim_check(current, n, self.spec_buffer_size(), cached) == (
                        ClaimCheck::Clear { next }));
                        return Ok(next);
                    }
                },
            }
        }
        Err(ClaimError::Contended)
    }
}

} // verus!
