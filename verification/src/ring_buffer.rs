//! The ring: a power-of-two number of slots and the sequencer that hands out
//! their sequence numbers.

use crate::event::EventEnvelope;
use crate::sequence::sequencer::ClaimError;
use crate::sequence::sequencer::Sequencer;
use vstd::arithmetic::power2::lemma_pow2_unfold;
use vstd::arithmetic::power2::pow2;
use vstd::bits::lemma_u64_low_bits_mask_is_mod;
use vstd::bits::lemma_u64_pow2_no_overflow;
use vstd::bits::low_bits_mask;
use vstd::prelude::*;

verus! {

/// Whether `n` is one of 1, 2, 4, ..., 2^63.
pub open spec fn is_power_of_two(n: u64) -> bool {
    exists|k: nat| k < 64 && n == pow2(k)
}

/// The slot that holds sequence number `sequence` in a ring of `buffer_size`
/// slots.
pub open spec fn slot_index(sequence: u64, buffer_size: u64) -> int {
    sequence as int % buffer_size as int
}

/// Decides whether `n` is a power of two.
pub fn check_power_of_two(n: u64) -> (yes: bool)
    ensures
        yes == is_power_of_two(n),
{
    let mut k: u32 = 0;
    let mut power: u64 = 1;
    proof {
        vstd::arithmetic::power2::lemma2_to64();
    }
    loop
        invariant
            k < 64,
            power == pow2(k as nat),
            forall|j: nat| j < k ==> n != pow2(j),
        decreases 64 - k,
    {
        if power == n {
            return true;
        }
        if k == 63 {
            return false;
        }
        proof {
            lemma_pow2_unfold((k + 1) as nat);
            lemma_u64_pow2_no_overflow((k + 1) as nat);
        }
        power = power * 2;
        k = k + 1;
    }
}

/// For a power of two, masking with `buffer_size - 1` is the remainder of the
/// division by `buffer_size`.
pub proof fn lemma_mask_is_remainder(sequence: u64, buffer_size: u64)
    requires
        is_power_of_two(buffer_size),
    ensures
        buffer_size >= 1,
        sequence & ((buffer_size - 1) as u64) == slot_index(sequence, buffer_size),
        0 <= slot_index(sequence, buffer_size) < buffer_size,
{
    let k = choose|k: nat| k < 64 && buffer_size == pow2(k);
    lemma_u64_pow2_no_overflow(k);
    lemma_u64_low_bits_mask_is_mod(sequence, k);
    assert(low_bits_mask(k) as u64 == (buffer_size - 1) as u64);
}

/// Why a ring could not be made.
#[derive(Clone, Copy, Debug, PartialEq, Eq, Structural)]
pub enum BufferError {
    /// The number of slots asked for is not a power of two.
    NotPowerOfTwo,
    /// The number of slots asked for is beyond what this machine can index.
    TooLarge,
}

/// A fixed ring of slots with its sequencer.
pub struct RingBuffer {
    buffer_size: u64,
    envelopes: Vec<EventEnvelope>,
    sequencer: Sequencer,
}

impl RingBuffer {
    #[verifier::type_invariant]
    spec fn well_formed(&self) -> bool {
        &&& is_power_of_two(self.buffer_size)
        &&& self.envelopes@.len() == self.buffer_size
        &&& self.sequencer.spec_buffer_size() == self.buffer_size
    }

    /// The number of slots.
    pub closed spec fn spec_buffer_size(&self) -> u64 {
        self.buffer_size
    }

    /// The slots, by index.
    pub closed spec fn slots(&self) -> Seq<EventEnvelope> {
        self.envelopes@
    }

    /// The sequencer that serves this ring.
    pub closed spec fn spec_sequencer(&self) -> Sequencer {
        self.sequencer
    }

    /// A ring of `buffer_size` empty slots, whose sequencer makes up to
    /// `u64::MAX` attempts at a claim.
    pub fn new(buffer_size: u64) -> (made: Result<Self, BufferError>)
        ensures
            match made {
                Ok(ring) => {
                    &&& is_power_of_two(buffer_size)
                    &&& buffer_size <= usize::MAX
                    &&& ring.spec_buffer_size() == buffer_size
                    &&& ring.slots().len() == buffer_size
                    &&& ring.spec_sequencer().spec_buffer_size() == buffer_size
                    &&& ring.spec_sequencer().spec_spin_limit() == u64::MAX
                },
                Err(BufferError::NotPowerOfTwo) => !is_power_of_two(buffer_size),
                Err(BufferError::TooLarge) => is_power_of_two(buffer_size) && buffer_size
                    > usize::MAX,
            },
    {
        RingBuffer::with_spin_limit(buffer_size, u64::MAX)
    }

    /// A ring like that of `new`, whose sequencer gives a claim up after
    /// `spin_limit` attempts.
    pub fn with_spin_limit(buffer_size: u64, spin_limit: u64) -> (made: Result<Self, BufferError>)
        ensures
            match made {
                Ok(ring) => {
                    &&& is_power_of_two(buffer_size)
                    &&& buffer_size <= usize::MAX
                    &&& ring.spec_buffer_size() == buffer_size
                    &&& ring.slots().len() == buffer_size
                    &&& ring.spec_sequencer().spec_buffer_size() == buffer_size
                    &&& ring.spec_sequencer().spec_spin_limit() == spin_limit
                },
                Err(BufferError::NotPowerOfTwo) => !is_power_of_two(buffer_size),
                Err(BufferError::TooLarge) => is_power_of_two(buffer_size) && buffer_size
                    > usize::MAX,
            },
    {
        if !check_power_of_two(buffer_size) {
            return Err(BufferError::NotPowerOfTwo);
        }
        if buffer_size > usize::MAX as u64 {
            return Err(BufferError::TooLarge);
        }
        let mut envelopes: Vec<EventEnvelope> = Vec::new();
        let mut filled: u64 = 0;
        while filled < buffer_size
            invariant
                filled <= buffer_size,
                envelopes@.len() == filled,
            decreases buffer_size - filled,
        {
            envelopes.push(EventEnvelope::new());
            filled = filled + 1;
        }
        Ok(RingBuffer {
            buffer_size,
            envelopes,
            sequencer: Sequencer::with_spin_limit(buffer_size, spin_limit),
        })
    }

    /// The number of slots.
    #[verifier::when_used_as_spec(spec_buffer_size)]
    pub fn buffer_size(&self) -> (size: u64)
        ensures
            size == self.spec_buffer_size(),
            is_power_of_two(size),
    {
        proof {
            use_type_invariant(self);
        }
        self.buffer_size
    }

    /// The sequencer that serves this ring.
    pub fn sequencer(&self) -> (sequencer: &Sequencer)
        ensures
            *sequencer == self.spec_sequencer(),
            sequencer.spec_buffer_size() == self.spec_buffer_size(),
    {
        proof {
            use_type_invariant(self);
        }
        &self.sequencer
    }

    /// Claims the next slot and returns its sequence number. A ring has at
    /// least one slot, so a claim of one is never refused as invalid.
    pub fn next(&self) -> (claim: Result<u64, ClaimError>)
        ensures
            claim != Err::<u64, ClaimError>(ClaimError::InvalidArgument),
            self.spec_sequencer().spec_spin_limit() == 0 ==> claim == Err::<u64, ClaimError>(
                ClaimError::Contended,
            ),
            claim matches Ok(next) ==> next >= 1,
    {
        proof {
            use_type_invariant(self);
            lemma_mask_is_remainder(0, self.buffer_size);
        }
        self.sequencer.next()
    }

    /// The slot that holds sequence number `sequence`: the one at index
    /// `sequence` modulo the number of slots. Every sequence number has one.
    pub fn get_envelope(&self, sequence: u64) -> (envelope: Option<&EventEnvelope>)
        ensures
            envelope == Some(&self.slots()[slot_index(sequence, self.spec_buffer_size())]),
            0 <= slot_index(sequence, self.spec_buffer_size()) < self.slots().len(),
    {
        proof {
            use_type_invariant(self);
            lemma_mask_is_remainder(sequence, self.buffer_size);
        }
        let mask: u64 = self.buffer_size - 1;
        let masked: u64 = sequence & mask;
        assert(masked == slot_index(sequence, self.buffer_size));
        assert(masked < self.envelopes.len() <= usize::MAX);
        let index: usize = masked as usize;
        Some(&self.envelopes[index])
    }

    /// Claims the next slot and writes `data` into it under the claimed
    /// sequence number, which is returned. Where the claim is not granted,
    /// nothing is written and `data` is dropped.
    pub fn publish<T: 'static + Send + Sync>(&self, data: T) -> (published: Result<u64, ClaimError>)
        ensures
            published != Err::<u64, ClaimError>(ClaimError::InvalidArgument),
            self.spec_sequencer().spec_spin_limit() == 0 ==> published == Err::<u64, ClaimError>(
                ClaimError::Contended,
            ),
            published matches Ok(next) ==> next >= 1,
    {
        match self.next() {
            Ok(sequence) => {
                self.get_envelope(sequence).unwrap().overwrite(sequence, data);
                Ok(sequence)
            },
            Err(error) => Err(error),
        }
    }
}

} // verus!
