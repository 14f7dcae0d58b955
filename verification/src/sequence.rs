//! Atomic sequence counters and the folds over groups of them.

pub mod claim;
pub mod sequence_group;
pub mod sequencer;

use std::sync::atomic::AtomicU64;
use std::sync::atomic::Ordering;
use vstd::prelude::*;

verus! {

/// The least of `fallback` and the values of `values`.
pub open spec fn minimum_of(values: Seq<u64>, fallback: u64) -> u64
    decreases values.len(),
{
    if values.len() == 0 {
        fallback
    } else {
        let rest = minimum_of(values.drop_last(), fallback);
        if values.last() < rest {
            values.last()
        } else {
            rest
        }
    }
}

/// The greatest of `fallback` and the values of `values`.
pub open spec fn maximum_of(values: Seq<u64>, fallback: u64) -> u64
    decreases values.len(),
{
    if values.len() == 0 {
        fallback
    } else {
        let rest = maximum_of(values.drop_last(), fallback);
        if values.last() > rest {
            values.last()
        } else {
            rest
        }
    }
}

/// `minimum_of` is a lower bound of the fallback and of every value, and it is
/// one of them.
pub proof fn lemma_minimum_of(values: Seq<u64>, fallback: u64)
    ensures
        minimum_of(values, fallback) <= fallback,
        forall|i: int| 0 <= i < values.len() ==> minimum_of(values, fallback) <= #[trigger] values[i],
        minimum_of(values, fallback) == fallback || exists|i: int|
            0 <= i < values.len() && minimum_of(values, fallback) == values[i],
    decreases values.len(),
{
    if values.len() > 0 {
        let front = values.drop_last();
        lemma_minimum_of(front, fallback);
        let rest = minimum_of(front, fallback);
        assert forall|i: int| 0 <= i < values.len() implies minimum_of(values, fallback)
            <= #[trigger] values[i] by {
            if i < front.len() {
                assert(front[i] == values[i]);
            }
        }
        if values.last() < rest {
            assert(minimum_of(values, fallback) == values[values.len() - 1]);
        } else if rest != fallback {
            let i = choose|i: int| 0 <= i < front.len() && rest == front[i];
            assert(minimum_of(values, fallback) == values[i]);
        }
    }
}

/// `maximum_of` is an upper bound of the fallback and of every value, and it
/// is one of them.
pub proof fn lemma_maximum_of(values: Seq<u64>, fallback: u64)
    ensures
        maximum_of(values, fallback) >= fallback,
        forall|i: int| 0 <= i < values.len() ==> maximum_of(values, fallback) >= #[trigger] values[i],
        maximum_of(values, fallback) == fallback || exists|i: int|
            0 <= i < values.len() && maximum_of(values, fallback) == values[i],
    decreases values.len(),
{
    if values.len() > 0 {
        let front = values.drop_last();
        lemma_maximum_of(front, fallback);
        let rest = maximum_of(front, fallback);
        assert forall|i: int| 0 <= i < values.len() implies maximum_of(values, fallback)
            >= #[trigger] values[i] by {
            if i < front.len() {
                assert(front[i] == values[i]);
            }
        }
        if values.last() > rest {
            assert(maximum_of(values, fallback) == values[values.len() - 1]);
        } else if rest != fallback {
            let i = choose|i: int| 0 <= i < front.len() && rest == front[i];
            assert(maximum_of(values, fallback) == values[i]);
        }
    }
}

/// The smaller of two values.
pub fn lesser(a: u64, b: u64) -> (m: u64)
    ensures
        m == if b < a { b } else { a },
{
    if b < a {
        b
    } else {
        a
    }
}

/// The larger of two values.
pub fn greater(a: u64, b: u64) -> (m: u64)
    ensures
        m == if b > a { b } else { a },
{
    if b > a {
        b
    } else {
        a
    }
}

/// A counter that many threads read and update without a lock.
///
/// The value lives in an atomic cell that is shared by reference, so another
/// thread may change it between any two calls: nothing a method returns can be
/// tied to an earlier call by a contract.
pub struct Sequence {
    value: AtomicU64,
}

impl Sequence {
    /// A counter that starts at `initial_value`.
    pub fn with_value(initial_value: u64) -> (s: Self) {
        Sequence { value: AtomicU64::new(initial_value) }
    }

    /// Folds the values loaded from `sequences` with `minimum`, keeping the
    /// least. Each counter is loaded once, in order.
    pub fn get_minimum_sequence(sequences: &[Sequence], minimum: u64) -> (m: u64)
        ensures
            m <= minimum,
            sequences@.len() == 0 ==> m == minimum,
            exists|seen: Seq<u64>|
                seen.len() == sequences@.len() && m == minimum_of(seen, minimum),
    {
        let mut least: u64 = minimum;
        let ghost mut seen: Seq<u64> = Seq::empty();
        let mut i: usize = 0;
        while i < sequences.len()
            invariant
                i <= sequences@.len(),
                seen.len() == i,
                least == minimum_of(seen, minimum),
            decreases sequences@.len() - i,
        {
            let value = sequences[i].get();
            proof {
                assert(seen.push(value).drop_last() =~= seen);
                seen = seen.push(value);
            }
            least = lesser(least, value);
            i = i + 1;
        }
        proof {
            lemma_minimum_of(seen, minimum);
        }
        least
    }

    /// Folds the values loaded from `sequences` with `maximum`, keeping the
    /// greatest. Each counter is loaded once, in order.
    pub fn get_maximum_sequence(sequences: &[Sequence], maximum: u64) -> (m: u64)
        ensures
            m >= maximum,
            sequences@.len() == 0 ==> m == maximum,
            exists|seen: Seq<u64>|
                seen.len() == sequences@.len() && m == maximum_of(seen, maximum),
    {
        let mut most: u64 = maximum;
        let ghost mut seen: Seq<u64> = Seq::empty();
        let mut i: usize = 0;
        while i < sequences.len()
            invariant
                i <= sequences@.len(),
                seen.len() == i,
                most == maximum_of(seen, maximum),
            decreases sequences@.len() - i,
        {
            let value = sequences[i].get();
            proof {
                assert(seen.push(value).drop_last() =~= seen);
                seen = seen.push(value);
            }
            most = greater(most, value);
            i = i + 1;
        }
        proof {
            lemma_maximum_of(seen, maximum);
        }
        most
    }

    /// Loads the value, with acquire ordering.
    pub fn get(&self) -> (value: u64) {
        self.value.load(Ordering::Acquire)
    }

    /// Stores `new_value`, with release ordering, and returns the value that
    /// it replaced.
    pub fn set(&self, new_value: u64) -> (previous: u64) {
        self.value.swap(new_value, Ordering::Release)
    }

    /// Stores `new_value` if the counter holds `expected`, in one atomic
    /// step, and says whether it did.
    pub fn compare_and_swap(&self, expected: u64, new_value: u64) -> (swapped: bool) {
        self.value.compare_exchange(
            expected,
            new_value,
            Ordering::AcqRel,
            Ordering::Acquire,
        ).is_ok()
    }

    /// Adds one, in one atomic step, wrapping at the top of the range, and
    /// returns the value before the addition.
    pub fn increment(&self) -> (previous: u64) {
        self.value.fetch_add(1, Ordering::AcqRel)
    }
}

} // verus!
