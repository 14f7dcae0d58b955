//! The set of counters that hold publishers back.

use crate::sequence::greater;
use crate::sequence::lesser;
use crate::sequence::lemma_maximum_of;
use crate::sequence::lemma_minimum_of;
use crate::sequence::maximum_of;
use crate::sequence::minimum_of;
use crate::sequence::Sequence;
use std::sync::Arc;
use vstd::prelude::*;
use vstd::rwlock::RwLock;
use vstd::rwlock::RwLockPredicate;

verus! {

/// What the group's lock demands of its contents: nothing. Any list of
/// counters is a valid group.
pub struct AnyMembers;

impl RwLockPredicate<Vec<Arc<Sequence>>> for AnyMembers {
    open spec fn inv(self, members: Vec<Arc<Sequence>>) -> bool {
        true
    }
}

/// A growing list of shared counters. Members are appended under a write
/// lock and scanned under a read lock; none is ever removed.
pub struct SequenceGroup {
    sequences: RwLock<Vec<Arc<Sequence>>, AnyMembers>,
}

impl SequenceGroup {
    /// A group without members.
    pub fn new() -> (group: Self) {
        SequenceGroup { sequences: RwLock::new(Vec::new(), Ghost(AnyMembers)) }
    }

    /// Appends `sequence` to the group.
    pub fn add(&self, sequence: Arc<Sequence>) {
        let (mut members, handle) = self.sequences.acquire_write();
        members.push(sequence);
        handle.release_write(members);
    }

    /// The number of members at the moment of the call.
    pub fn len(&self) -> (count: usize) {
        let handle = self.sequences.acquire_read();
        let count = handle.borrow().len();
        handle.release_read();
        count
    }

    /// The least of `minimum` and one load of each member. A group without
    /// members gives `minimum`; whether the group has members is decided at
    /// the moment of the scan.
    pub fn minimum_sequence(&self, minimum: u64) -> (m: u64)
        ensures
            m <= minimum,
            exists|seen: Seq<u64>| m == minimum_of(seen, minimum),
    {
        let handle = self.sequences.acquire_read();
        let members = handle.borrow();
        let mut least: u64 = minimum;
        let ghost mut seen: Seq<u64> = Seq::empty();
        let mut i: usize = 0;
        while i < members.len()
            invariant
                i <= members@.len(),
                seen.len() == i,
                least == minimum_of(seen, minimum),
            decreases members@.len() - i,
        {
            let value = members[i].get();
            proof {
                assert(seen.push(value).drop_last() =~= seen);
                seen = seen.push(value);
            }
            least = lesser(least, value);
            i = i + 1;
        }
        handle.release_read();
        proof {
            lemma_minimum_of(seen, minimum);
        }
        least
    }

    /// The greatest of `maximum` and one load of each member. A group without
    /// members gives `maximum`.
    pub fn maximum_sequence(&self, maximum: u64) -> (m: u64)
        ensures
            m >= maximum,
            exists|seen: Seq<u64>| m == maximum_of(seen, maximum),
    {
        let handle = self.sequences.acquire_read();
        let members = handle.borrow();
        let mut most: u64 = maximum;
        let ghost mut seen: Seq<u64> = Seq::empty();
        let mut i: usize = 0;
        while i < members.len()
            invariant
                i <= members@.len(),
                seen.len() == i,
                most == maximum_of(seen, maximum),
            decreases members@.len() - i,
        {
            let value = members[i].get();
            proof {
                assert(seen.push(value).drop_last() =~= seen);
                seen = seen.push(value);
            }
            most = greater(most, value);
            i = i + 1;
        }
        handle.release_read();
        proof {
            lemma_maximum_of(seen, maximum);
        }
        most
    }
}

} // verus!
