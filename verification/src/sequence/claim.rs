//! The decisions of the claim protocol, as functions of the values that a
//! publisher observed.
//!
//! A publisher that wants the next `n` slots loads the cursor and the cached
//! gating bound, and decides from the two what to do next. Where the cache is
//! of no use it scans the gating sequences and decides again from the
//! minimum that it saw.

use vstd::prelude::*;

verus! {

/// The sequence number that a claim of `n` slots would overwrite last: the
/// claim's upper end, one lap of the ring back. Negative during the first lap.
pub open spec fn wrap_point(current: u64, n: u64, buffer_size: u64) -> int {
    current + n - buffer_size
}

/// What a publisher does after loading the cursor and the cached bound.
#[derive(Clone, Copy, Debug, PartialEq, Eq, Structural)]
pub enum ClaimCheck {
    /// `current + n` is beyond the range of a sequence number.
    Exhausted,
    /// The cached bound does not show the claim to be safe: scan the gating
    /// sequences.
    Stale,
    /// The cached bound shows the claim to be safe: try to move the cursor
    /// from `current` to `next`.
    Clear { next: u64 },
}

/// What a publisher does after scanning the gating sequences.
#[derive(Clone, Copy, Debug, PartialEq, Eq, Structural)]
pub enum GateCheck {
    /// The slowest consumer is too far behind: the claim must wait.
    Gated,
    /// The claim is safe by the scanned minimum: store it as the new cached
    /// bound and start over.
    Open,
}

/// The decision after loading the cursor (`current`) and the cached bound
/// (`cached`), for a claim of `n` slots on a ring of `buffer_size` slots.
pub open spec fn claim_check(current: u64, n: u64, buffer_size: u64, cached: u64) -> ClaimCheck {
    if current + n > u64::MAX {
        ClaimCheck::Exhausted
    } else if wrap_point(current, n, buffer_size) > cached || cached > current {
        ClaimCheck::Stale
    } else {
        ClaimCheck::Clear { next: (current + n) as u64 }
    }
}

/// The decision after a scan that saw `gating` as the minimum of the gating
/// sequences and `current`.
pub open spec fn gate_check(current: u64, n: u64, buffer_size: u64, gating: u64) -> GateCheck {
    if wrap_point(current, n, buffer_size) > gating {
        GateCheck::Gated
    } else {
        GateCheck::Open
    }
}

/// Decides what to do after loading the cursor and the cached bound.
pub fn check_claim(current: u64, n: u64, buffer_size: u64, cached: u64) -> (check: ClaimCheck)
    ensures
        check == claim_check(current, n, buffer_size, cached),
{
    if n > u64::MAX - current {
        return ClaimCheck::Exhausted;
    }
    let next: u64 = current + n;
    if cached > current {
        ClaimCheck::Stale
    } else if next >= buffer_size && next - buffer_size > cached {
        ClaimCheck::Stale
    } else {
        ClaimCheck::Clear { next }
    }
}

/// Decides what to do after scanning the gating sequences.
pub fn check_gate(current: u64, n: u64, buffer_size: u64, gating: u64) -> (check: GateCheck)
    requires
        current + n <= u64::MAX,
    ensures
        check == gate_check(current, n, buffer_size, gating),
{
    let next: u64 = current + n;
    if next >= buffer_size && next - buffer_size > gating {
        GateCheck::Gated
    } else {
        GateCheck::Open
    }
}

/// A claim that the cached bound clears ends at most one lap ahead of that
/// bound, and the bound is not ahead of the cursor that was loaded.
pub proof fn lemma_clear_claim_is_within_a_lap(current: u64, n: u64, buffer_size: u64, cached: u64)
    requires
        claim_check(current, n, buffer_size, cached) is Clear,
    ensures
        claim_check(current, n, buffer_size, cached)->next == current + n,
        current + n - buffer_size <= cached,
        cached <= current,
{
}

} // verus!
