//! The claim protocol under interleaving.
//!
//! The state holds the shared cells of a sequencer (cursor, cached bound,
//! gating sequences) and, for each publisher, the values that it has loaded so
//! far. A step is one access to a shared cell, taken by one party; between
//! two steps of one party any other party may take steps. Gating sequences
//! only move forward, and a consumer registers at the cursor's value in one
//! step.

use crate::sequence::claim::claim_check;
use crate::sequence::claim::gate_check;
use crate::sequence::claim::ClaimCheck;
use crate::sequence::claim::GateCheck;
use crate::sequence::lemma_minimum_of;
use crate::sequence::minimum_of;
use vstd::prelude::*;

verus! {

/// How far a publisher is into an attempt.
pub enum Phase {
    /// Between attempts.
    Idle,
    /// The cursor was loaded.
    CursorLoaded,
    /// The cursor and the cached bound were loaded.
    Loaded,
    /// The gating sequences were scanned.
    Scanned,
}

/// What a publisher has loaded during the attempt it is in.
pub struct Claimant {
    pub phase: Phase,
    /// The number of slots that it wants.
    pub n: u64,
    /// The cursor as it loaded it.
    pub current: u64,
    /// The cached bound as it loaded it.
    pub cached: u64,
    /// The minimum that its scan saw.
    pub gating: u64,
}

/// The shared cells of a sequencer and the publishers at work on them.
pub struct Coordinator {
    pub buffer_size: u64,
    pub cursor: u64,
    pub cache: u64,
    pub gates: Seq<u64>,
    pub claimants: Seq<Claimant>,
}

/// One access to a shared cell.
pub enum Step {
    /// A new publisher appears, between attempts.
    Join,
    /// Publisher `p` starts an attempt at `n` slots and loads the cursor.
    LoadCursor { p: int, n: u64 },
    /// Publisher `p` loads the cached bound.
    LoadCache { p: int },
    /// Publisher `p`, whose check found the cache stale, scans the gating
    /// sequences and sees `seen`, one value for each.
    Scan { p: int, seen: Seq<u64> },
    /// Publisher `p`, after its scan, stores the minimum as the cached bound
    /// unless the claim is gated, and ends the attempt.
    Refresh { p: int },
    /// Publisher `p`, whose check found the claim clear, tries to move the
    /// cursor by a compare-and-swap, and ends the attempt.
    Swap { p: int },
    /// Publisher `p` gives its attempt up: the claim would pass the top of the
    /// range, or the publisher has used up its attempts.
    Abandon { p: int },
    /// The consumer of gating sequence `i` moves on by one.
    Advance { i: int },
    /// A consumer registers a gating sequence at the cursor's value.
    Register,
}

/// The sequencer as `Sequencer::with_spin_limit` makes it.
pub open spec fn initial(buffer_size: u64) -> Coordinator {
    Coordinator {
        buffer_size,
        cursor: 0,
        cache: 0,
        gates: Seq::empty(),
        claimants: Seq::empty(),
    }
}

/// Whether `step` can be taken in `c`.
pub open spec fn enabled(c: Coordinator, step: Step) -> bool {
    match step {
        Step::Join => true,
        Step::LoadCursor { p, n } => {
            &&& 0 <= p < c.claimants.len()
            &&& c.claimants[p].phase is Idle
            &&& 1 <= n <= c.buffer_size
        },
        Step::LoadCache { p } => {
            &&& 0 <= p < c.claimants.len()
            &&& c.claimants[p].phase is CursorLoaded
        },
        Step::Scan { p, seen } => {
            &&& 0 <= p < c.claimants.len()
            &&& c.claimants[p].phase is Loaded
            &&& claim_check(
                c.claimants[p].current,
                c.claimants[p].n,
                c.buffer_size,
                c.claimants[p].cached,
            ) is Stale
            &&& seen.len() == c.gates.len()
            &&& forall|i: int| 0 <= i < seen.len() ==> #[trigger] seen[i] <= c.gates[i]
        },
        Step::Refresh { p } => {
            &&& 0 <= p < c.claimants.len()
            &&& c.claimants[p].phase is Scanned
        },
        Step::Swap { p } => {
            &&& 0 <= p < c.claimants.len()
            &&& c.claimants[p].phase is Loaded
            &&& claim_check(
                c.claimants[p].current,
                c.claimants[p].n,
                c.buffer_size,
                c.claimants[p].cached,
            ) is Clear
        },
        Step::Abandon { p } => 0 <= p < c.claimants.len(),
        Step::Advance { i } => {
            &&& 0 <= i < c.gates.len()
            &&& c.gates[i] < u64::MAX
        },
        Step::Register => true,
    }
}

/// The claimant `t` back between attempts.
pub open spec fn rested(t: Claimant) -> Claimant {
    Claimant { phase: Phase::Idle, ..t }
}

/// The state after `step` was taken in `c`.
pub open spec fn apply(c: Coordinator, step: Step) -> Coordinator {
    match step {
        Step::Join => Coordinator {
            claimants: c.claimants.push(
                Claimant { phase: Phase::Idle, n: 0, current: 0, cached: 0, gating: 0 },
            ),
            ..c
        },
        Step::LoadCursor { p, n } => Coordinator {
            claimants: c.claimants.update(
                p,
                Claimant { phase: Phase::CursorLoaded, n, current: c.cursor, ..c.claimants[p] },
            ),
            ..c
        },
        Step::LoadCache { p } => Coordinator {
            claimants: c.claimants.update(
                p,
                Claimant { phase: Phase::Loaded, cached: c.cache, ..c.claimants[p] },
            ),
            ..c
        },
        Step::Scan { p, seen } => Coordinator {
            claimants: c.claimants.update(
                p,
                Claimant {
                    phase: Phase::Scanned,
                    gating: minimum_of(seen, c.claimants[p].current),
                    ..c.claimants[p]
                },
            ),
            ..c
        },
        Step::Refresh { p } => {
            let t = c.claimants[p];
            match gate_check(t.current, t.n, c.buffer_size, t.gating) {
                GateCheck::Gated => Coordinator { claimants: c.claimants.update(p, rested(t)), ..c },
                GateCheck::Open => Coordinator {
                    cache: t.gating,
                    claimants: c.claimants.update(p, rested(t)),
                    ..c
                },
            }
        },
        Step::Swap { p } => {
            let t = c.claimants[p];
            if c.cursor == t.current {
                Coordinator {
                    cursor: claim_check(t.current, t.n, c.buffer_size, t.cached)->next,
                    claimants: c.claimants.update(p, rested(t)),
                    ..c
                }
            } else {
                Coordinator { claimants: c.claimants.update(p, rested(t)), ..c }
            }
        },
        Step::Abandon { p } => Coordinator {
            claimants: c.claimants.update(p, rested(c.claimants[p])),
            ..c
        },
        Step::Advance { i } => Coordinator {
            gates: c.gates.update(i, (c.gates[i] + 1) as u64),
            ..c
        },
        Step::Register => Coordinator { gates: c.gates.push(c.cursor), ..c },
    }
}

/// Whether `step`, taken in `c`, grants its publisher a claim.
pub open spec fn grants(c: Coordinator, step: Step) -> bool {
    step matches Step::Swap { p } && c.cursor == c.claimants[p].current
}

/// No consumer is lapped: the cursor is at most one lap ahead of every
/// gating sequence.
pub open spec fn gated(c: Coordinator) -> bool {
    forall|i: int| 0 <= i < c.gates.len() ==> c.cursor - c.buffer_size <= #[trigger] c.gates[i]
}

/// Whether `bound` is at most the cursor and every gating sequence.
pub open spec fn is_lower_bound(c: Coordinator, bound: u64) -> bool {
    &&& bound <= c.cursor
    &&& forall|i: int| 0 <= i < c.gates.len() ==> bound <= #[trigger] c.gates[i]
}

/// What holds of the values that a publisher has loaded.
pub open spec fn claimant_consistent(c: Coordinator, t: Claimant) -> bool {
    match t.phase {
        Phase::Idle => true,
        Phase::CursorLoaded => 1 <= t.n <= c.buffer_size && t.current <= c.cursor,
        Phase::Loaded => {
            &&& 1 <= t.n <= c.buffer_size
            &&& t.current <= c.cursor
            &&& is_lower_bound(c, t.cached)
        },
        Phase::Scanned => {
            &&& 1 <= t.n <= c.buffer_size
            &&& t.current <= c.cursor
            &&& t.current + t.n <= u64::MAX
            &&& t.gating <= t.current
            &&& is_lower_bound(c, t.gating)
        },
    }
}

/// The invariant of the protocol: no consumer is lapped, and the cached
/// bound and every bound that a publisher has loaded are lower bounds of the
/// gating sequences.
pub open spec fn consistent(c: Coordinator) -> bool {
    &&& gated(c)
    &&& is_lower_bound(c, c.cache)
    &&& forall|p: int|
        0 <= p < c.claimants.len() ==> claimant_consistent(c, #[trigger] c.claimants[p])
}

/// The state after the steps of `steps` were taken one after the other.
pub open spec fn run(c: Coordinator, steps: Seq<Step>) -> Coordinator
    decreases steps.len(),
{
    if steps.len() == 0 {
        c
    } else {
        apply(run(c, steps.drop_last()), steps.last())
    }
}

/// Whether each step of `steps` can be taken in the state that the steps
/// before it lead to.
pub open spec fn runnable(c: Coordinator, steps: Seq<Step>) -> bool
    decreases steps.len(),
{
    steps.len() == 0 || (runnable(c, steps.drop_last()) && enabled(
        run(c, steps.drop_last()),
        steps.last(),
    ))
}

/// A new sequencer is consistent.
pub proof fn lemma_initial_is_consistent(buffer_size: u64)
    ensures
        consistent(initial(buffer_size)),
{
}

/// Every step keeps the invariant.
pub proof fn lemma_step_keeps_consistency(c: Coordinator, step: Step)
    requires
        consistent(c),
        enabled(c, step),
    ensures
        consistent(apply(c, step)),
{
    let d = apply(c, step);
    match step {
        Step::Join => {
            assert forall|p: int| 0 <= p < d.claimants.len() implies claimant_consistent(
                d,
                #[trigger] d.claimants[p],
            ) by {
                if p < c.claimants.len() {
                    assert(d.claimants[p] == c.claimants[p]);
                }
            }
        },
        Step::LoadCursor { p, n } => {
            assert forall|q: int| 0 <= q < d.claimants.len() implies claimant_consistent(
                d,
                #[trigger] d.claimants[q],
            ) by {
                if q != p {
                    assert(d.claimants[q] == c.claimants[q]);
                }
            }
        },
        Step::LoadCache { p } => {
            assert(claimant_consistent(c, c.claimants[p]));
            assert forall|q: int| 0 <= q < d.claimants.len() implies claimant_consistent(
                d,
                #[trigger] d.claimants[q],
            ) by {
                if q != p {
                    assert(d.claimants[q] == c.claimants[q]);
                }
            }
        },
        Step::Scan { p, seen } => {
            let t = c.claimants[p];
            assert(claimant_consistent(c, t));
            lemma_minimum_of(seen, t.current);
            let least = minimum_of(seen, t.current);
            assert forall|i: int| 0 <= i < d.gates.len() implies least <= #[trigger] d.gates[i] by {
                assert(least <= seen[i]);
            }
            assert forall|q: int| 0 <= q < d.claimants.len() implies claimant_consistent(
                d,
                #[trigger] d.claimants[q],
            ) by {
                if q != p {
                    assert(d.claimants[q] == c.claimants[q]);
                }
            }
        },
        Step::Refresh { p } => {
            let t = c.claimants[p];
            assert(claimant_consistent(c, t));
            assert forall|q: int| 0 <= q < d.claimants.len() implies claimant_consistent(
                d,
                #[trigger] d.claimants[q],
            ) by {
                if q != p {
                    assert(d.claimants[q] == c.claimants[q]);
                    assert(claimant_consistent(c, c.claimants[q]));
                }
            }
        },
        Step::Swap { p } => {
            let t = c.claimants[p];
            assert(claimant_consistent(c, t));
            assert forall|q: int| 0 <= q < d.claimants.len() implies claimant_consistent(
                d,
                #[trigger] d.claimants[q],
            ) by {
                if q != p {
                    assert(d.claimants[q] == c.claimants[q]);
                    assert(claimant_consistent(c, c.claimants[q]));
                }
            }
        },
        Step::Abandon { p } => {
            assert forall|q: int| 0 <= q < d.claimants.len() implies claimant_consistent(
                d,
                #[trigger] d.claimants[q],
            ) by {
                if q != p {
                    assert(d.claimants[q] == c.claimants[q]);
                    assert(claimant_consistent(c, c.claimants[q]));
                }
            }
        },
        Step::Advance { i } => {
            assert forall|j: int| 0 <= j < d.gates.len() implies c.gates[j] <= #[trigger] d.gates[j] by {}
            assert forall|q: int| 0 <= q < d.claimants.len() implies claimant_consistent(
                d,
                #[trigger] d.claimants[q],
            ) by {
                assert(claimant_consistent(c, c.claimants[q]));
                lemma_bound_survives_growth(c, d, c.claimants[q].cached);
                lemma_bound_survives_growth(c, d, c.claimants[q].gating);
            }
            lemma_bound_survives_growth(c, d, c.cache);
            assert forall|j: int| 0 <= j < d.gates.len() implies d.cursor - d.buffer_size
                <= #[trigger] d.gates[j] by {
                assert(c.cursor - c.buffer_size <= c.gates[j]);
            }
        },
        Step::Register => {
            assert forall|j: int| 0 <= j < d.gates.len() implies {
                &&& d.cursor - d.buffer_size <= #[trigger] d.gates[j]
                &&& d.cache <= d.gates[j]
            } by {
                if j < c.gates.len() {
                    assert(d.gates[j] == c.gates[j]);
                }
            }
            assert forall|q: int| 0 <= q < d.claimants.len() implies claimant_consistent(
                d,
                #[trigger] d.claimants[q],
            ) by {
                let t = c.claimants[q];
                assert(claimant_consistent(c, t));
                assert forall|j: int| 0 <= j < d.gates.len() implies {
                    &&& (is_lower_bound(c, t.cached) ==> t.cached <= #[trigger] d.gates[j])
                    &&& (is_lower_bound(c, t.gating) ==> t.gating <= d.gates[j])
                } by {
                    if j < c.gates.len() {
                        assert(d.gates[j] == c.gates[j]);
                    }
                }
            }
        },
    }
}

/// A lower bound stays one when the cursor and the gating sequences have only
/// moved forward.
pub proof fn lemma_bound_survives_growth(c: Coordinator, d: Coordinator, bound: u64)
    requires
        c.cursor <= d.cursor,
        c.gates.len() == d.gates.len(),
        forall|j: int| 0 <= j < d.gates.len() ==> c.gates[j] <= #[trigger] d.gates[j],
    ensures
        is_lower_bound(c, bound) ==> is_lower_bound(d, bound),
{
    if is_lower_bound(c, bound) {
        assert forall|j: int| 0 <= j < d.gates.len() implies bound <= #[trigger] d.gates[j] by {
            assert(bound <= c.gates[j]);
            assert(c.gates[j] <= d.gates[j]);
        }
    }
}

/// Every state that steps lead to from a new sequencer is consistent.
pub proof fn lemma_runs_are_consistent(buffer_size: u64, steps: Seq<Step>)
    requires
        runnable(initial(buffer_size), steps),
    ensures
        consistent(run(initial(buffer_size), steps)),
    decreases steps.len(),
{
    if steps.len() == 0 {
        lemma_initial_is_consistent(buffer_size);
    } else {
        lemma_runs_are_consistent(buffer_size, steps.drop_last());
        lemma_step_keeps_consistency(run(initial(buffer_size), steps.drop_last()), steps.last());
    }
}

/// Whatever the publishers and consumers of a new sequencer do, and in
/// whatever order, the cursor is never more than one lap ahead of a
/// registered gating sequence.
pub proof fn theorem_no_consumer_is_lapped(buffer_size: u64, steps: Seq<Step>)
    requires
        runnable(initial(buffer_size), steps),
    ensures
        gated(run(initial(buffer_size), steps)),
{
    lemma_runs_are_consistent(buffer_size, steps);
}

/// A claim is granted only where its upper end is at most one lap ahead of
/// every gating sequence registered at that moment, and it moves the cursor
/// to that upper end.
pub proof fn theorem_granted_claim_is_gated(buffer_size: u64, steps: Seq<Step>, step: Step)
    requires
        runnable(initial(buffer_size), steps),
        enabled(run(initial(buffer_size), steps), step),
        grants(run(initial(buffer_size), steps), step),
    ensures
        ({
            let before = run(initial(buffer_size), steps);
            let t = before.claimants[step->Swap_p];
            let after = apply(before, step);
            &&& after.cursor == t.current + t.n
            &&& forall|i: int|
                0 <= i < before.gates.len() ==> t.current + t.n - buffer_size
                    <= #[trigger] before.gates[i]
        }),
{
    lemma_runs_are_consistent(buffer_size, steps);
    let before = run(initial(buffer_size), steps);
    lemma_run_keeps_the_size(initial(buffer_size), steps);
    lemma_step_keeps_consistency(before, step);
    let after = apply(before, step);
    assert forall|i: int| 0 <= i < before.gates.len() implies after.cursor - buffer_size
        <= #[trigger] before.gates[i] by {
        assert(after.gates[i] == before.gates[i]);
    }
}

/// No step changes the number of slots.
pub proof fn lemma_run_keeps_the_size(c: Coordinator, steps: Seq<Step>)
    ensures
        run(c, steps).buffer_size == c.buffer_size,
    decreases steps.len(),
{
    if steps.len() > 0 {
        lemma_run_keeps_the_size(c, steps.drop_last());
    }
}

/// One attempt of publisher `p` at `n` slots while every other party
/// stands still: the two loads, then the swap where the cache clears the
/// claim, or a scan that sees the gating sequences as they are and the
/// refresh after it.
pub open spec fn attempt_alone(c: Coordinator, p: int, n: u64) -> Coordinator {
    let loaded = apply(apply(c, Step::LoadCursor { p, n }), Step::LoadCache { p });
    let t = loaded.claimants[p];
    match claim_check(t.current, t.n, c.buffer_size, t.cached) {
        ClaimCheck::Exhausted => apply(loaded, Step::Abandon { p }),
        ClaimCheck::Stale => apply(
            apply(loaded, Step::Scan { p, seen: c.gates }),
            Step::Refresh { p },
        ),
        ClaimCheck::Clear { next } => apply(loaded, Step::Swap { p }),
    }
}

/// A publisher that is left alone is granted its claim within two attempts
/// if the gating sequences as they are do not gate it, and is granted
/// nothing, however often it tries, if they do: the cursor stays where it
/// was. So a claim waits for the consumers and for nothing else.
pub proof fn theorem_lone_publisher_waits_for_consumers_only(c: Coordinator, p: int, n: u64)
    requires
        consistent(c),
        0 <= p < c.claimants.len(),
        c.claimants[p].phase is Idle,
        1 <= n <= c.buffer_size,
        c.cursor + n <= u64::MAX,
    ensures
        ({
            let first = attempt_alone(c, p, n);
            let second = attempt_alone(first, p, n);
            match gate_check(c.cursor, n, c.buffer_size, minimum_of(c.gates, c.cursor)) {
                GateCheck::Open => first.cursor == c.cursor + n || (first.cursor == c.cursor
                    && second.cursor == c.cursor + n),
                GateCheck::Gated => {
                    &&& first.cursor == c.cursor
                    &&& first.cache == c.cache
                    &&& first.gates == c.gates
                    &&& first.claimants[p].phase is Idle
                    &&& consistent(first)
                },
            }
        }),
{
    let least = minimum_of(c.gates, c.cursor);
    lemma_minimum_of(c.gates, c.cursor);
    let cursor_loaded = apply(c, Step::LoadCursor { p, n });
    lemma_step_keeps_consistency(c, Step::LoadCursor { p, n });
    let loaded = apply(cursor_loaded, Step::LoadCache { p });
    lemma_step_keeps_consistency(cursor_loaded, Step::LoadCache { p });
    let t = loaded.claimants[p];
    assert(t.current == c.cursor && t.cached == c.cache && t.n == n);
    assert(claimant_consistent(loaded, t));
    let first = attempt_alone(c, p, n);
    match claim_check(t.current, t.n, c.buffer_size, t.cached) {
        ClaimCheck::Exhausted => {},
        ClaimCheck::Clear { next } => {
            // The cache is a lower bound of the gating sequences, so what it
            // clears the gating sequences clear too.
            assert(c.cache <= least) by {
                if least != c.cursor {
                    let i = choose|i: int| 0 <= i < c.gates.len() && least == c.gates[i];
                    assert(c.cache <= c.gates[i]);
                }
            }
            assert(first.cursor == c.cursor + n);
        },
        ClaimCheck::Stale => {
            let scanned = apply(loaded, Step::Scan { p, seen: c.gates });
            assert(enabled(loaded, Step::Scan { p, seen: c.gates }));
            lemma_step_keeps_consistency(loaded, Step::Scan { p, seen: c.gates });
            lemma_step_keeps_consistency(scanned, Step::Refresh { p });
            assert(scanned.claimants[p].gating == least);
            if gate_check(c.cursor, n, c.buffer_size, least) is Open {
                assert(first.cache == least);
                assert(first.cursor == c.cursor);
                assert(first.claimants[p].phase is Idle);
                let again = apply(
                    apply(first, Step::LoadCursor { p, n }),
                    Step::LoadCache { p },
                );
                let u = again.claimants[p];
                assert(u.current == c.cursor && u.cached == least && u.n == n);
                assert(claim_check(u.current, u.n, c.buffer_size, u.cached) is Clear);
            } else {
                assert(first.claimants =~= c.claimants.update(p, first.claimants[p]));
            }
        },
    }
}

} // verus!
