//! How queue throughput scales with producers: the sizes the runs are made
//! with, the widths the report's columns take, and the bookkeeping of the
//! barrier that holds every producer until the whole party exists.
//!
//! The timings themselves are floating point and are not kept here; what is
//! here is what decides whether a row measured what it says.

use vstd::prelude::*;

verus! {

/// How many pushes each producer thread performs in one timed run.
pub const PUSHES_PER_PRODUCER: usize = 50_000;

/// How many times each configuration is repeated; the median is reported.
/// Odd, so the median is an observed value.
pub const REPETITIONS: usize = 5;

/// The producer counts measured, in order.
pub const PRODUCER_COUNTS: [usize; 6] = [1, 2, 4, 8, 16, 32];

/// The narrowest a ratio column is drawn.
pub const RATIO_COLUMN_WIDTH: usize = 20;

/// A capacity a real system would choose, so the drained regime exercises
/// backpressure the way a real one would.
pub const DRAINED_CAPACITY: usize = 1024;

/// Whether `n` is a power of two.
pub open spec fn is_power_of_two(n: nat) -> bool
    decreases n,
{
    if n <= 1 {
        n == 1
    } else {
        n % 2 == 0 && is_power_of_two(n / 2)
    }
}

/// The smallest power of two at least `n`, as `usize::next_power_of_two`
/// defines it.
pub open spec fn next_power_of_two(n: nat, p: nat) -> bool {
    &&& is_power_of_two(p)
    &&& p >= n
    &&& (p == 1 || p / 2 < n)
}

/// Capacity big enough that a whole run fits, so nothing is ever refused:
/// the smallest power of two that holds every push of `producers`
/// producers.
pub fn capacity_for(producers: usize) -> (capacity: usize)
    requires
        producers * PUSHES_PER_PRODUCER <= usize::MAX / 2 + 1,
    ensures
        next_power_of_two((producers * PUSHES_PER_PRODUCER) as nat, capacity as nat),
{
    let pushes = producers * PUSHES_PER_PRODUCER;
    let mut capacity: usize = 1;
    while capacity < pushes
        invariant
            pushes == producers * PUSHES_PER_PRODUCER,
            pushes <= usize::MAX / 2 + 1,
            is_power_of_two(capacity as nat),
            capacity == 1 || capacity / 2 < pushes,
        decreases usize::MAX - capacity,
    {
        proof {
            assert((capacity * 2) as nat / 2 == capacity as nat);
            assert((capacity * 2) as nat % 2 == 0);
        }
        capacity = capacity * 2;
    }
    capacity
}

/// The widest of `cells`, in bytes as `str::len` counts them, or 0 for none.
pub open spec fn widest(cells: Seq<&str>) -> nat
    decreases cells.len(),
{
    if cells.len() == 0 {
        0
    } else {
        let rest = widest(cells.drop_last());
        let last = cells.last().len() as nat;
        if last > rest {
            last
        } else {
            rest
        }
    }
}

/// The width a column must take to keep its rows aligned with its header:
/// the widest cell, or `floor` when that is wider. `floor` is never an
/// upper bound.
pub fn column_width(cells: &[&str], floor: usize) -> (width: usize)
    ensures
        width == (if widest(cells@) > floor { widest(cells@) } else { floor as nat }),
{
    let mut width = floor;
    let mut i: usize = 0;
    while i < cells.len()
        invariant
            i <= cells.len(),
            width == (if widest(cells@.take(i as int)) > floor {
                widest(cells@.take(i as int))
            } else {
                floor as nat
            }),
        decreases cells.len() - i,
    {
        let len = cells[i].len();
        proof {
            assert(cells@.take(i + 1).drop_last() =~= cells@.take(i as int));
            assert(cells@.take(i + 1).last() == cells@[i as int]);
        }
        if len > width {
            width = len;
        }
        i = i + 1;
    }
    proof {
        assert(cells@.take(i as int) =~= cells@);
    }
    width
}

/// The width a ratio column must take: its widest cell, or
/// [`RATIO_COLUMN_WIDTH`] when that is wider.
pub fn ratio_column_width(cells: &[&str]) -> (width: usize)
    ensures
        width == (if widest(cells@) > RATIO_COLUMN_WIDTH { widest(cells@) } else { RATIO_COLUMN_WIDTH as nat }),
{
    column_width(cells, RATIO_COLUMN_WIDTH)
}

/// The bookkeeping of a barrier holding every participant until all of them
/// exist, or until the coordinator gives up on the ones that do not.
#[derive(Clone, Copy, Debug, PartialEq, Eq, Structural)]
pub struct GateState {
    /// Participants still to arrive. Reaching zero opens the barrier.
    pub remaining: usize,
    /// Whether waiters may proceed, for either reason.
    pub open: bool,
    /// Whether the barrier opened because everyone arrived, rather than because
    /// it was released.
    pub complete: bool,
}

/// The barrier after one more arrival, and what the arriving party learns at
/// once: `Some(complete)` when it may proceed, `None` when it must wait.
pub open spec fn arrived(state: GateState) -> (GateState, Option<bool>) {
    let remaining: usize = if state.remaining > 0 { (state.remaining - 1) as usize } else { 0 };
    let opens = remaining == 0 && !state.open;
    let next = GateState {
        remaining,
        open: state.open || opens,
        complete: if opens { true } else { state.complete },
    };
    (next, if next.open { Some(next.complete) } else { None })
}

/// The barrier after `count` arrivals and no release.
pub open spec fn after_arrivals(state: GateState, count: nat) -> GateState
    decreases count,
{
    if count == 0 {
        state
    } else {
        arrived(after_arrivals(state, (count - 1) as nat)).0
    }
}

/// The barrier's consistency: it is complete only once open, and only with
/// nobody left to arrive.
pub open spec fn consistent(state: GateState) -> bool {
    state.complete ==> state.open && state.remaining == 0
}

impl GateState {
    /// A closed barrier for `participants` workers plus the coordinating
    /// thread.
    pub fn new(participants: usize) -> (state: GateState)
        requires
            participants < usize::MAX,
        ensures
            state == (GateState { remaining: (participants + 1) as usize, open: false, complete: false }),
    {
        GateState { remaining: participants + 1, open: false, complete: false }
    }

    /// Record one arrival. The return is what the arriving party learns at
    /// once: `Some(complete)` when the barrier is open, `None` when it must
    /// wait for [`GateState::outcome`] to become `Some`.
    pub fn arrive(&mut self) -> (outcome: Option<bool>)
        ensures
            (*final(self), outcome) == arrived(*old(self)),
    {
        if self.remaining > 0 {
            self.remaining = self.remaining - 1;
        }
        if self.remaining == 0 && !self.open {
            self.open = true;
            self.complete = true;
        }
        if self.open {
            Some(self.complete)
        } else {
            None
        }
    }

    /// Open the barrier now, however many participants are missing. Does not
    /// make the party complete.
    pub fn release(&mut self)
        ensures
            *final(self) == (GateState { open: true, ..*old(self) }),
    {
        self.open = true;
    }

    /// What a parked party learns when it wakes: `Some(complete)` once the
    /// barrier is open, `None` while it must keep waiting.
    pub fn outcome(&self) -> (outcome: Option<bool>)
        ensures
            outcome == (if self.open { Some(self.complete) } else { None }),
    {
        if self.open {
            Some(self.complete)
        } else {
            None
        }
    }
}

/// A party of `participants` workers plus the coordinator, all arriving and
/// none released, keeps the barrier shut until the last arrival and then opens
/// it complete: every member learns the run was whole.
pub proof fn lemma_complete_party_opens(participants: usize, count: nat)
    requires
        participants < usize::MAX,
        count <= participants + 1,
    ensures
        after_arrivals(GateState { remaining: (participants + 1) as usize, open: false, complete: false }, count)
            == (GateState {
            remaining: (participants + 1 - count) as usize,
            open: count == participants + 1,
            complete: count == participants + 1,
        }),
    decreases count,
{
    if count > 0 {
        lemma_complete_party_opens(participants, (count - 1) as nat);
    }
}

/// Once open, a barrier stays open, and no arrival changes whether its party
/// was complete; arrivals and releases keep the barrier consistent.
pub proof fn lemma_open_is_final(state: GateState)
    requires
        consistent(state),
    ensures
        consistent(arrived(state).0),
        state.open ==> arrived(state).0.open && arrived(state).0.complete == state.complete,
        state.open ==> arrived(state).1 == Some(state.complete),
        consistent(GateState { open: true, ..state }),
{
}

/// A released barrier never reports a complete party that was not already
/// complete: an arrival after a release learns the run was abandoned.
pub proof fn lemma_release_reports_incomplete(state: GateState)
    requires
        !state.complete,
    ensures
        arrived(GateState { open: true, ..state }).1 == Some(false),
        arrived(arrived(GateState { open: true, ..state }).0).1 == Some(false),
{
}

/// Drains once, then announces: the producing half of the handshake that
/// holds producers until the consumer has executed its pop path.
///
/// The order is the guarantee: announcing first would make the flag mean
/// "about to drain", which a descheduling can falsify.
pub fn drain_then_announce<F: FnOnce()>(pop_once: F, ready: &std::sync::atomic::AtomicBool)
    requires
        call_requires(pop_once, ()),
{
    pop_once();
    ready.store(true, std::sync::atomic::Ordering::Release);
}

} // verus!
