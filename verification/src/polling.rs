//! Bounded waiting for hardware.

use vstd::prelude::*;

verus! {

/// Reads of a status register before the kernel gives up.
pub const POLL_LIMIT: u32 = 100_000;

/// A wait that ends after a bounded number of reads.
#[derive(Copy, Clone, Debug, PartialEq, Eq, Structural)]
pub struct Poll {
    /// Unsuccessful reads that are left.
    pub left: u32,
}

/// What to do after a read.
#[derive(Copy, Clone, Debug, PartialEq, Eq, Structural)]
pub enum PollStep {
    /// The hardware is ready.
    Ready,
    /// Read again.
    Again,
    /// The hardware did not become ready in time.
    TimedOut,
}

/// What to do, and what is left, after a read that found the hardware ready or not.
pub open spec fn polled(p: Poll, ready: bool) -> (Poll, PollStep) {
    if ready {
        (p, PollStep::Ready)
    } else if p.left <= 1 {
        (Poll { left: 0 }, PollStep::TimedOut)
    } else {
        (Poll { left: (p.left - 1) as u32 }, PollStep::Again)
    }
}

/// What is left after `n` unsuccessful reads.
pub open spec fn after_misses(p: Poll, n: nat) -> Poll
    decreases n,
{
    if n == 0 {
        p
    } else {
        polled(after_misses(p, (n - 1) as nat), false).0
    }
}

/// A wait with `left` unsuccessful reads to go ends at the last of them, and
/// not before.
pub proof fn law_wait_is_bounded(p: Poll, n: nat)
    requires
        0 < p.left,
        n < p.left,
    ensures
        after_misses(p, n).left == p.left - n,
        polled(after_misses(p, n), false).1 is TimedOut <==> n + 1 == p.left,
    decreases n,
{
    if n > 0 {
        law_wait_is_bounded(p, (n - 1) as nat);
    }
}

impl Poll {
    /// A wait of at most `POLL_LIMIT` unsuccessful reads.
    pub fn new() -> (r: Self)
        ensures
            r.left == POLL_LIMIT,
    {
        Poll { left: POLL_LIMIT }
    }

    /// Takes note of a read.
    pub fn step(&mut self, ready: bool) -> (r: PollStep)
        ensures
            (*final(self), r) == polled(*old(self), ready),
    {
        if ready {
            return PollStep::Ready;
        }
        if self.left <= 1 {
            self.left = 0;
            return PollStep::TimedOut;
        }
        self.left = self.left - 1;
        PollStep::Again
    }
}

} // verus!
