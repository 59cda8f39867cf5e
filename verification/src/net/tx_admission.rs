//! A barrier that closes only after everyone inside has left.

use vstd::prelude::*;

verus! {

/// How many senders may be inside at once.
pub const ACTIVE_LIMIT: usize = usize::MAX / 2;

/// The barrier in front of a device's send path.
#[derive(Clone, Copy, Debug, PartialEq, Eq, Structural)]
pub struct TxAdmission {
    pub closed: bool,
    /// How many senders are inside.
    pub active: usize,
}

impl TxAdmission {
    /// The number of senders is within its limit.
    pub open spec fn wf(&self) -> bool {
        self.active <= ACTIVE_LIMIT
    }

    /// A sender is let in.
    pub open spec fn admits(self) -> bool {
        !self.closed && self.active < ACTIVE_LIMIT
    }

    /// The barrier after so many senders left.
    pub open spec fn after_leaving(self, count: nat) -> Self {
        TxAdmission { active: (self.active - count) as usize, ..self }
    }

    /// A barrier that is open or closed.
    pub fn new(enabled: bool) -> (r: Self)
        ensures
            r.wf(),
            r.closed == !enabled,
            r.active == 0,
    {
        TxAdmission { closed: !enabled, active: 0 }
    }

    /// Lets a sender in, unless the barrier is closed or full.
    pub fn try_enter(&mut self) -> (r: bool)
        requires
            old(self).wf(),
        ensures
            final(self).wf(),
            r == old(self).admits(),
            final(self).closed == old(self).closed,
            final(self).active == (if r {
                (old(self).active + 1) as usize
            } else {
                old(self).active
            }),
    {
        if self.closed || self.active >= ACTIVE_LIMIT {
            return false;
        }
        self.active = self.active + 1;
        true
    }

    /// Lets a sender out.
    pub fn leave(&mut self)
        requires
            old(self).wf(),
            old(self).active > 0,
        ensures
            final(self).wf(),
            *final(self) == old(self).after_leaving(1),
    {
        self.active = self.active - 1;
    }

    /// Closes the barrier. Returns whether nobody is inside any more; otherwise the caller waits until
    /// `drained` says so.
    pub fn close(&mut self) -> (r: bool)
        requires
            old(self).wf(),
            !old(self).closed,
        ensures
            final(self).wf(),
            final(self).closed,
            final(self).active == old(self).active,
            r == (old(self).active == 0),
    {
        self.closed = true;
        self.drained()
    }

    /// Whether the barrier is closed and nobody is inside.
    pub fn drained(&self) -> (r: bool)
        ensures
            r == (self.closed && self.active == 0),
    {
        self.closed && self.active == 0
    }

    /// Opens a barrier that nobody is inside of.
    pub fn open(&mut self)
        requires
            old(self).closed,
            old(self).active == 0,
        ensures
            final(self).wf(),
            !final(self).closed,
            final(self).active == 0,
    {
        self.closed = false;
    }
}

/// Nobody is let in through a closed barrier, however many leave, and it is drained once all left.
pub proof fn law_closed_barrier_drains(barrier: TxAdmission, count: nat)
    requires
        barrier.closed,
        count <= barrier.active,
    ensures
        !barrier.after_leaving(count).admits(),
        barrier.after_leaving(count).active + count == barrier.active,
        barrier.after_leaving(count).closed,
        barrier.after_leaving(count).active == 0 <==> count == barrier.active,
{
}

/// Everyone who is inside of a barrier is counted, whether it is open or closed: those who left and
/// those who are still inside are as many as there were, and the barrier stays as it was. An open
/// barrier lets one more in as long as they can be counted.
pub proof fn law_barrier_counts(barrier: TxAdmission, count: nat)
    requires
        count <= barrier.active,
    ensures
        barrier.after_leaving(count).active + count == barrier.active,
        barrier.after_leaving(count).closed == barrier.closed,
        barrier.admits() <==> !barrier.closed && 2 * (barrier.active + 1) <= usize::MAX,
{
}

} // verus!
