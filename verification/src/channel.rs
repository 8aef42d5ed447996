use vstd::prelude::*;

verus! {

/// Capacity of the queue of format requests waiting for a runtime.
pub const CHANNEL_CAPACITY: usize = 100;

/// Seconds that an idle runtime waits for work before it may shut down.
pub const IDLE_TIMEOUT_SECS: u64 = 30;

/// The counts of the runtime pool: `total_runtimes` runtimes exist (started
/// or ready), of which `pending_runtimes` have finished starting and take
/// work.
#[derive(Debug, Clone, Copy, PartialEq, Eq)]
pub struct PoolStats {
    pub pending_runtimes: usize,
    pub total_runtimes: usize,
}

impl PoolStats {
    /// No more runtimes have finished starting than exist.
    pub open spec fn wf(self) -> bool {
        self.pending_runtimes <= self.total_runtimes
    }

    /// Whether a format request starts a new runtime, given whether the
    /// machine has memory for one: only while no runtime has finished
    /// starting, and then either the pool is empty or there is memory.
    pub open spec fn spec_creates(self, memory_available: bool) -> bool {
        self.pending_runtimes == 0 && (self.total_runtimes == 0 || memory_available)
    }

    /// The empty pool.
    pub fn new() -> (r: PoolStats)
        ensures
            r.wf(),
            r.pending_runtimes == 0,
            r.total_runtimes == 0,
    {
        PoolStats { pending_runtimes: 0, total_runtimes: 0 }
    }

    /// Whether deciding on a new runtime needs to know the free memory: only
    /// when no runtime has finished starting and the pool is not empty.
    pub fn needs_memory_check(&self) -> (r: bool)
        ensures
            r == (self.pending_runtimes == 0 && self.total_runtimes != 0),
    {
        self.pending_runtimes == 0 && self.total_runtimes != 0
    }

    /// A format request arrives: decides whether to start a new runtime
    /// (counted at once), given whether the machine has memory for one.
    pub fn begin_format(&mut self, memory_available: bool) -> (r: bool)
        requires
            old(self).wf(),
            old(self).total_runtimes < usize::MAX,
        ensures
            final(self).wf(),
            r == old(self).spec_creates(memory_available),
            final(self).pending_runtimes == old(self).pending_runtimes,
            final(self).total_runtimes == if r {
                old(self).total_runtimes + 1
            } else {
                old(self).total_runtimes as int
            },
    {
        if self.pending_runtimes == 0 && (self.total_runtimes == 0 || memory_available) {
            self.total_runtimes = self.total_runtimes + 1;
            true
        } else {
            false
        }
    }

    /// A started runtime is ready to take work.
    pub fn runtime_ready(&mut self)
        requires
            old(self).wf(),
            old(self).pending_runtimes < old(self).total_runtimes,
        ensures
            final(self).wf(),
            final(self).pending_runtimes == old(self).pending_runtimes + 1,
            final(self).total_runtimes == old(self).total_runtimes,
    {
        self.pending_runtimes = self.pending_runtimes + 1;
    }

    /// A ready runtime found the request queue closed and leaves the pool.
    pub fn runtime_closed(&mut self)
        requires
            old(self).wf(),
            old(self).pending_runtimes > 0,
        ensures
            final(self).wf(),
            final(self).pending_runtimes == old(self).pending_runtimes - 1,
            final(self).total_runtimes == old(self).total_runtimes - 1,
    {
        self.pending_runtimes = self.pending_runtimes - 1;
        self.total_runtimes = self.total_runtimes - 1;
    }

    /// A ready runtime was idle for the timeout: it leaves the pool (and
    /// `true` comes back) only while more than one runtime exists and more
    /// than one is ready, so the last ready runtime stays.
    pub fn idle_timeout(&mut self) -> (r: bool)
        requires
            old(self).wf(),
            old(self).pending_runtimes > 0,
        ensures
            final(self).wf(),
            r == (old(self).total_runtimes > 1 && old(self).pending_runtimes > 1),
            r ==> final(self).pending_runtimes == old(self).pending_runtimes - 1
                && final(self).total_runtimes == old(self).total_runtimes - 1,
            !r ==> *final(self) == *old(self),
    {
        if self.total_runtimes > 1 && self.pending_runtimes > 1 {
            self.pending_runtimes = self.pending_runtimes - 1;
            self.total_runtimes = self.total_runtimes - 1;
            true
        } else {
            false
        }
    }
}

/// The first format request on an empty pool always starts a runtime,
/// whatever the free memory.
pub proof fn lemma_first_request_starts_runtime(memory_available: bool)
    ensures
        (PoolStats { pending_runtimes: 0, total_runtimes: 0 }).spec_creates(memory_available),
{
}

/// While no runtime is ready, a request grows the pool by one runtime
/// whenever the machine has memory for it, however many runtimes already
/// start; without free memory it grows only an empty pool.
pub proof fn lemma_pool_grows_while_none_ready(s: PoolStats)
    requires
        s.pending_runtimes == 0,
    ensures
        s.spec_creates(true),
        s.total_runtimes > 0 ==> !s.spec_creates(false),
        s.total_runtimes == 0 ==> s.spec_creates(false),
{
}

/// No new runtime is started while a runtime is ready to take work.
pub proof fn lemma_no_new_runtime_while_one_is_ready(s: PoolStats, memory_available: bool)
    requires
        s.pending_runtimes > 0,
    ensures
        !s.spec_creates(memory_available),
{
}

} // verus!
