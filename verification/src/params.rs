//! Network size, fault budget and the quorum sizes derived from them.

use vstd::prelude::*;

verus! {

/// Largest number of parties the erasure code can address.
pub const MAX_NODES: usize = 256;

/// `ceil(x / 2)` for a natural number `x`.
pub open spec fn half_up(x: int) -> int {
    (x + 1) / 2
}

/// ECHOs after which a VOTE is sent: `ceil(n / 2)`.
pub open spec fn vote_threshold(n: int) -> int {
    half_up(n)
}

/// ECHOs or VOTEs after which an early READY is sent: `ceil((n + f - 1) / 2)`.
pub open spec fn early_ready_threshold(n: int, f: int) -> int {
    half_up(n + f - 1)
}

/// ECHOs after which the payload is rebuilt and delivered at once:
/// `ceil((n + 2f - 2) / 2)`.
pub open spec fn optimistic_threshold(n: int, f: int) -> int {
    half_up(n + 2 * f - 2)
}

/// ECHOs that suffice for delivery once `2f + 1` READYs were seen:
/// `ceil((n - f + 1) / 2)`.
pub open spec fn latched_threshold(n: int, f: int) -> int {
    half_up(n - f + 1)
}

/// The classical quorum `n - f`.
pub open spec fn quorum(n: int, f: int) -> int {
    n - f
}

/// READYs that prove one honest party sent READY: `f + 1`.
pub open spec fn amplification_threshold(f: int) -> int {
    f + 1
}

/// READYs that latch the quorum flag: `2f + 1`.
pub open spec fn ready_latch_threshold(f: int) -> int {
    2 * f + 1
}

/// The parameters every party of one network agrees on, and this party's id.
#[derive(Clone, Copy, Debug)]
pub struct Params {
    /// Number of parties `n`.
    pub num_nodes: usize,
    /// Number of parties `f` that may misbehave.
    pub num_faults: usize,
    /// This party's replica id.
    pub myid: usize,
}

impl Params {
    /// `n > 3f`, `n` within the erasure code's reach, and `myid` names a party.
    pub open spec fn wf(&self) -> bool {
        &&& 3 * self.num_faults < self.num_nodes
        &&& self.num_nodes <= MAX_NODES
        &&& self.myid < self.num_nodes
    }

    /// Checks the three conditions of [`Params::wf`].
    pub fn new(num_nodes: usize, num_faults: usize, myid: usize) -> (r: Option<Params>)
        ensures
            r.is_some() <==> (3 * num_faults < num_nodes && num_nodes <= MAX_NODES && myid
                < num_nodes),
            r matches Some(p) ==> p.wf() && p.num_nodes == num_nodes && p.num_faults
                == num_faults && p.myid == myid,
    {
        if num_nodes <= MAX_NODES && num_faults < MAX_NODES && 3 * num_faults < num_nodes && myid
            < num_nodes {
            Some(Params { num_nodes, num_faults, myid })
        } else {
            None
        }
    }

    /// ECHOs after which a VOTE is sent.
    pub fn vote_threshold(&self) -> (t: usize)
        requires
            self.wf(),
        ensures
            t == vote_threshold(self.num_nodes as int),
    {
        (self.num_nodes + 1) / 2
    }

    /// ECHOs or VOTEs after which an early READY is sent.
    pub fn early_ready_threshold(&self) -> (t: usize)
        requires
            self.wf(),
        ensures
            t == early_ready_threshold(self.num_nodes as int, self.num_faults as int),
    {
        (self.num_nodes + self.num_faults) / 2
    }

    /// ECHOs after which the payload is rebuilt and delivered at once.
    pub fn optimistic_threshold(&self) -> (t: usize)
        requires
            self.wf(),
        ensures
            t == optimistic_threshold(self.num_nodes as int, self.num_faults as int),
    {
        (self.num_nodes + 2 * self.num_faults - 1) / 2
    }

    /// ECHOs that suffice for delivery once a READY quorum was seen.
    pub fn latched_threshold(&self) -> (t: usize)
        requires
            self.wf(),
        ensures
            t == latched_threshold(self.num_nodes as int, self.num_faults as int),
    {
        (self.num_nodes - self.num_faults + 2) / 2
    }

    /// The quorum `n - f`.
    pub fn quorum(&self) -> (t: usize)
        requires
            self.wf(),
        ensures
            t == quorum(self.num_nodes as int, self.num_faults as int),
    {
        self.num_nodes - self.num_faults
    }

    /// READYs that prove that one honest party sent READY.
    pub fn amplification_threshold(&self) -> (t: usize)
        requires
            self.wf(),
        ensures
            t == amplification_threshold(self.num_faults as int),
    {
        self.num_faults + 1
    }

    /// READYs that latch the quorum flag.
    pub fn ready_latch_threshold(&self) -> (t: usize)
        requires
            self.wf(),
        ensures
            t == ready_latch_threshold(self.num_faults as int),
    {
        2 * self.num_faults + 1
    }
}

/// Two quorums of `n - f` parties out of `n > 3f` share at least `f + 1`
/// parties, hence at least one that follows the protocol.
pub proof fn lemma_quorums_intersect(n: int, f: int)
    requires
        0 <= f,
        3 * f < n,
    ensures
        2 * quorum(n, f) - n >= f + 1,
{
}

/// With `n > 3f` and `f >= 1` a VOTE never needs more ECHOs than an early
/// READY, the latched delivery never needs more ECHOs than a quorum, and
/// `f + 1 <= 2f + 1 <= n - f <= n`.
pub proof fn lemma_thresholds_ordered(n: int, f: int)
    requires
        1 <= f,
        3 * f < n,
    ensures
        vote_threshold(n) <= early_ready_threshold(n, f),
        early_ready_threshold(n, f) <= optimistic_threshold(n, f),
        latched_threshold(n, f) <= quorum(n, f),
        amplification_threshold(f) <= ready_latch_threshold(f),
        ready_latch_threshold(f) <= quorum(n, f),
        quorum(n, f) <= n,
{
}

} // verus!
