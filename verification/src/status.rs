//! The phase of one broadcast instance at one party.

use vstd::prelude::*;

verus! {

/// Phases in the order in which an instance passes through them.
#[derive(Clone, Copy, PartialEq, Eq, Structural, Debug)]
pub enum Status {
    WAITING,
    INIT,
    ECHO,
    READY,
    OUTPUT,
    TERMINATED,
}

impl Status {
    /// Position of the phase in the order of the enum.
    pub open spec fn rank(self) -> nat {
        match self {
            Status::WAITING => 0,
            Status::INIT => 1,
            Status::ECHO => 2,
            Status::READY => 3,
            Status::OUTPUT => 4,
            Status::TERMINATED => 5,
        }
    }

    /// The later of the two phases.
    pub open spec fn later(self, to: Status) -> Status {
        if to.rank() > self.rank() {
            to
        } else {
            self
        }
    }

    /// Position of the phase in the order of the enum.
    pub fn rank_of(self) -> (r: u8)
        ensures
            r == self.rank(),
    {
        match self {
            Status::WAITING => 0,
            Status::INIT => 1,
            Status::ECHO => 2,
            Status::READY => 3,
            Status::OUTPUT => 4,
            Status::TERMINATED => 5,
        }
    }

    /// Moves to `to` unless that would go back.
    pub fn advance(self, to: Status) -> (r: Status)
        ensures
            r == self.later(to),
            r.rank() >= self.rank(),
    {
        if to.rank_of() > self.rank_of() {
            to
        } else {
            self
        }
    }
}

/// Why a broadcast could not be started.
#[derive(Clone, Copy, PartialEq, Eq, Structural, Debug)]
pub enum StartError {
    /// The payload is empty.
    EmptyPayload,
    /// The instance has already begun.
    NotWaiting,
}

/// Advancing never lowers the rank, and advancing twice to the same phase
/// is advancing once.
pub proof fn lemma_later_monotone(s: Status, to: Status)
    ensures
        s.later(to).rank() >= s.rank(),
        s.later(to).rank() >= to.rank(),
        s.later(to).later(to) == s.later(to),
{
}

} // verus!
