//! Polls and the events that they wait for, step by step.
//!
//! A poll looks for what it waits for, registers its task, and looks again. The
//! event that it waits for may be announced between any two of these steps.
use vstd::prelude::*;

verus! {

/// How far a poll has come.
pub enum PollStage {
    /// Nothing was done yet.
    Fresh,
    /// What the poll looked for was not there.
    Missed,
    /// The task is registered.
    Placed,
    /// What the poll looked for is there after all; the task is still
    /// registered.
    Caught,
    /// The poll is over, and the wait with it.
    Ready,
    /// The poll is over, and the wait goes on.
    Pending,
}

impl PollStage {
    /// The poll is over.
    pub open spec fn over(&self) -> bool {
        self is Ready || self is Pending
    }

    /// The stage after a look.
    pub open spec fn looked(&self, found: bool) -> PollStage {
        match (self, found) {
            (PollStage::Fresh, true) => PollStage::Ready,
            (PollStage::Fresh, false) => PollStage::Missed,
            (_, true) => PollStage::Caught,
            (_, false) => PollStage::Pending,
        }
    }
}

/// How far an event has come that a poll waits for.
pub enum EventStage {
    /// Nothing was done yet.
    Idle,
    /// The event has happened.
    Happened,
    /// Whoever was registered was woken.
    Done,
}

} // verus!
