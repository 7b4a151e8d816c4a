//! An operation on one block, from the request to its result.
//!
//! The driver decides what comes next, and the caller does it: it notifies the device, lets the
//! driver look at what the device returned, and hands over the status that the device wrote.
use crate::error::Error;
use crate::nonblock;
use crate::request::BlkResp;
use vstd::prelude::*;

verus! {

/// How an operation ended.
#[derive(Debug, Clone, Copy, PartialEq, Eq, Structural)]
pub enum Outcome {
    /// The device carried it out.
    Done,
    /// The device has not finished it, and the caller does not wait.
    WouldBlock,
    /// It failed.
    Failed(Error),
}

/// How far an operation got.
#[derive(Debug, Clone, Copy, PartialEq, Eq, Structural)]
pub enum Phase {
    /// The request is in the queue.
    Offered,
    /// The device knows of the request.
    Awaited,
    /// The device returned a chain.
    Returned,
    /// The operation has ended.
    Over(Outcome),
}

/// What the caller has to do next.
#[derive(Debug, Clone, Copy, PartialEq, Eq, Structural)]
pub enum Action {
    /// Notify the device of a queue.
    Notify(u32),
    /// Look at what the device returned.
    Look,
    /// Read the status that the device wrote.
    ReadStatus,
    /// Return.
    Return(Outcome),
}

/// An operation on one block.
#[derive(Debug, Clone, Copy, PartialEq, Eq, Structural)]
pub struct Operation {
    /// Whether the caller waits for the device.
    pub wait: bool,
    /// The queue that holds the request.
    pub queue: u32,
    /// How far it got.
    pub phase: Phase,
}

impl Operation {
    /// An operation that waits does not end before the device has finished.
    pub open spec fn wf(self) -> bool {
        self.wait ==> self.phase != Phase::Over(Outcome::WouldBlock)
    }

    /// What the caller has to do next.
    pub open spec fn next_action(self) -> Action {
        match self.phase {
            Phase::Offered => Action::Notify(self.queue),
            Phase::Awaited => Action::Look,
            Phase::Returned => Action::ReadStatus,
            Phase::Over(outcome) => Action::Return(outcome),
        }
    }

    /// The operation after the device was notified.
    pub open spec fn after_notify(self) -> Operation {
        Operation { phase: Phase::Awaited, ..self }
    }

    /// The operation after a look at what the device returned.
    pub open spec fn after_look(self, returned: bool) -> Operation {
        Operation {
            phase: if returned {
                Phase::Returned
            } else if self.wait {
                Phase::Awaited
            } else {
                Phase::Over(Outcome::WouldBlock)
            },
            ..self
        }
    }

    /// The operation after the device said what cannot be acted on.
    pub open spec fn after_fault(self) -> Operation {
        Operation { phase: Phase::Over(Outcome::Failed(Error::IoError)), ..self }
    }

    /// The operation after its status was read.
    pub open spec fn after_status(self, resp: BlkResp) -> Operation {
        Operation {
            phase: Phase::Over(
                match resp.result() {
                    Ok(_) => Outcome::Done,
                    Err(error) => Outcome::Failed(error),
                },
            ),
            ..self
        }
    }

    /// What the caller has to do next.
    pub fn action(&self) -> (action: Action)
        ensures
            action == self.next_action(),
    {
        match self.phase {
            Phase::Offered => Action::Notify(self.queue),
            Phase::Awaited => Action::Look,
            Phase::Returned => Action::ReadStatus,
            Phase::Over(outcome) => Action::Return(outcome),
        }
    }

    /// The device was notified.
    pub fn notified(&mut self)
        requires
            old(self).wf(),
            old(self).phase is Offered,
        ensures
            final(self).wf(),
            *final(self) == old(self).after_notify(),
    {
        self.phase = Phase::Awaited;
    }

    /// The status was read.
    pub fn status(&mut self, resp: &BlkResp)
        requires
            old(self).wf(),
            old(self).phase is Returned,
        ensures
            final(self).wf(),
            *final(self) == old(self).after_status(*resp),
    {
        self.phase = match resp.outcome() {
            Ok(_) => Phase::Over(Outcome::Done),
            Err(error) => Phase::Over(Outcome::Failed(error)),
        };
    }
}

impl Outcome {
    /// The result of an operation that waited.
    pub fn blocking(self) -> (result: Result<(), Error>)
        requires
            self != Outcome::WouldBlock,
        ensures
            match self {
                Outcome::Failed(error) => result == Err::<(), Error>(error),
                _ => result is Ok,
            },
    {
        match self {
            Outcome::Failed(error) => Err(error),
            _ => Ok(()),
        }
    }

    /// The result of an operation that did not wait.
    pub fn non_blocking(self) -> (result: Result<(), nb::Error<Error>>)
        ensures
            match self {
                Outcome::Done => result is Ok,
                Outcome::WouldBlock => result matches Err(e) && nonblock::cause(e) is None,
                Outcome::Failed(error) => result matches Err(e) && nonblock::cause(e) == Some(
                    error,
                ),
            },
    {
        match self {
            Outcome::Done => Ok(()),
            Outcome::WouldBlock => Err(nonblock::would_block()),
            Outcome::Failed(error) => Err(nonblock::other(error)),
        }
    }
}

} // verus!
