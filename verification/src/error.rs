//! The errors of the driver.
use vstd::prelude::*;

verus! {

/// What can go wrong in the driver.
#[derive(Debug, Clone, Copy, PartialEq, Eq, Structural)]
pub enum Error {
    /// There is too little room for the request.
    BufferTooSmall,
    /// The device has nothing to hand back yet.
    NotReady,
    /// The queue is already in use.
    AlreadyUsed,
    /// A parameter is out of range.
    InvalidParam,
    /// DMA memory could not be allocated.
    DmaError,
    /// The device failed.
    IoError,
}

} // verus!
