//! A virtio block driver: split virtqueues and the block requests that travel through them.
//!
//! The crate decides everything that the driver decides and leaves to its caller what only the
//! platform can do: reading and writing the device's registers, allocating DMA memory and
//! translating addresses. The queue works on the shared memory in place, through volatile words.

pub mod blk;
pub mod blk_effects;
pub mod blk_laws;
pub mod cell;
pub mod descriptor;
pub mod effects;
pub mod error;
pub mod features;
pub mod flags;
pub mod laws;
pub mod layout;
pub mod model;
pub mod nonblock;
pub mod operation;
pub mod queue;
pub mod request;
pub mod ring;
