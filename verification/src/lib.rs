//! Verified cores of two virtual-machine devices.
//!
//! The virtio modules hold the device side of a virtio queue, split or packed,
//! without any notification mechanism or other transport-specific detail. The
//! `net` modules hold what the user-mode network back end knows of addresses and
//! frames.

pub mod complete_work;
pub mod descriptor;
pub mod get_work;
pub mod layout;
pub mod laws;
pub mod le;
pub mod memory;
pub mod net;
pub mod packed;
pub mod queue;
pub mod split;
