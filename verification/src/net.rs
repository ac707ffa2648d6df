//! What the user-mode network back end knows of addresses and frames.

pub mod address;
pub mod laws;
pub mod loopback;
pub mod syn;
